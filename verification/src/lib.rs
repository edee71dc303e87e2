//! Core logic of an image gallery that stores generation metadata embedded in
//! image files: parsing the embedded parameter blob into a structured record,
//! building a safe multi-column search filter, computing offset/limit pairs for
//! paging, and producing the compressed page-number window for navigation.

pub mod extract;
pub mod pager;
pub mod parser;
pub mod query;
pub mod record;
pub mod upload;
