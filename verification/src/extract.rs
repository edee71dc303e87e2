//! Interpreting the metadata tool's output. The tool itself — one child
//! process per image, asked for the human-readable `Parameters` tag as a
//! JSON document — runs outside the library; this module turns its exit code
//! and standard output into one of the four extraction outcomes.

use vstd::prelude::*;

use crate::parser::parse_raw;
use crate::parser::parse_spec;
use crate::record::Image;
use crate::record::ImageModel;

verus! {

/// Why extraction failed. Failures are the tool's, never the image's: an
/// image without usable metadata is [`Extraction::Absent`], not an error.
#[derive(Debug, Clone, PartialEq, Eq, Structural)]
pub enum ExtractionError {
    /// The tool exited with a failure other than the no-metadata code, or
    /// did not exit at all.
    ToolFailed,
    /// The tool's output was not UTF-8 text.
    NotUtf8,
    /// The tool's output was not a JSON document.
    NotJson,
}

/// The outcome of reading one image's embedded metadata.
#[derive(Debug, Clone, PartialEq)]
pub enum Extraction {
    /// The blob parsed: the structured record.
    Parsed(Image),
    /// The image carries no parameters tag — an ordinary photograph.
    Absent,
    /// The tag is present but its text does not fit the grammar.
    Unparseable,
    /// The tool or its output could not be used.
    Failed(ExtractionError),
}

/// Model of an [`Extraction`].
pub enum ExtractionModel {
    Parsed(ImageModel),
    Absent,
    Unparseable,
    Failed(ExtractionError),
}

impl View for Extraction {
    type V = ExtractionModel;

    open spec fn view(&self) -> ExtractionModel {
        match self {
            Extraction::Parsed(im) => ExtractionModel::Parsed(im@),
            Extraction::Absent => ExtractionModel::Absent,
            Extraction::Unparseable => ExtractionModel::Unparseable,
            Extraction::Failed(e) => ExtractionModel::Failed(*e),
        }
    }
}

/// The exit code with which the metadata tool reports a file without usable
/// metadata.
pub const NO_METADATA_EXIT: i32 = 1;

/// What `String::from_utf8` decodes the given bytes to: `None` when they are
/// not valid UTF-8 text. A function of the bytes alone.
pub uninterp spec fn utf8_decode(b: Seq<u8>) -> Option<Seq<char>>;

/// Relies on `String::from_utf8`: whether the bytes decode, and to what
/// text, depends on the bytes alone.
#[verifier::external_body]
fn utf8_string(bytes: Vec<u8>) -> (r: Option<String>)
    ensures
        match r {
            Some(s) => utf8_decode(bytes@) == Some(s@),
            None => utf8_decode(bytes@) is None,
        },
{
    String::from_utf8(bytes).ok()
}

#[verifier::external_type_specification]
#[verifier::external_body]
pub struct ExJsonError(json::Error);

/// The `Parameters` member of the first element of a JSON document text:
/// `None` when the text is not valid JSON, `Some(None)` when the member is
/// absent or not a string, `Some(Some(p))` its text. A function of the
/// document text alone.
pub uninterp spec fn json_parameters_member(doc: Seq<char>) -> Option<Option<Seq<char>>>;

/// Relies on `json::parse`, on indexing a `json::JsonValue` (a missing
/// element or member indexes to null, never a panic) and on
/// `JsonValue::as_str` (`Some` exactly for the string variants): all three
/// are functions of the document text alone.
#[verifier::external_body]
fn parameters_of_document(doc: &str) -> (r: Result<Option<String>, json::Error>)
    ensures
        match r {
            Ok(Some(p)) => json_parameters_member(doc@) == Some(Some(p@)),
            Ok(None) => json_parameters_member(doc@) == Some(None::<Seq<char>>),
            Err(_) => json_parameters_member(doc@) is None,
        },
{
    let parsed = json::parse(doc)?;
    Ok(parsed[0]["Parameters"].as_str().map(|s| s.to_owned()))
}

/// The outcome owed for one invocation of the metadata tool, given its exit
/// code (`None` when it did not exit) and its standard output.
pub open spec fn spec_interpret(exit_code: Option<i32>, stdout: Seq<u8>) -> ExtractionModel {
    match exit_code {
        None => ExtractionModel::Failed(ExtractionError::ToolFailed),
        Some(c) => if c == 0 {
            match utf8_decode(stdout) {
                None => ExtractionModel::Failed(ExtractionError::NotUtf8),
                Some(doc) => match json_parameters_member(doc) {
                    None => ExtractionModel::Failed(ExtractionError::NotJson),
                    Some(None) => ExtractionModel::Absent,
                    Some(Some(p)) => match parse_spec(p) {
                        None => ExtractionModel::Unparseable,
                        Some(im) => ExtractionModel::Parsed(im),
                    },
                },
            }
        } else if c == NO_METADATA_EXIT {
            ExtractionModel::Absent
        } else {
            ExtractionModel::Failed(ExtractionError::ToolFailed)
        },
    }
}

/// Interpret one invocation of the metadata tool on an image.
pub fn interpret_tool_output(exit_code: Option<i32>, stdout: Vec<u8>) -> (r: Extraction)
    ensures
        r@ == spec_interpret(exit_code, stdout@),
{
    let code = match exit_code {
        None => {
            return Extraction::Failed(ExtractionError::ToolFailed);
        },
        Some(c) => c,
    };
    if code != 0 {
        if code == NO_METADATA_EXIT {
            return Extraction::Absent;
        }
        return Extraction::Failed(ExtractionError::ToolFailed);
    }
    let doc = match utf8_string(stdout) {
        None => {
            return Extraction::Failed(ExtractionError::NotUtf8);
        },
        Some(d) => d,
    };
    let raw = match parameters_of_document(doc.as_str()) {
        Err(_) => {
            return Extraction::Failed(ExtractionError::NotJson);
        },
        Ok(None) => {
            return Extraction::Absent;
        },
        Ok(Some(p)) => p,
    };
    match parse_raw(raw.as_str()) {
        None => Extraction::Unparseable,
        Some(im) => Extraction::Parsed(im),
    }
}

} // verus!
