//! The decision taken after a batch upload: where the user is sent next,
//! given which of the uploaded files were saved.

use vstd::prelude::*;

verus! {

/// The query string of the upload form page: an optional error message to
/// show above the form.
pub struct UploadGetQuery {
    pub error_message: Option<String>,
}

/// Where a finished batch upload leads.
#[derive(Debug, Clone, PartialEq)]
pub enum UploadOutcome {
    /// No file was provided: back to the form with an error message.
    NoFiles,
    /// Exactly one file was provided and saved: its record's page.
    Single(i64),
    /// Every file was saved: the listing.
    AllSaved,
    /// At least one file failed: back to the form with an error message.
    SomeFailed,
}

/// The outcome for a batch of per-file results, each the stored record's
/// identifier for a saved file or `None` for a failed one.
pub open spec fn spec_upload_outcome(results: Seq<Option<i64>>) -> UploadOutcome {
    if results.len() == 0 {
        UploadOutcome::NoFiles
    } else if results.len() == 1 && results[0] is Some {
        UploadOutcome::Single(results[0]->0)
    } else if forall|k: int| 0 <= k < results.len() ==> results[k] is Some {
        UploadOutcome::AllSaved
    } else {
        UploadOutcome::SomeFailed
    }
}

/// Decide where a finished batch upload leads.
pub fn upload_outcome(results: &Vec<Option<i64>>) -> (r: UploadOutcome)
    ensures
        r == spec_upload_outcome(results@),
{
    if results.len() == 0 {
        return UploadOutcome::NoFiles;
    }
    if results.len() == 1 {
        if let Some(id) = results[0] {
            return UploadOutcome::Single(id);
        }
    }
    let mut k: usize = 0;
    while k < results.len()
        invariant
            k <= results@.len(),
            forall|j: int| 0 <= j < k ==> results@[j] is Some,
        decreases results@.len() - k,
    {
        if results[k].is_none() {
            return UploadOutcome::SomeFailed;
        }
        k += 1;
    }
    UploadOutcome::AllSaved
}

} // verus!
