use sdgenbox::upload::{upload_outcome, UploadOutcome};

#[test]
fn no_files_leads_back_to_the_form() {
    assert_eq!(upload_outcome(&vec![]), UploadOutcome::NoFiles);
}

#[test]
fn a_single_saved_file_leads_to_its_record() {
    assert_eq!(upload_outcome(&vec![Some(5)]), UploadOutcome::Single(5));
}

#[test]
fn a_single_failed_file_reports_the_failure() {
    assert_eq!(upload_outcome(&vec![None]), UploadOutcome::SomeFailed);
}

#[test]
fn a_fully_saved_batch_leads_to_the_listing() {
    assert_eq!(
        upload_outcome(&vec![Some(1), Some(2), Some(3)]),
        UploadOutcome::AllSaved
    );
}

#[test]
fn a_partly_failed_batch_reports_the_failure() {
    assert_eq!(
        upload_outcome(&vec![Some(1), None, Some(3)]),
        UploadOutcome::SomeFailed
    );
}
