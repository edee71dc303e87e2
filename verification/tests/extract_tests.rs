use sdgenbox::extract::{interpret_tool_output, Extraction, ExtractionError};
use sdgenbox::record::Image;

#[test]
fn a_killed_tool_is_a_failure() {
    assert_eq!(
        interpret_tool_output(None, Vec::new()),
        Extraction::Failed(ExtractionError::ToolFailed)
    );
}

#[test]
fn an_unexpected_exit_code_is_a_failure() {
    assert_eq!(
        interpret_tool_output(Some(2), Vec::new()),
        Extraction::Failed(ExtractionError::ToolFailed)
    );
}

#[test]
fn the_no_metadata_exit_code_means_absent() {
    assert_eq!(interpret_tool_output(Some(1), Vec::new()), Extraction::Absent);
}

#[test]
fn non_utf8_output_is_a_failure() {
    assert_eq!(
        interpret_tool_output(Some(0), vec![0xff, 0xfe, 0x00]),
        Extraction::Failed(ExtractionError::NotUtf8)
    );
}

#[test]
fn non_json_output_is_a_failure() {
    assert_eq!(
        interpret_tool_output(Some(0), b"not a json document".to_vec()),
        Extraction::Failed(ExtractionError::NotJson)
    );
}

#[test]
fn a_document_without_the_tag_means_absent() {
    assert_eq!(interpret_tool_output(Some(0), b"[]".to_vec()), Extraction::Absent);
    assert_eq!(
        interpret_tool_output(Some(0), b"[{\"SourceFile\": \"a.png\"}]".to_vec()),
        Extraction::Absent
    );
}

#[test]
fn a_tag_that_fits_the_grammar_parses_to_the_record() {
    let doc = "[{\"Parameters\": \"p1\\nNegative prompt: n1\\nSteps: 20, Sampler: s, CFG scale: 7, Seed: -5, Size: 64x128, Model hash: h, Model: m\"}]";
    let expected = Image {
        id: -1,
        prompt: "p1".to_string(),
        negative_prompt: "n1".to_string(),
        steps: 20,
        sampler: "s".to_string(),
        cfg_scale: 7,
        seed: -5,
        width: 64,
        height: 128,
        model_hash: "h".to_string(),
        model: "m".to_string(),
        clip_skip: None,
        file_path: None,
        created_at: 0,
    };
    assert_eq!(
        interpret_tool_output(Some(0), doc.as_bytes().to_vec()),
        Extraction::Parsed(expected)
    );
}

#[test]
fn a_tag_outside_the_grammar_is_unparseable() {
    let doc = "[{\"Parameters\": \"an ordinary caption\"}]";
    assert_eq!(
        interpret_tool_output(Some(0), doc.as_bytes().to_vec()),
        Extraction::Unparseable
    );
}
