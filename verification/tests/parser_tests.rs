use sdgenbox::parser::{parse_raw, parse_size, ParseSizeError};
use sdgenbox::record::Image;

fn full_blob() -> String {
    "masterpiece, best quality\nNegative prompt: lowres, bad anatomy\nSteps: 20, Sampler: DPM++ 2M Karras, CFG scale: 7, Seed: 2179987202, Size: 768x512, Model hash: 93b79e09ed, Model: anything-v4.5, Conditional mask weight: 1.0, Clip skip: 2".to_string()
}

fn full_record() -> Image {
    Image {
        id: -1,
        prompt: "masterpiece, best quality".to_string(),
        negative_prompt: "lowres, bad anatomy".to_string(),
        steps: 20,
        sampler: "DPM++ 2M Karras".to_string(),
        cfg_scale: 7,
        seed: 2179987202,
        width: 768,
        height: 512,
        model_hash: "93b79e09ed".to_string(),
        model: "anything-v4.5".to_string(),
        clip_skip: Some(2),
        file_path: None,
        created_at: 0,
    }
}

#[test]
fn full_blob_parses_to_exact_record() {
    assert_eq!(parse_raw(&full_blob()), Some(full_record()));
}

#[test]
fn parsing_twice_yields_equal_records() {
    let blob = full_blob();
    let first = parse_raw(&blob);
    let second = parse_raw(&blob);
    assert!(first.is_some());
    assert_eq!(first, second);
}

#[test]
fn empty_string_is_unparseable() {
    assert_eq!(parse_raw(""), None);
}

#[test]
fn missing_negative_prompt_marker_is_unparseable() {
    let blob = "just a prompt\nSteps: 20, Sampler: s, CFG scale: 7, Seed: 1, Size: 64x64, Model hash: h, Model: m";
    assert_eq!(parse_raw(blob), None);
}

#[test]
fn non_numeric_steps_is_unparseable() {
    let blob = "p\nNegative prompt: n\nSteps: twenty, Sampler: s, CFG scale: 7, Seed: 1, Size: 64x64, Model hash: h, Model: m";
    assert_eq!(parse_raw(blob), None);
}

#[test]
fn optional_fields_may_both_be_absent() {
    let blob = "p\nNegative prompt: n\nSteps: 20, Sampler: s, CFG scale: 7, Seed: -5, Size: 64x128, Model hash: h, Model: m";
    let record = parse_raw(blob).expect("mandatory fields are all present");
    assert_eq!(record.seed, -5);
    assert_eq!(record.width, 64);
    assert_eq!(record.height, 128);
    assert_eq!(record.clip_skip, None);
}

#[test]
fn clip_skip_without_mask_weight_is_kept() {
    let blob = "p\nNegative prompt: n\nSteps: 20, Sampler: s, CFG scale: 7, Seed: 1, Size: 64x64, Model hash: h, Model: m, Clip skip: 4";
    let record = parse_raw(blob).expect("clip skip alone is fine");
    assert_eq!(record.clip_skip, Some(4));
}

#[test]
fn mask_weight_is_parsed_and_discarded() {
    let blob = "p\nNegative prompt: n\nSteps: 20, Sampler: s, CFG scale: 7, Seed: 1, Size: 64x64, Model hash: h, Model: m, Conditional mask weight: 0.8";
    let record = parse_raw(blob).expect("mask weight alone is fine");
    assert_eq!(record.clip_skip, None);
    assert_eq!(record.model, "m");
}

#[test]
fn prompt_may_contain_the_marker_words() {
    // The field boundary is the last occurrence of each marker.
    let blob = "A\nNegative prompt: B\nNegative prompt: C\nSteps: 20, Sampler: s, CFG scale: 7, Seed: 1, Size: 64x64, Model hash: h, Model: m";
    let record = parse_raw(blob).expect("the last marker splits the fields");
    assert_eq!(record.prompt, "A\nNegative prompt: B");
    assert_eq!(record.negative_prompt, "C");
}

#[test]
fn overflowing_steps_value_is_unparseable() {
    let blob = "p\nNegative prompt: n\nSteps: 99999999999999999999, Sampler: s, CFG scale: 7, Seed: 1, Size: 64x64, Model hash: h, Model: m";
    assert_eq!(parse_raw(blob), None);
}

#[test]
fn empty_negative_prompt_is_unparseable() {
    let blob = "p\nNegative prompt: \nSteps: 20, Sampler: s, CFG scale: 7, Seed: 1, Size: 64x64, Model hash: h, Model: m";
    assert_eq!(parse_raw(blob), None);
}

#[test]
fn text_after_the_last_field_is_ignored() {
    let blob = "p\nNegative prompt: n\nSteps: 20, Sampler: s, CFG scale: 7, Seed: 1, Size: 64x64, Model hash: h, Model: m, Something else: 3";
    let record = parse_raw(blob).expect("unknown trailing fields are ignored");
    assert_eq!(record.model, "m");
    assert_eq!(record.clip_skip, None);
}

#[test]
fn parse_size_accepts_width_by_height() {
    assert_eq!(parse_size("123x456"), Ok((123, 456)));
    assert_eq!(parse_size("768x512"), Ok((768, 512)));
}

#[test]
fn parse_size_rejects_malformed_texts() {
    assert_eq!(parse_size(""), Err(ParseSizeError));
    assert_eq!(parse_size("123"), Err(ParseSizeError));
    assert_eq!(parse_size("x5"), Err(ParseSizeError));
    assert_eq!(parse_size("12x"), Err(ParseSizeError));
    assert_eq!(parse_size("12x34x56"), Err(ParseSizeError));
    assert_eq!(parse_size("a2x5"), Err(ParseSizeError));
}
