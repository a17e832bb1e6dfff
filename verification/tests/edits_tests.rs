use rust_devtools_mcp::edits::{apply_edits_to_content, EditError, Position, Range, TextEdit};

fn edit(sl: u32, sc: u32, el: u32, ec: u32, text: &str) -> TextEdit {
    TextEdit {
        range: Range {
            start: Position { line: sl, character: sc },
            end: Position { line: el, character: ec },
        },
        new_text: text.to_string(),
    }
}

#[test]
fn single_replacement_round_trip() {
    let edits = vec![edit(0, 2, 0, 4, "XYZ")];
    let out = apply_edits_to_content("abcdef", &edits).expect("must apply");
    assert_eq!(out, "abXYZef");
}

#[test]
fn two_disjoint_edits_in_either_order_agree() {
    let first = edit(0, 1, 0, 2, "B");
    let second = edit(0, 4, 0, 5, "E");
    let one_way = vec![first.clone(), second.clone()];
    let other_way = vec![second, first];
    let a = apply_edits_to_content("abcdef", &one_way).expect("must apply");
    let b = apply_edits_to_content("abcdef", &other_way).expect("must apply");
    assert_eq!(a, b);
    assert_eq!(a, "aBcdEf");
}

#[test]
fn multi_line_positions_resolve_per_line() {
    let edits = vec![edit(1, 0, 1, 3, "two")];
    let out = apply_edits_to_content("one\nTWO\nthree", &edits).expect("must apply");
    assert_eq!(out, "one\ntwo\nthree");
}

#[test]
fn end_of_line_insertion_is_valid() {
    let edits = vec![edit(0, 3, 0, 3, "!")];
    let out = apply_edits_to_content("abc\ndef", &edits).expect("must apply");
    assert_eq!(out, "abc!\ndef");
}

#[test]
fn no_edits_leave_content_unchanged() {
    let edits: Vec<TextEdit> = Vec::new();
    let out = apply_edits_to_content("abc", &edits).expect("must apply");
    assert_eq!(out, "abc");
}

#[test]
fn position_past_the_line_is_rejected() {
    let edits = vec![edit(0, 7, 0, 8, "x")];
    let err = apply_edits_to_content("abcdef", &edits).unwrap_err();
    assert_eq!(err, EditError::InvalidEdit);
}

#[test]
fn line_past_the_content_is_rejected() {
    let edits = vec![edit(5, 0, 5, 1, "x")];
    let err = apply_edits_to_content("one\ntwo", &edits).unwrap_err();
    assert_eq!(err, EditError::InvalidEdit);
}

#[test]
fn inverted_range_is_rejected_before_anything_applies() {
    let edits = vec![edit(0, 4, 0, 2, "x")];
    let err = apply_edits_to_content("abcdef", &edits).unwrap_err();
    assert_eq!(err, EditError::InvalidEdit);
}

#[test]
fn one_bad_edit_rejects_the_whole_batch() {
    let edits = vec![edit(0, 0, 0, 1, "A"), edit(9, 0, 9, 1, "x")];
    let err = apply_edits_to_content("abcdef", &edits).unwrap_err();
    assert_eq!(err, EditError::InvalidEdit);
}

#[test]
fn overlapping_edits_apply_furthest_first() {
    let edits = vec![edit(0, 0, 0, 3, "X"), edit(0, 2, 0, 5, "Y")];
    let out = apply_edits_to_content("abcdef", &edits).expect("must apply");
    assert_eq!(out, "Xf");
}

#[test]
fn multibyte_characters_count_as_single_positions() {
    let edits = vec![edit(0, 1, 0, 2, "o")];
    let out = apply_edits_to_content("héllo", &edits).expect("must apply");
    assert_eq!(out, "hollo");
}
