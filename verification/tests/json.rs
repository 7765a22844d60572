use cosense_ocr::json::{json_path_for, project_json};
use cosense_ocr::page::{Page, Project};
use cosense_ocr::pipeline::build_document;

fn page(index: usize, text: &str) -> Page {
    Page { index, text: text.to_string() }
}

#[test]
fn document_with_a_hole_serialises_exactly() {
    // Recognition succeeded for the first and third page and failed for the
    // second: the document carries the two survivors under their original
    // indices.
    let results = vec![Some(page(0, "A")), None, Some(page(2, "C"))];
    let doc = build_document(results, None).unwrap();
    assert_eq!(
        project_json(&doc),
        "{\"pages\":[{\"index\":0,\"text\":\"A\"},{\"index\":2,\"text\":\"C\"}]}"
    );
}

#[test]
fn empty_document_serialises_to_an_empty_list() {
    let doc = Project { pages: Vec::new() };
    assert_eq!(project_json(&doc), "{\"pages\":[]}");
}

#[test]
fn single_page_has_no_separator() {
    let doc = Project { pages: vec![page(7, "only")] };
    assert_eq!(project_json(&doc), "{\"pages\":[{\"index\":7,\"text\":\"only\"}]}");
}

#[test]
fn text_is_escaped() {
    let doc = Project { pages: vec![page(0, "a\"b\\c\nd\te")] };
    assert_eq!(
        project_json(&doc),
        "{\"pages\":[{\"index\":0,\"text\":\"a\\\"b\\\\c\\nd\\te\"}]}"
    );
}

#[test]
fn control_characters_get_unicode_escapes() {
    let doc = Project { pages: vec![page(0, "x\u{0001}y\u{001f}z")] };
    assert_eq!(
        project_json(&doc),
        "{\"pages\":[{\"index\":0,\"text\":\"x\\u0001y\\u001fz\"}]}"
    );
}

#[test]
fn multi_digit_indices_are_written_in_full() {
    let doc = Project { pages: vec![page(10, "j"), page(123, "k")] };
    assert_eq!(
        project_json(&doc),
        "{\"pages\":[{\"index\":10,\"text\":\"j\"},{\"index\":123,\"text\":\"k\"}]}"
    );
}

#[test]
fn document_path_appends_the_suffix() {
    assert_eq!(json_path_for("scans/alpha"), "scans/alpha-ocr.json");
    assert_eq!(json_path_for(""), "-ocr.json");
}
