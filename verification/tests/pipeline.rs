use cosense_ocr::page::Page;
use cosense_ocr::pipeline::{
    add_profile_page, build_document, collect_pages, page_from_recognition, ProfileError,
};

fn page(index: usize, text: &str) -> Page {
    Page { index, text: text.to_string() }
}

#[test]
fn collect_keeps_original_positions_and_drops_failures() {
    // Three dispatched pages, the middle one failed: the output holds the two
    // survivors, each under its original index, in ascending order.
    let results = vec![Some(page(0, "A")), None, Some(page(2, "C"))];
    let pages = collect_pages(results);
    assert_eq!(pages.len(), 2);
    assert_eq!(pages[0].index, 0);
    assert_eq!(pages[0].text, "A");
    assert_eq!(pages[1].index, 2);
    assert_eq!(pages[1].text, "C");
}

#[test]
fn collect_orders_by_index_not_by_completion() {
    // The same outcomes handed over in a different completion order yield the
    // same ordered pages.
    let completion_one = vec![Some(page(2, "C")), None, Some(page(0, "A"))];
    let completion_two = vec![None, Some(page(0, "A")), Some(page(2, "C"))];
    let one = collect_pages(completion_one);
    let two = collect_pages(completion_two);
    assert_eq!(one.len(), two.len());
    for i in 0..one.len() {
        assert_eq!(one[i].index, two[i].index);
        assert_eq!(one[i].text, two[i].text);
    }
    assert_eq!(one[0].index, 0);
    assert_eq!(one[1].index, 2);
}

#[test]
fn collect_rerun_on_unchanged_outcomes_is_identical() {
    let make = || vec![Some(page(1, "b")), Some(page(0, "a")), Some(page(3, "d")), None];
    let first = collect_pages(make());
    let second = collect_pages(make());
    assert_eq!(first.len(), second.len());
    for i in 0..first.len() {
        assert_eq!(first[i].index, second[i].index);
        assert_eq!(first[i].text, second[i].text);
    }
}

#[test]
fn collect_empty_directory() {
    let pages = collect_pages(Vec::new());
    assert_eq!(pages.len(), 0);
}

#[test]
fn collect_every_page_failed() {
    let pages = collect_pages(vec![None, None, None]);
    assert_eq!(pages.len(), 0);
}

#[test]
fn collect_two_hundred_pages_in_order() {
    // A large directory where every recognition succeeds: every page comes
    // back, in its original position.
    let mut results = Vec::new();
    for i in 0..200usize {
        results.push(Some(page(i, "text")));
    }
    let pages = collect_pages(results);
    assert_eq!(pages.len(), 200);
    for i in 0..200usize {
        assert_eq!(pages[i].index, i);
    }
}

#[test]
fn recognition_success_becomes_a_page() {
    let r = page_from_recognition(3, Ok("hello".to_string()));
    let p = r.unwrap_or(page(99, "wrong"));
    assert_eq!(p.index, 3);
    assert_eq!(p.text, "hello");
}

#[test]
fn recognition_failure_names_the_one_based_page() {
    let r = page_from_recognition(4, Err("service unavailable".to_string()));
    match r {
        Ok(_) => panic!("a failed recognition must not yield a page"),
        Err(f) => {
            assert_eq!(f.page_number, 5);
            assert_eq!(f.message(), "Failed to extract text from image on page 5");
        }
    }
}

#[test]
fn no_profile_leaves_pages_unchanged() {
    let pages = vec![page(0, "A"), page(1, "B")];
    let out = add_profile_page(None, pages).unwrap();
    assert_eq!(out.len(), 2);
    assert_eq!(out[0].index, 0);
    assert_eq!(out[1].index, 1);
}

#[test]
fn profile_page_is_prepended() {
    let pages = vec![page(0, "A")];
    let out = add_profile_page(Some(Ok(page(0, "profile"))), pages).unwrap();
    assert_eq!(out.len(), 2);
    assert_eq!(out[0].text, "profile");
    assert_eq!(out[1].text, "A");
}

#[test]
fn profile_synthesis_failure_propagates() {
    let pages = vec![page(0, "A")];
    let out = add_profile_page(
        Some(Err(ProfileError { detail: "no portrait".to_string() })),
        pages,
    );
    match out {
        Ok(_) => panic!("a failed synthesis must abort the directory"),
        Err(e) => assert_eq!(e.detail, "no portrait"),
    }
}

#[test]
fn profile_page_comes_first_despite_failures() {
    // However many image pages failed, a configured profile stands first.
    let results = vec![None, Some(page(1, "B")), None, Some(page(3, "D"))];
    let doc = build_document(results, Some(Ok(page(0, "profile")))).unwrap();
    assert_eq!(doc.pages.len(), 3);
    assert_eq!(doc.pages[0].text, "profile");
    assert_eq!(doc.pages[1].index, 1);
    assert_eq!(doc.pages[2].index, 3);
}

#[test]
fn failed_profile_means_no_document_but_siblings_proceed() {
    // The directory whose profile synthesis failed gets no document; another
    // directory in the same run is unaffected.
    let failing = build_document(
        vec![Some(page(0, "A"))],
        Some(Err(ProfileError { detail: "synthesis failed".to_string() })),
    );
    assert!(failing.is_err());

    let sibling = build_document(vec![Some(page(0, "X"))], None).unwrap();
    assert_eq!(sibling.pages.len(), 1);
    assert_eq!(sibling.pages[0].text, "X");
}

#[test]
fn two_directories_reflect_their_own_profile_independently() {
    let with_profile =
        build_document(vec![Some(page(0, "A"))], Some(Ok(page(0, "profile")))).unwrap();
    let without_profile = build_document(vec![Some(page(0, "B"))], None).unwrap();
    assert_eq!(with_profile.pages.len(), 2);
    assert_eq!(with_profile.pages[0].text, "profile");
    assert_eq!(without_profile.pages.len(), 1);
    assert_eq!(without_profile.pages[0].text, "B");
}
