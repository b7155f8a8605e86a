use tagged_store::pagination::compute_pagination;

#[test]
fn second_full_page_of_twenty_five() {
    let m = compute_pagination(2, 10, 25, 10);
    assert_eq!(m.current_page, 2);
    assert_eq!(m.per_page, 10);
    assert_eq!(m.from, 11);
    assert_eq!(m.to, 20);
    assert_eq!(m.total_pages, 3);
    assert_eq!(m.total_docs, 25);
}

#[test]
fn partial_last_page_of_twenty_five() {
    let m = compute_pagination(3, 10, 25, 5);
    assert_eq!(m.from, 21);
    assert_eq!(m.to, 25);
    assert_eq!(m.total_pages, 3);
    assert_eq!(m.total_docs, 25);
}

#[test]
fn empty_collection_has_zero_pages_and_empty_range() {
    let m = compute_pagination(1, 10, 0, 0);
    assert_eq!(m.total_pages, 0);
    assert_eq!(m.from, 1);
    assert_eq!(m.to, 0);
    assert_eq!(m.total_docs, 0);
}

#[test]
fn page_beyond_last_keeps_collection_metadata() {
    let m = compute_pagination(5, 10, 25, 0);
    assert_eq!(m.from, 41);
    assert_eq!(m.to, 40);
    assert_eq!(m.total_pages, 3);
    assert_eq!(m.total_docs, 25);
}

#[test]
fn total_pages_zero_exactly_when_total_zero() {
    assert_eq!(compute_pagination(1, 7, 0, 0).total_pages, 0);
    assert_eq!(compute_pagination(1, 7, 1, 1).total_pages, 1);
    assert_eq!(compute_pagination(1, 7, 7, 7).total_pages, 1);
    assert_eq!(compute_pagination(1, 7, 8, 7).total_pages, 2);
    assert!(compute_pagination(1, 7, 8, 7).total_pages >= 0);
}

#[test]
fn single_record_single_page() {
    let m = compute_pagination(1, 10, 1, 1);
    assert_eq!(m.from, 1);
    assert_eq!(m.to, 1);
    assert_eq!(m.total_pages, 1);
}
