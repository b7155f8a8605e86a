use tagged_store::models::NewPost;
use tagged_store::pagination::compute_pagination;
use tagged_store::posts::{insert_post, search, tags_of_post};
use tagged_store::responses::Meta;
use tagged_store::store::Conn;

#[test]
fn insert_post_assigns_sequential_ids_and_echoes_fields() {
    let mut conn = Conn::new();
    let first = insert_post(
        &mut conn,
        NewPost { created_by: Some(7), title: "T".to_string(), body: "B".to_string() },
    )
    .unwrap();
    let second = insert_post(
        &mut conn,
        NewPost { created_by: None, title: "U".to_string(), body: "C".to_string() },
    )
    .unwrap();
    assert_eq!(first.id, 1);
    assert_eq!(second.id, 2);
    assert_eq!(first.created_by, Some(7));
    assert_eq!(first.title, "T");
    assert_eq!(first.body, "B");
    assert_eq!(conn.store.posts.len(), 2);
}

#[test]
fn search_counts_all_matches_and_slices_the_page() {
    let mut conn = Conn::new();
    for i in 0..4 {
        insert_post(
            &mut conn,
            NewPost {
                created_by: None,
                title: format!("title {}", i),
                body: "same".to_string(),
            },
        )
        .unwrap();
    }
    let (page, total) = search(&conn.store, "same", 1, 2);
    assert_eq!(total, 4);
    assert_eq!(page.len(), 2);
    assert_eq!(page[0].id, 2);
    assert_eq!(page[1].id, 3);
    let (none, zero) = search(&conn.store, "absent", 0, 10);
    assert_eq!(zero, 0);
    assert!(none.is_empty());
}

#[test]
fn post_without_associations_aggregates_empty() {
    let mut conn = Conn::new();
    let p = insert_post(
        &mut conn,
        NewPost { created_by: None, title: "t".to_string(), body: "b".to_string() },
    )
    .unwrap();
    assert!(tags_of_post(&conn.store, p.id).is_empty());
}

#[test]
fn response_meta_mirrors_pagination_meta() {
    let m = compute_pagination(2, 10, 25, 10);
    let meta = Meta::of_pagination(&m);
    assert_eq!(meta.current_page, 2);
    assert_eq!(meta.per_page, 10);
    assert_eq!(meta.from, 11);
    assert_eq!(meta.to, 20);
    assert_eq!(meta.total_pages, 3);
    assert_eq!(meta.total_docs, 25);
}
