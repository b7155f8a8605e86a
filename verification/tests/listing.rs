use tagged_store::models::CreatePostInput;
use tagged_store::service::{create_post_with_tags, list_posts};
use tagged_store::store::Conn;

fn post(conn: &mut Conn, title: &str, body: &str) {
    create_post_with_tags(
        conn,
        CreatePostInput {
            created_by: None,
            title: title.to_string(),
            body: body.to_string(),
            tags: Vec::new(),
        },
    )
    .unwrap();
}

#[test]
fn search_is_case_insensitive_over_title_and_body() {
    let mut conn = Conn::new();
    post(&mut conn, "Hello World", "unrelated");
    let hit = list_posts(&conn.store, &Some("hello".to_string()), None, None);
    assert_eq!(hit.records.len(), 1);
    assert_eq!(hit.meta.total_docs, 1);
    let upper = list_posts(&conn.store, &Some("HELLO".to_string()), None, None);
    assert_eq!(upper.records.len(), 1);
    let via_body = list_posts(&conn.store, &Some("UNREL".to_string()), None, None);
    assert_eq!(via_body.records.len(), 1);
}

#[test]
fn search_without_match_returns_zero_total() {
    let mut conn = Conn::new();
    post(&mut conn, "Hello World", "unrelated");
    let miss = list_posts(&conn.store, &Some("xyz".to_string()), None, None);
    assert_eq!(miss.records.len(), 0);
    assert_eq!(miss.meta.total_docs, 0);
    assert_eq!(miss.meta.total_pages, 0);
    assert_eq!(miss.meta.to, miss.meta.from - 1);
}

#[test]
fn absent_search_matches_everything() {
    let mut conn = Conn::new();
    post(&mut conn, "one", "a");
    post(&mut conn, "two", "b");
    let all = list_posts(&conn.store, &None, None, None);
    assert_eq!(all.meta.total_docs, 2);
    assert_eq!(all.records.len(), 2);
    // stable, ascending identifier order
    assert!(all.records[0].post.id < all.records[1].post.id);
}

#[test]
fn non_positive_page_and_limit_are_normalized() {
    let mut conn = Conn::new();
    post(&mut conn, "one", "a");
    let r = list_posts(&conn.store, &None, Some(0), Some(-3));
    assert_eq!(r.meta.current_page, 1);
    assert_eq!(r.meta.per_page, 10);
    let d = list_posts(&conn.store, &None, None, None);
    assert_eq!(d.meta.current_page, 1);
    assert_eq!(d.meta.per_page, 10);
}

#[test]
fn pages_slice_the_matching_set() {
    let mut conn = Conn::new();
    for i in 0..5 {
        post(&mut conn, &format!("post {}", i), "body");
    }
    let p1 = list_posts(&conn.store, &None, Some(1), Some(2));
    assert_eq!(p1.records.len(), 2);
    assert_eq!(p1.meta.from, 1);
    assert_eq!(p1.meta.to, 2);
    assert_eq!(p1.meta.total_pages, 3);
    let p3 = list_posts(&conn.store, &None, Some(3), Some(2));
    assert_eq!(p3.records.len(), 1);
    assert_eq!(p3.meta.from, 5);
    assert_eq!(p3.meta.to, 5);
    assert_eq!(p3.records[0].post.title, "post 4");
}

#[test]
fn page_beyond_last_is_empty_not_an_error() {
    let mut conn = Conn::new();
    for i in 0..3 {
        post(&mut conn, &format!("post {}", i), "body");
    }
    let beyond = list_posts(&conn.store, &None, Some(9), Some(2));
    assert_eq!(beyond.records.len(), 0);
    assert_eq!(beyond.meta.to, beyond.meta.from - 1);
    assert_eq!(beyond.meta.total_docs, 3);
    assert_eq!(beyond.meta.total_pages, 2);
}

#[test]
fn listing_reflects_current_association_state() {
    let mut conn = Conn::new();
    create_post_with_tags(
        &mut conn,
        CreatePostInput {
            created_by: None,
            title: "tagged".to_string(),
            body: "b".to_string(),
            tags: vec!["news".to_string(), "tech".to_string()],
        },
    )
    .unwrap();
    let r = list_posts(&conn.store, &None, None, None);
    let mut tags = r.records[0].tags.clone();
    tags.sort();
    assert_eq!(tags, vec!["news".to_string(), "tech".to_string()]);
}
