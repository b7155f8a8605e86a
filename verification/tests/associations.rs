use tagged_store::assoc::link;
use tagged_store::models::NewPost;
use tagged_store::posts::insert_post;
use tagged_store::store::Conn;
use tagged_store::tags::ensure_tags;

fn seed_post_and_tags(conn: &mut Conn, tag_names: &[&str]) -> (i32, Vec<i32>) {
    let post = insert_post(
        conn,
        NewPost { created_by: None, title: "t".to_string(), body: "b".to_string() },
    )
    .unwrap();
    let resolved =
        ensure_tags(conn, &tag_names.iter().map(|s| s.to_string()).collect()).unwrap();
    (post.id, resolved.iter().map(|t| t.id).collect())
}

#[test]
fn linking_twice_leaves_one_row_per_pair() {
    let mut conn = Conn::new();
    let (post_id, tag_ids) = seed_post_and_tags(&mut conn, &["a"]);
    link(&mut conn, post_id, &tag_ids).unwrap();
    link(&mut conn, post_id, &tag_ids).unwrap();
    assert_eq!(conn.store.post_tags.len(), 1);
    assert_eq!(conn.store.post_tags[0].post_id, post_id);
    assert_eq!(conn.store.post_tags[0].tag_id, tag_ids[0]);
}

#[test]
fn duplicate_ids_in_one_batch_are_absorbed() {
    let mut conn = Conn::new();
    let (post_id, tag_ids) = seed_post_and_tags(&mut conn, &["a", "b"]);
    let mut batch = tag_ids.clone();
    batch.push(tag_ids[0]);
    link(&mut conn, post_id, &batch).unwrap();
    assert_eq!(conn.store.post_tags.len(), 2);
}

#[test]
fn link_with_exhausted_budget_fails_with_storage() {
    let mut conn = Conn::with_write_budget(2);
    let (post_id, tag_ids) = seed_post_and_tags(&mut conn, &["a"]);
    // the post insert and the tag upsert used the whole budget
    let r = link(&mut conn, post_id, &tag_ids);
    assert!(matches!(r, Err(tagged_store::store::Failure::Storage)));
    assert_eq!(conn.store.post_tags.len(), 0);
}
