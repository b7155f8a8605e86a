use tagged_store::models::{CreatePostInput, NewUser};
use tagged_store::service::{create_post_with_tags, create_user, list_posts};
use tagged_store::store::{Conn, Failure};

fn input(title: &str, body: &str, tags: &[&str]) -> CreatePostInput {
    CreatePostInput {
        created_by: None,
        title: title.to_string(),
        body: body.to_string(),
        tags: tags.iter().map(|s| s.to_string()).collect(),
    }
}

fn sorted(v: &[String]) -> Vec<String> {
    let mut out = v.to_vec();
    out.sort();
    out
}

#[test]
fn create_user_assigns_id_and_echoes_fields() {
    let mut conn = Conn::new();
    let u = create_user(
        &mut conn,
        NewUser {
            username: "alice".to_string(),
            first_name: "Alice".to_string(),
            last_name: None,
        },
    )
    .unwrap();
    assert_eq!(u.id, 1);
    assert_eq!(u.username, "alice");
    assert_eq!(u.first_name, "Alice");
    assert_eq!(u.last_name, None);
    assert_eq!(conn.store.users.len(), 1);
}

#[test]
fn duplicate_username_is_a_storage_failure() {
    let mut conn = Conn::new();
    let nu = || NewUser {
        username: "alice".to_string(),
        first_name: "Alice".to_string(),
        last_name: None,
    };
    create_user(&mut conn, nu()).unwrap();
    let r = create_user(&mut conn, nu());
    assert_eq!(r.unwrap_err(), Failure::Storage);
    assert_eq!(conn.store.users.len(), 1);
}

#[test]
fn empty_username_is_a_validation_failure() {
    let mut conn = Conn::new();
    let r = create_user(
        &mut conn,
        NewUser { username: String::new(), first_name: "A".to_string(), last_name: None },
    );
    assert_eq!(r.unwrap_err(), Failure::Validation);
    assert_eq!(conn.store.users.len(), 0);
}

#[test]
fn create_user_on_failed_connection_is_a_storage_failure() {
    let mut conn = Conn::with_write_budget(0);
    let r = create_user(
        &mut conn,
        NewUser { username: "a".to_string(), first_name: "A".to_string(), last_name: None },
    );
    assert_eq!(r.unwrap_err(), Failure::Storage);
}

#[test]
fn round_trip_create_then_list_returns_exact_tag_set() {
    let mut conn = Conn::new();
    let created = create_post_with_tags(&mut conn, input("t", "b", &["a", "b"])).unwrap();
    let page = list_posts(&conn.store, &None, None, None);
    assert_eq!(page.records.len(), 1);
    let rec = &page.records[0];
    assert_eq!(rec.post.id, created.post.id);
    assert_eq!(sorted(&rec.tags), vec!["a".to_string(), "b".to_string()]);
    assert_eq!(sorted(&created.tags), vec!["a".to_string(), "b".to_string()]);
}

#[test]
fn tag_set_is_order_insensitive() {
    let mut conn = Conn::new();
    let first = create_post_with_tags(&mut conn, input("t1", "b1", &["a", "b"])).unwrap();
    let second = create_post_with_tags(&mut conn, input("t2", "b2", &["b", "a"])).unwrap();
    assert_eq!(sorted(&first.tags), sorted(&second.tags));
    // the shared tags were not duplicated
    assert_eq!(conn.store.tags.len(), 2);
    let page = list_posts(&conn.store, &None, None, None);
    assert_eq!(page.records.len(), 2);
    assert_eq!(sorted(&page.records[0].tags), sorted(&page.records[1].tags));
}

#[test]
fn duplicate_input_tags_are_absorbed() {
    let mut conn = Conn::new();
    let created = create_post_with_tags(&mut conn, input("t", "b", &["a", "a", "b"])).unwrap();
    assert_eq!(sorted(&created.tags), vec!["a".to_string(), "b".to_string()]);
    assert_eq!(conn.store.tags.len(), 2);
    assert_eq!(conn.store.post_tags.len(), 2);
}

#[test]
fn post_without_tags_lists_an_empty_tag_list() {
    let mut conn = Conn::new();
    create_post_with_tags(&mut conn, input("t", "b", &[])).unwrap();
    let page = list_posts(&conn.store, &None, None, None);
    assert_eq!(page.records.len(), 1);
    assert!(page.records[0].tags.is_empty());
}

#[test]
fn failed_linking_rolls_back_the_post() {
    // one tag needs 1 post insert + 1 upsert + 1 association insert;
    // a budget of 2 makes the linking step fail after the post insert
    // succeeded
    let mut conn = Conn::with_write_budget(2);
    let r = create_post_with_tags(&mut conn, input("t", "b", &["a"]));
    assert_eq!(r.unwrap_err(), Failure::Storage);
    let page = list_posts(&conn.store, &None, None, None);
    assert_eq!(page.records.len(), 0);
    assert_eq!(page.meta.total_docs, 0);
    assert_eq!(conn.store.posts.len(), 0);
    assert_eq!(conn.store.tags.len(), 0);
    assert_eq!(conn.store.post_tags.len(), 0);
}

#[test]
fn failed_tag_upsert_rolls_back_the_post() {
    // budget 1: the post insert succeeds, the first upsert fails
    let mut conn = Conn::with_write_budget(1);
    let r = create_post_with_tags(&mut conn, input("t", "b", &["a", "b"]));
    assert_eq!(r.unwrap_err(), Failure::Storage);
    assert_eq!(conn.store.posts.len(), 0);
    assert_eq!(conn.store.tags.len(), 0);
}

#[test]
fn sufficient_budget_commits_the_whole_transaction() {
    // two tags need exactly 1 + 2 + 2 writes
    let mut conn = Conn::with_write_budget(5);
    create_post_with_tags(&mut conn, input("t", "b", &["a", "b"])).unwrap();
    assert_eq!(conn.store.posts.len(), 1);
    assert_eq!(conn.store.tags.len(), 2);
    assert_eq!(conn.store.post_tags.len(), 2);
}
