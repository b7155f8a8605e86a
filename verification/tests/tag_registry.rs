use tagged_store::store::Conn;
use tagged_store::tags::ensure_tags;

fn names(v: &[&str]) -> Vec<String> {
    v.iter().map(|s| s.to_string()).collect()
}

#[test]
fn duplicate_input_names_create_one_row_each() {
    let mut conn = Conn::new();
    let resolved = ensure_tags(&mut conn, &names(&["x", "y", "x"])).unwrap();
    assert_eq!(conn.store.tags.len(), 2);
    assert_eq!(resolved.len(), 2);
    assert_eq!(resolved[0].name, "x");
    assert_eq!(resolved[1].name, "y");
}

#[test]
fn ensure_twice_resolves_same_ids() {
    let mut conn = Conn::new();
    let first = ensure_tags(&mut conn, &names(&["a", "b"])).unwrap();
    let second = ensure_tags(&mut conn, &names(&["b", "c", "a"])).unwrap();
    assert_eq!(conn.store.tags.len(), 3);
    let id_of = |rs: &Vec<tagged_store::models::Tag>, n: &str| {
        rs.iter().find(|t| t.name == n).unwrap().id
    };
    assert_eq!(id_of(&first, "a"), id_of(&second, "a"));
    assert_eq!(id_of(&first, "b"), id_of(&second, "b"));
}

#[test]
fn tag_names_stay_unique_across_calls() {
    let mut conn = Conn::new();
    ensure_tags(&mut conn, &names(&["a", "b"])).unwrap();
    ensure_tags(&mut conn, &names(&["a", "b"])).unwrap();
    ensure_tags(&mut conn, &names(&["b"])).unwrap();
    assert_eq!(conn.store.tags.len(), 2);
    for i in 0..conn.store.tags.len() {
        for j in 0..conn.store.tags.len() {
            if i != j {
                assert_ne!(conn.store.tags[i].name, conn.store.tags[j].name);
            }
        }
    }
}

#[test]
fn ensure_with_exhausted_budget_fails_with_storage() {
    let mut conn = Conn::with_write_budget(1);
    let r = ensure_tags(&mut conn, &names(&["a", "b"]));
    assert!(matches!(r, Err(tagged_store::store::Failure::Storage)));
    // the first upsert went through before the budget ran out
    assert_eq!(conn.store.tags.len(), 1);
}

#[test]
fn empty_batch_resolves_empty() {
    let mut conn = Conn::new();
    let resolved = ensure_tags(&mut conn, &names(&[])).unwrap();
    assert!(resolved.is_empty());
    assert_eq!(conn.store.tags.len(), 0);
}
