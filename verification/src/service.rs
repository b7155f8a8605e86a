//! The content service: composes the repository, the tag registry and the
//! association manager into the operations callers see.
//!
//! `create_post_with_tags` runs the post insert, the tag upserts and the
//! association inserts as one atomic unit: on any step's failure the store
//! is rolled back to its prior state, so no caller ever observes a post
//! with a partially linked tag set.  `list_posts` composes the filtered
//! search, the per-page tag aggregation and the pagination calculation.

use vstd::prelude::*;
use crate::models::{
    CreatePostInput, NewPost, NewPostV, NewUser, NewUserV, PaginatedResponse, PostTagV, PostV,
    PostWithTags, TagV, User, UserV, opt_int, str_views,
};
use crate::assoc::{ids_view, lemma_link_frame, link, link_effect};
use crate::pagination::{
    compute_pagination, norm_limit, norm_page, spec_norm_limit, spec_norm_page, spec_total_pages,
};
use crate::posts::{
    insert_post, insert_post_effect, lemma_insert_post_wf, lemma_matching_len,
    lemma_matching_sorted, matching_posts, page_of, post_views, search, tag_names_for,
    tags_of_post,
};
use crate::store::{
    Conn, Failure, Store, StoreV, has_post, has_tag_id, has_tag_name, has_username,
    lemma_table_len_bounds, lemma_writes_compose, spec_consume, spec_writes_ok,
};
use crate::tags::{
    ensure_tags, ensure_tags_effect, lemma_ensure_tags_contains, lemma_ensure_tags_wf,
    lemma_resolved_names_complete, lemma_resolved_props, lemma_tag_with_id_of_member,
    resolved_tags, tag_ids_of, tag_names_of, tag_views,
};

verus! {

/// Ghost image of a user table.
pub open spec fn user_views(v: Seq<User>) -> Seq<UserV> {
    v.map(|i: int, u: User| u@)
}

/// Effect of inserting one user row: the row is appended with the next
/// identifier and the counter advances.
pub open spec fn insert_user_effect(s: StoreV, nu: NewUserV) -> StoreV {
    StoreV {
        users: s.users.push(
            UserV {
                id: s.next_user_id,
                username: nu.username,
                first_name: nu.first_name,
                last_name: nu.last_name,
            },
        ),
        next_user_id: s.next_user_id + 1,
        ..s
    }
}

/// Inserting a user with a fresh username preserves the store invariant
/// and leaves every other table untouched.
pub proof fn lemma_insert_user_wf(s: StoreV, nu: NewUserV)
    requires
        s.wf(),
        !has_username(s.users, nu.username),
    ensures
        ({
            let r = insert_user_effect(s, nu);
            &&& r.wf()
            &&& r.posts == s.posts
            &&& r.tags == s.tags
            &&& r.post_tags == s.post_tags
            &&& r.next_post_id == s.next_post_id
            &&& r.next_tag_id == s.next_tag_id
            &&& r.next_user_id == s.next_user_id + 1
            &&& r.users.len() == s.users.len() + 1
            &&& forall|i: int| 0 <= i < s.users.len() ==> r.users[i] == s.users[i]
        }),
{
    let r = insert_user_effect(s, nu);
    assert forall|i: int| 0 <= i < s.users.len() implies s.users[i].username != nu.username by {
        if s.users[i].username == nu.username {
            assert(has_username(s.users, nu.username));
        }
    }
    assert(r.users[s.users.len() as int].id == s.next_user_id);
}

/// Decides whether some stored user carries this username.
fn username_taken(users: &Vec<User>, username: &String) -> (b: bool)
    ensures
        b == has_username(user_views(users@), username@),
{
    let mut i: usize = 0;
    while i < users.len()
        invariant
            i <= users@.len(),
            forall|j: int| 0 <= j < i ==> user_views(users@)[j].username != username@,
        decreases users@.len() - i,
    {
        if users[i].username == *username {
            assert(user_views(users@)[i as int].username == username@);
            return true;
        }
        i = i + 1;
    }
    false
}

/// Creates a user: an immutable account record with a unique, non-empty
/// username.
///
/// An empty username is malformed and is rejected before reaching storage.
/// A duplicate username violates the uniqueness constraint and surfaces as
/// a storage failure (the statement still consumed its write).  Succeeds
/// exactly when the username is non-empty and free and the connection can
/// still write.
pub fn create_user(conn: &mut Conn, new_user: NewUser) -> (r: Result<User, Failure>)
    requires
        old(conn).store@.wf(),
        old(conn).store@.next_user_id < i32::MAX,
    ensures
        final(conn).store@.wf(),
        r is Ok <==> (new_user.username@.len() > 0 && spec_writes_ok(old(conn).writes_left, 1)
            && !has_username(old(conn).store@.users, new_user.username@)),
        r is Ok ==> {
            &&& final(conn).store@ == insert_user_effect(old(conn).store@, new_user@)
            &&& final(conn).writes_left == spec_consume(old(conn).writes_left, 1)
            &&& r->Ok_0@ == (UserV {
                id: old(conn).store@.next_user_id,
                username: new_user@.username,
                first_name: new_user@.first_name,
                last_name: new_user@.last_name,
            })
        },
        new_user.username@.len() == 0 ==> r == Err::<User, Failure>(Failure::Validation)
            && *final(conn) == *old(conn),
        new_user.username@.len() > 0 && !spec_writes_ok(old(conn).writes_left, 1) ==> r
            == Err::<User, Failure>(Failure::Storage) && *final(conn) == *old(conn),
        new_user.username@.len() > 0 && spec_writes_ok(old(conn).writes_left, 1) && has_username(
            old(conn).store@.users,
            new_user.username@,
        ) ==> r == Err::<User, Failure>(Failure::Storage) && final(conn).store == old(conn).store
            && final(conn).writes_left == spec_consume(old(conn).writes_left, 1),
{
    if new_user.username.as_str().is_empty() {
        return Err(Failure::Validation);
    }
    if !conn.take_write() {
        return Err(Failure::Storage);
    }
    if username_taken(&conn.store.users, &new_user.username) {
        return Err(Failure::Storage);
    }
    let ghost nu = new_user@;
    let ghost pre = conn.store@;
    proof {
        lemma_insert_user_wf(pre, nu);
    }
    let id = conn.store.next_user_id;
    let user = User {
        id,
        username: new_user.username,
        first_name: new_user.first_name,
        last_name: new_user.last_name,
    };
    let echo = user.clone();
    conn.store.users.push(user);
    conn.store.next_user_id = id + 1;
    proof {
        assert(conn.store@.users =~= pre.users.push(
            UserV {
                id: id as int,
                username: nu.username,
                first_name: nu.first_name,
                last_name: nu.last_name,
            },
        ));
        assert(conn.store@.posts =~= pre.posts);
        assert(conn.store@.tags =~= pre.tags);
        assert(conn.store@.post_tags =~= pre.post_tags);
        assert(conn.store@ =~= insert_user_effect(pre, nu));
    }
    Ok(echo)
}

/// A post with no association rows aggregates an empty tag-name list.
proof fn lemma_no_rows_empty_aggregation(post_tags: Seq<PostTagV>, tags: Seq<TagV>, p: int)
    requires
        forall|i: int| 0 <= i < post_tags.len() ==> (#[trigger] post_tags[i]).post_id != p,
    ensures
        tag_names_for(post_tags, tags, p) == Seq::<Seq<char>>::empty(),
    decreases post_tags.len(),
{
    if post_tags.len() > 0 {
        let prev = post_tags.drop_last();
        assert forall|i: int| 0 <= i < prev.len() implies (#[trigger] prev[i]).post_id != p by {
            assert(prev[i] == post_tags[i]);
        }
        lemma_no_rows_empty_aggregation(post_tags.drop_last(), tags, p);
        assert(post_tags[post_tags.len() - 1].post_id != p);
    }
}

/// Linking a batch of tags with ascending identifiers to a post that has
/// no association rows yet makes the post's aggregated tag-name list
/// exactly the batch's names, in batch order.
proof fn lemma_link_fresh_aggregation(s: StoreV, p: int, rtags: Seq<TagV>)
    requires
        forall|i: int| 0 <= i < s.post_tags.len() ==> (#[trigger] s.post_tags[i]).post_id != p,
        forall|a: int, b: int| 0 <= a < b < rtags.len() ==> rtags[a].id < rtags[b].id,
        forall|k: int| 0 <= k < rtags.len() ==> s.tags.contains(#[trigger] rtags[k]),
        forall|a: int, b: int| 0 <= a < b < s.tags.len() ==> s.tags[a].id < s.tags[b].id,
    ensures
        ({
            let s3 = link_effect(s, p, tag_ids_of(rtags));
            tag_names_for(s3.post_tags, s3.tags, p) == tag_names_of(rtags)
        }),
    decreases rtags.len(),
{
    let ids = tag_ids_of(rtags);
    let s3 = link_effect(s, p, ids);
    lemma_link_frame(s, p, ids);
    if rtags.len() == 0 {
        lemma_no_rows_empty_aggregation(s.post_tags, s.tags, p);
        assert(tag_names_of(rtags) =~= Seq::<Seq<char>>::empty());
    } else {
        let prev = rtags.drop_last();
        let ids_prev = tag_ids_of(prev);
        assert(ids.drop_last() =~= ids_prev);
        assert forall|k: int| 0 <= k < prev.len() implies s.tags.contains(#[trigger] prev[k]) by {
            assert(prev[k] == rtags[k]);
        }
        lemma_link_fresh_aggregation(s, p, prev);
        lemma_link_frame(s, p, ids_prev);
        let mid = link_effect(s, p, ids_prev);
        assert(link_effect(s, p, ids) == crate::assoc::link_one_effect(mid, p, ids.last()));
        // The pair (p, last tag) is not yet present in `mid`.
        assert(!crate::store::has_pair(mid.post_tags, p, ids.last())) by {
            if crate::store::has_pair(mid.post_tags, p, ids.last()) {
                let i = choose|i: int|
                    0 <= i < mid.post_tags.len() && mid.post_tags[i].post_id == p
                        && mid.post_tags[i].tag_id == ids.last();
                if i < s.post_tags.len() {
                    assert(s.post_tags[i].post_id != p);
                } else {
                    assert(ids_prev.contains(mid.post_tags[i].tag_id));
                    let j = choose|j: int|
                        0 <= j < ids_prev.len() && ids_prev[j] == mid.post_tags[i].tag_id;
                    assert(rtags[j].id == rtags.last().id);
                    assert(rtags[j].id < rtags[rtags.len() - 1].id);
                }
            }
        }
        assert(s3.post_tags == mid.post_tags.push(PostTagV { post_id: p, tag_id: ids.last() }));
        assert(s3.post_tags.drop_last() =~= mid.post_tags);
        assert(s3.post_tags.last().post_id == p);
        lemma_tag_with_id_of_member(s.tags, rtags.last());
        assert(rtags[rtags.len() - 1] == rtags.last());
        assert(tag_names_for(s3.post_tags, s.tags, p) == tag_names_for(
            mid.post_tags,
            s.tags,
            p,
        ).push(crate::store::tag_with_id(s.tags, ids.last()).name));
        assert(tag_names_of(rtags).drop_last() =~= tag_names_of(prev));
        assert(tag_names_of(rtags) =~= tag_names_of(prev).push(rtags.last().name));
    }
}

/// The post row a `CreatePostInput` asks for.
pub open spec fn new_post_of(input: CreatePostInput) -> NewPostV {
    NewPostV { created_by: opt_int(input.created_by), title: input.title@, body: input.body@ }
}

/// The composed effect of creating a post with its tags: the post row is
/// inserted, the tag names are upserted, and the post is linked to every
/// resolved tag.
pub open spec fn create_post_with_tags_effect(
    s: StoreV,
    np: NewPostV,
    names: Seq<Seq<char>>,
) -> StoreV {
    let s2 = ensure_tags_effect(insert_post_effect(s, np), names);
    link_effect(s2, s.next_post_id, tag_ids_of(resolved_tags(s2.tags, names)))
}

/// The row-level writes the composed create operation issues: one post
/// insert, one upsert per input name, and one association insert per
/// resolved tag.
pub open spec fn create_post_writes(s: StoreV, np: NewPostV, names: Seq<Seq<char>>) -> nat {
    let s2 = ensure_tags_effect(insert_post_effect(s, np), names);
    1 + names.len() + resolved_tags(s2.tags, names).len()
}

/// Restores the store to a snapshot taken before a transaction began, by
/// truncating the rows the transaction appended and restoring the
/// identifier counters.  Sound only while the current state extends the
/// snapshot prefix-stably, which every operation of the transaction
/// guarantees.
fn rollback(
    conn: &mut Conn,
    Ghost(snap): Ghost<StoreV>,
    posts_len: usize,
    tags_len: usize,
    pairs_len: usize,
    next_post_id: i32,
    next_tag_id: i32,
)
    requires
        snap.posts.len() == posts_len,
        snap.tags.len() == tags_len,
        snap.post_tags.len() == pairs_len,
        snap.next_post_id == next_post_id,
        snap.next_tag_id == next_tag_id,
        snap.next_user_id == old(conn).store@.next_user_id,
        snap.users == old(conn).store@.users,
        posts_len <= old(conn).store@.posts.len(),
        tags_len <= old(conn).store@.tags.len(),
        pairs_len <= old(conn).store@.post_tags.len(),
        forall|i: int| 0 <= i < posts_len ==> old(conn).store@.posts[i] == snap.posts[i],
        forall|i: int| 0 <= i < tags_len ==> old(conn).store@.tags[i] == snap.tags[i],
        forall|i: int| 0 <= i < pairs_len ==> old(conn).store@.post_tags[i] == snap.post_tags[i],
    ensures
        final(conn).store@ == snap,
        final(conn).writes_left == old(conn).writes_left,
{
    conn.store.posts.truncate(posts_len);
    conn.store.tags.truncate(tags_len);
    conn.store.post_tags.truncate(pairs_len);
    conn.store.next_post_id = next_post_id;
    conn.store.next_tag_id = next_tag_id;
    proof {
        assert(conn.store@.posts =~= snap.posts);
        assert(conn.store@.tags =~= snap.tags);
        assert(conn.store@.post_tags =~= snap.post_tags);
        assert(conn.store@.users =~= snap.users);
        assert(conn.store@ =~= snap);
    }
}

/// Creates a post together with its tags as one atomic unit: the post row,
/// the tag upserts and the association rows either all apply or — on any
/// step's failure — none do: the store is rolled back to its prior state,
/// so no caller ever observes a post with a partially linked tag set.
///
/// On success the returned projection carries the stored post and its
/// aggregated tag-name list, which holds exactly the input names
/// (duplicates and prior insertions absorbed).  Succeeds exactly when the
/// connection can carry the whole write batch.
pub fn create_post_with_tags(conn: &mut Conn, input: CreatePostInput) -> (r: Result<
    PostWithTags,
    Failure,
>)
    requires
        old(conn).store@.wf(),
        old(conn).store@.next_post_id < i32::MAX,
        old(conn).store@.next_tag_id + input.tags@.len() <= i32::MAX,
    ensures
        final(conn).store@.wf(),
        r is Ok <==> spec_writes_ok(
            old(conn).writes_left,
            create_post_writes(old(conn).store@, new_post_of(input), str_views(input.tags@)),
        ),
        r is Ok ==> {
            &&& final(conn).store@ == create_post_with_tags_effect(
                old(conn).store@,
                new_post_of(input),
                str_views(input.tags@),
            )
            &&& final(conn).writes_left == spec_consume(
                old(conn).writes_left,
                create_post_writes(old(conn).store@, new_post_of(input), str_views(input.tags@)),
            )
            &&& r->Ok_0.post@ == (PostV {
                id: old(conn).store@.next_post_id,
                created_by: opt_int(input.created_by),
                title: input.title@,
                body: input.body@,
            })
            &&& str_views(r->Ok_0.tags@) == tag_names_for(
                final(conn).store@.post_tags,
                final(conn).store@.tags,
                old(conn).store@.next_post_id,
            )
            &&& forall|n: Seq<char>|
                #[trigger] str_views(r->Ok_0.tags@).contains(n) <==> str_views(
                    input.tags@,
                ).contains(n)
        },
        r is Err ==> {
            &&& r->Err_0 == Failure::Storage
            &&& final(conn).store@ == old(conn).store@
            &&& final(conn).writes_left == Some(0u64)
        },
{
    let ghost s0 = old(conn).store@;
    let ghost np = new_post_of(input);
    let ghost names = str_views(input.tags@);
    let ghost wtotal = create_post_writes(s0, np, names);

    let posts_len = conn.store.posts.len();
    let tags_len = conn.store.tags.len();
    let pairs_len = conn.store.post_tags.len();
    let save_next_post = conn.store.next_post_id;
    let save_next_tag = conn.store.next_tag_id;

    let tag_names = input.tags;
    let new_post = NewPost { created_by: input.created_by, title: input.title, body: input.body };

    proof {
        lemma_insert_post_wf(s0, np);
        lemma_ensure_tags_wf(insert_post_effect(s0, np), names);
    }
    let ghost s1 = insert_post_effect(s0, np);
    let ghost s2 = ensure_tags_effect(s1, names);

    let created = match insert_post(conn, new_post) {
        Ok(p) => p,
        Err(e) => {
            proof {
                assert(!spec_writes_ok(old(conn).writes_left, wtotal));
            }
            return Err(e);
        },
    };
    let resolved = match ensure_tags(conn, &tag_names) {
        Ok(v) => v,
        Err(e) => {
            proof {
                lemma_writes_compose(old(conn).writes_left, 1, names.len());
                assert(!spec_writes_ok(old(conn).writes_left, wtotal));
                match old(conn).writes_left {
                    None => {
                        assert(false);
                    },
                    Some(w0) => {
                        assert(w0 >= 1);
                        assert(spec_consume(old(conn).writes_left, 1) == Some((w0 - 1) as u64));
                        assert((w0 - 1) as u64 as int == w0 - 1);
                        assert(conn.store@ == ensure_tags_effect(s1, names.take(w0 - 1)));
                        lemma_ensure_tags_wf(s1, names.take(w0 - 1));
                    },
                }
            }
            rollback(conn, Ghost(s0), posts_len, tags_len, pairs_len, save_next_post,
                save_next_tag);
            return Err(e);
        },
    };
    let ghost rtv = tag_views(resolved@);

    // Resolve the identifier and name lists of the looked-up tags.
    let mut tag_ids: Vec<i32> = Vec::new();
    let mut out_names: Vec<String> = Vec::new();
    let mut k: usize = 0;
    while k < resolved.len()
        invariant
            k <= resolved@.len(),
            rtv == tag_views(resolved@),
            rtv.len() == resolved@.len(),
            tag_ids@.len() == k,
            ids_view(tag_ids@) == tag_ids_of(rtv).take(k as int),
            str_views(out_names@) == tag_names_of(rtv).take(k as int),
        decreases resolved@.len() - k,
    {
        let ghost ids_pre = ids_view(tag_ids@);
        let ghost names_pre = str_views(out_names@);
        tag_ids.push(resolved[k].id);
        out_names.push(resolved[k].name.clone());
        proof {
            assert(rtv[k as int] == resolved@[k as int]@);
            assert(ids_view(tag_ids@) =~= ids_pre.push(rtv[k as int].id));
            assert(str_views(out_names@) =~= names_pre.push(rtv[k as int].name));
            assert(tag_ids_of(rtv).take(k as int + 1) =~= tag_ids_of(rtv).take(k as int).push(
                rtv[k as int].id,
            ));
            assert(tag_names_of(rtv).take(k as int + 1) =~= tag_names_of(rtv).take(k as int).push(
                rtv[k as int].name,
            ));
        }
        k = k + 1;
    }
    proof {
        assert(tag_ids_of(rtv).take(rtv.len() as int) =~= tag_ids_of(rtv));
        assert(tag_names_of(rtv).take(rtv.len() as int) =~= tag_names_of(rtv));
        lemma_resolved_props(s2.tags, names);
        assert(has_post(s2.posts, created.id as int));
        assert forall|i: int| 0 <= i < tag_ids@.len() implies has_tag_id(
            conn.store@.tags,
            #[trigger] tag_ids@[i] as int,
        ) by {
            assert(ids_view(tag_ids@)[i] == tag_ids@[i] as int);
            assert(ids_view(tag_ids@)[i] == tag_ids_of(rtv)[i]);
            assert(s2.tags.contains(rtv[i]));
            let j = choose|j: int| 0 <= j < s2.tags.len() && s2.tags[j] == rtv[i];
            assert(s2.tags[j].id == tag_ids@[i] as int);
        }
    }
    match link(conn, created.id, &tag_ids) {
        Ok(()) => {},
        Err(e) => {
            proof {
                lemma_writes_compose(old(conn).writes_left, 1, names.len());
                lemma_writes_compose(old(conn).writes_left, (1 + names.len()) as nat, rtv.len());
                assert(!spec_writes_ok(old(conn).writes_left, wtotal));
                match old(conn).writes_left {
                    None => {
                        assert(false);
                    },
                    Some(w0) => {
                        assert(w0 >= 1 + names.len());
                        let w2 = w0 - 1 - names.len();
                        assert(spec_consume(old(conn).writes_left, (1 + names.len()) as nat)
                            == Some(w2 as u64));
                        assert(w2 as u64 as int == w2);
                        assert(conn.store@ == link_effect(
                            s2,
                            created.id as int,
                            ids_view(tag_ids@).take(w2),
                        ));
                        lemma_link_frame(s2, created.id as int, ids_view(tag_ids@).take(w2));
                    },
                }
            }
            rollback(conn, Ghost(s0), posts_len, tags_len, pairs_len, save_next_post,
                save_next_tag);
            return Err(e);
        },
    }
    proof {
        assert(created.id as int == s0.next_post_id);
        assert(ids_view(tag_ids@) == tag_ids_of(rtv));
        assert(conn.store@ == link_effect(s2, s0.next_post_id, tag_ids_of(rtv)));
        assert(conn.store@ == create_post_with_tags_effect(s0, np, names));
        lemma_writes_compose(old(conn).writes_left, 1, names.len());
        lemma_writes_compose(old(conn).writes_left, (1 + names.len()) as nat, rtv.len());
        assert(spec_writes_ok(old(conn).writes_left, wtotal));
        assert(conn.writes_left == spec_consume(old(conn).writes_left, wtotal));
        assert forall|i: int|
            0 <= i < s2.post_tags.len() implies (#[trigger] s2.post_tags[i]).post_id
            != s0.next_post_id by {
            assert(s2.post_tags == s0.post_tags);
            assert(has_post(s0.posts, s0.post_tags[i].post_id));
            let j = choose|j: int|
                0 <= j < s0.posts.len() && s0.posts[j].id == s0.post_tags[i].post_id;
            assert(s0.posts[j].id < s0.next_post_id);
        }
        lemma_link_fresh_aggregation(s2, s0.next_post_id, rtv);
        assert(str_views(out_names@) == tag_names_of(rtv));
        assert forall|n: Seq<char>| names.contains(n) implies #[trigger] has_tag_name(
            s2.tags,
            n,
        ) by {
            lemma_ensure_tags_contains(s1, names, n);
        }
        lemma_resolved_names_complete(s2.tags, names);
    }
    Ok(PostWithTags { post: created, tags: out_names })
}

/// The term a listing filters by: the caller's term, or the empty term —
/// which matches everything — when none was supplied.
pub open spec fn spec_term(search: &Option<String>) -> Seq<char> {
    match search {
        Some(s) => s@,
        None => Seq::empty(),
    }
}

/// Lists posts: the page `[(page-1)*limit, page*limit)` of the posts
/// matching the search term, in ascending identifier order, each with its
/// aggregated tag-name list, together with pagination metadata computed
/// from the same filter's total match count.
///
/// Absent or non-positive page numbers and limits are normalized to the
/// defaults rather than rejected.  A page past the last one is not an
/// error: it yields an empty record list and an empty, well-formed range
/// (`to == from - 1`) while the metadata still describes the whole
/// matching collection.
pub fn list_posts(
    store: &Store,
    search_term: &Option<String>,
    page: Option<i64>,
    limit: Option<i64>,
) -> (r: PaginatedResponse<PostWithTags>)
    requires
        store@.wf(),
        spec_norm_page(page) * spec_norm_limit(limit) <= i64::MAX,
    ensures
        ({
            let p = spec_norm_page(page);
            let l = spec_norm_limit(limit);
            let m = matching_posts(store@.posts, spec_term(search_term));
            let pg = page_of(m, (p - 1) * l, l);
            &&& r.records@.len() == pg.len()
            &&& forall|i: int|
                0 <= i < pg.len() ==> (#[trigger] r.records@[i]).post@ == pg[i] && str_views(
                    r.records@[i].tags@,
                ) == tag_names_for(store@.post_tags, store@.tags, pg[i].id)
            &&& r.meta.current_page as int == p
            &&& r.meta.per_page as int == l
            &&& r.meta.total_docs as int == m.len()
            &&& r.meta.from as int == (p - 1) * l + 1
            &&& pg.len() == 0 ==> r.meta.to == r.meta.from - 1
            &&& pg.len() > 0 ==> r.meta.to as int == r.meta.from + pg.len() - 1
            &&& r.meta.total_pages as int == spec_total_pages(m.len() as int, l)
            &&& r.meta.total_pages >= 0
            &&& (r.meta.total_pages == 0 <==> m.len() == 0)
            &&& forall|i: int, j: int| 0 <= i < j < pg.len() ==> pg[i].id < pg[j].id
            &&& (p - 1) * l >= m.len() ==> r.records@.len() == 0 && r.meta.to == r.meta.from - 1
        }),
{
    let ghost m = matching_posts(store@.posts, spec_term(search_term));
    proof {
        lemma_table_len_bounds(store@);
        lemma_matching_len(store@.posts, spec_term(search_term));
        lemma_matching_sorted(store@.posts, spec_term(search_term));
    }
    let p = norm_page(page);
    let l = norm_limit(limit);
    proof {
        vstd::arithmetic::mul::lemma_mul_nonnegative((p - 1) as int, l as int);
        assert((p - 1) as int * (l as int) == p as int * (l as int) - (l as int))
            by (nonlinear_arith);
    }
    let offset = (p - 1) * l;
    let term: &str = match search_term {
        Some(s) => s.as_str(),
        None => "",
    };
    proof {
        if search_term is None {
            reveal_strlit("");
            assert(term@ =~= spec_term(search_term));
        }
    }
    let (posts_page, total) = search(store, term, offset, l);
    let ghost pg = page_of(m, offset as int, l as int);
    proof {
        assert(post_views(posts_page@) == pg);
        assert(pg.len() <= l as int);
        assert(posts_page@.len() == pg.len());
    }
    let returned = posts_page.len() as i64;
    let meta = compute_pagination(p, l, total, returned);
    let mut records: Vec<PostWithTags> = Vec::new();
    let mut k: usize = 0;
    while k < posts_page.len()
        invariant
            store@.wf(),
            k <= posts_page@.len(),
            records@.len() == k,
            forall|i: int|
                0 <= i < k ==> (#[trigger] records@[i]).post@ == post_views(posts_page@)[i]
                    && str_views(records@[i].tags@) == tag_names_for(
                    store@.post_tags,
                    store@.tags,
                    post_views(posts_page@)[i].id,
                ),
        decreases posts_page@.len() - k,
    {
        let post = posts_page[k].clone();
        let post_id = post.id;
        let tags = tags_of_post(store, post_id);
        proof {
            assert(post@ == post_views(posts_page@)[k as int]);
            assert(post_id as int == post_views(posts_page@)[k as int].id);
        }
        records.push(PostWithTags { post, tags });
        k = k + 1;
    }
    PaginatedResponse { records, meta }
}

} // verus!
