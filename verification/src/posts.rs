//! The post repository: creates post rows, searches posts by a
//! case-insensitive substring over title and body, and aggregates the tag
//! names of a post.
//!
//! The search walks the table once in identifier order, counts every
//! matching row, and keeps exactly the rows of the requested page, so the
//! total count and the page come from the same filter predicate.

use vstd::prelude::*;
use crate::models::{NewPost, NewPostV, Post, PostV, Tag, TagV, str_views};
use crate::search::{matches_ci, match_at, post_matches};
use crate::store::{
    Conn, Failure, Store, StoreV, has_post, has_tag_id, lemma_table_len_bounds, spec_consume,
    spec_writes_ok, tag_with_id,
};
use crate::models::PostTagV;

verus! {

/// Ghost image of a post table.
pub open spec fn post_views(v: Seq<Post>) -> Seq<PostV> {
    v.map(|i: int, p: Post| p@)
}

/// Effect of inserting one post row: the row is appended with the next
/// identifier and the counter advances.
pub open spec fn insert_post_effect(s: StoreV, np: NewPostV) -> StoreV {
    StoreV {
        posts: s.posts.push(
            PostV {
                id: s.next_post_id,
                created_by: np.created_by,
                title: np.title,
                body: np.body,
            },
        ),
        next_post_id: s.next_post_id + 1,
        ..s
    }
}

/// Inserting a post preserves the store invariant, leaves every other
/// table untouched, extends the post table prefix-stably, and makes the
/// new identifier present.
pub proof fn lemma_insert_post_wf(s: StoreV, np: NewPostV)
    requires
        s.wf(),
    ensures
        ({
            let r = insert_post_effect(s, np);
            &&& r.wf()
            &&& has_post(r.posts, s.next_post_id)
            &&& r.users == s.users
            &&& r.tags == s.tags
            &&& r.post_tags == s.post_tags
            &&& r.next_user_id == s.next_user_id
            &&& r.next_tag_id == s.next_tag_id
            &&& r.next_post_id == s.next_post_id + 1
            &&& r.posts.len() == s.posts.len() + 1
            &&& forall|i: int| 0 <= i < s.posts.len() ==> r.posts[i] == s.posts[i]
        }),
{
    let r = insert_post_effect(s, np);
    assert(r.posts[s.posts.len() as int].id == s.next_post_id);
    assert forall|i: int| 0 <= i < r.post_tags.len() implies has_post(
        r.posts,
        #[trigger] r.post_tags[i].post_id,
    ) && has_tag_id(r.tags, r.post_tags[i].tag_id) by {
        assert(has_post(s.posts, s.post_tags[i].post_id));
        assert(has_tag_id(s.tags, s.post_tags[i].tag_id));
        let w = choose|j: int| 0 <= j < s.posts.len() && s.posts[j].id == s.post_tags[i].post_id;
        assert(r.posts[w].id == r.post_tags[i].post_id);
    }
}

/// Creates a post row.  Title and body are stored verbatim — empty-value
/// validation is the caller's responsibility.  Returns the stored row with
/// its system-assigned identifier.  Consumes one unit of the write budget;
/// with the budget exhausted the store is left untouched and a storage
/// failure is surfaced.
pub fn insert_post(conn: &mut Conn, new_post: NewPost) -> (r: Result<Post, Failure>)
    requires
        old(conn).store@.wf(),
        old(conn).store@.next_post_id < i32::MAX,
    ensures
        final(conn).store@.wf(),
        r is Ok <==> spec_writes_ok(old(conn).writes_left, 1),
        r is Ok ==> {
            &&& final(conn).store@ == insert_post_effect(old(conn).store@, new_post@)
            &&& final(conn).writes_left == spec_consume(old(conn).writes_left, 1)
            &&& r->Ok_0@ == (PostV {
                id: old(conn).store@.next_post_id,
                created_by: new_post@.created_by,
                title: new_post@.title,
                body: new_post@.body,
            })
        },
        r is Err ==> *final(conn) == *old(conn) && r->Err_0 == Failure::Storage,
{
    if !conn.take_write() {
        return Err(Failure::Storage);
    }
    let ghost np = new_post@;
    let ghost pre = conn.store@;
    proof {
        lemma_insert_post_wf(pre, np);
    }
    let id = conn.store.next_post_id;
    let post = Post {
        id,
        created_by: new_post.created_by,
        title: new_post.title,
        body: new_post.body,
    };
    let echo = post.clone();
    conn.store.posts.push(post);
    conn.store.next_post_id = id + 1;
    proof {
        assert(conn.store@.posts =~= pre.posts.push(
            PostV { id: id as int, created_by: np.created_by, title: np.title, body: np.body },
        ));
        assert(conn.store@.users =~= pre.users);
        assert(conn.store@.tags =~= pre.tags);
        assert(conn.store@.post_tags =~= pre.post_tags);
        assert(conn.store@ =~= insert_post_effect(pre, np));
    }
    Ok(echo)
}

/// The posts matching a term, in table order — the single filter predicate
/// behind both the returned page and the total count.
pub open spec fn matching_posts(posts: Seq<PostV>, term: Seq<char>) -> Seq<PostV>
    decreases posts.len(),
{
    if posts.len() == 0 {
        Seq::empty()
    } else {
        let rest = matching_posts(posts.drop_last(), term);
        if post_matches(posts.last(), term) {
            rest.push(posts.last())
        } else {
            rest
        }
    }
}

/// No more rows match than the table holds.
pub proof fn lemma_matching_len(posts: Seq<PostV>, term: Seq<char>)
    ensures
        matching_posts(posts, term).len() <= posts.len(),
    decreases posts.len(),
{
    if posts.len() > 0 {
        lemma_matching_len(posts.drop_last(), term);
    }
}

/// The matching sequence keeps the table's ascending identifier order —
/// the stable, deterministic key — so repeated queries against an
/// unchanged store return identical ordering.
pub proof fn lemma_matching_sorted(posts: Seq<PostV>, term: Seq<char>)
    requires
        forall|a: int, b: int| 0 <= a < b < posts.len() ==> posts[a].id < posts[b].id,
    ensures
        ({
            let m = matching_posts(posts, term);
            &&& forall|k: int| 0 <= k < m.len() ==> posts.contains(#[trigger] m[k])
            &&& forall|a: int, b: int| 0 <= a < b < m.len() ==> m[a].id < m[b].id
        }),
    decreases posts.len(),
{
    if posts.len() > 0 {
        let prev = posts.drop_last();
        lemma_matching_sorted(prev, term);
        let rest = matching_posts(prev, term);
        let m = matching_posts(posts, term);
        assert forall|k: int| 0 <= k < rest.len() implies posts.contains(#[trigger] rest[k]) by {
            let j = choose|j: int| 0 <= j < prev.len() && prev[j] == rest[k];
            assert(posts[j] == rest[k]);
        }
        if post_matches(posts.last(), term) {
            assert(m == rest.push(posts.last()));
            assert(m[m.len() - 1] == posts.last());
            assert(posts.contains(posts.last()));
            assert forall|a: int, b: int| 0 <= a < b < m.len() implies m[a].id < m[b].id by {
                if b < m.len() - 1 {
                    assert(rest[a].id < rest[b].id);
                } else {
                    let j = choose|j: int| 0 <= j < prev.len() && prev[j] == rest[a];
                    assert(posts[j].id < posts.last().id);
                }
            }
        }
    }
}

/// The slice `[offset, offset + limit)` of a matching sequence, clipped to
/// its length: the page a listing returns.
pub open spec fn page_of(m: Seq<PostV>, offset: int, limit: int) -> Seq<PostV>
    recommends
        0 <= offset,
        0 <= limit,
{
    let lo = if offset < m.len() {
        offset
    } else {
        m.len() as int
    };
    let hi = if offset + limit < m.len() {
        offset + limit
    } else {
        m.len() as int
    };
    m.subrange(lo, hi)
}

/// Decides the matching rule for one post.
fn post_is_match(post: &Post, term: &str) -> (b: bool)
    ensures
        b == post_matches(post@, term@),
{
    proof {
        if term@.len() == 0 {
            assert(match_at(term@, post.title@, 0));
        }
    }
    matches_ci(term, post.title.as_str()) || matches_ci(term, post.body.as_str())
}

/// Searches the post table: a post matches when the term is empty or
/// occurs case-insensitively in its title or body.  Returns the rows of
/// the slice `[offset, offset + limit)` of the matching sequence, in
/// ascending identifier order, together with the count of all matching
/// rows regardless of offset and limit.
pub fn search(store: &Store, term: &str, offset: i64, limit: i64) -> (r: (Vec<Post>, i64))
    requires
        store@.wf(),
        0 <= offset,
        0 <= limit,
        offset + limit <= i64::MAX,
    ensures
        ({
            let m = matching_posts(store@.posts, term@);
            &&& r.1 as int == m.len()
            &&& post_views(r.0@) == page_of(m, offset as int, limit as int)
        }),
{
    proof {
        lemma_table_len_bounds(store@);
    }
    let n = store.posts.len();
    let mut page: Vec<Post> = Vec::new();
    let mut count: usize = 0;
    let mut i: usize = 0;
    while i < n
        invariant
            store@.wf(),
            n == store.posts@.len(),
            n < i32::MAX as usize,
            i <= n,
            0 <= offset,
            0 <= limit,
            offset + limit <= i64::MAX,
            count as int == matching_posts(post_views(store.posts@).take(i as int), term@).len(),
            count <= i,
            post_views(page@) == page_of(
                matching_posts(post_views(store.posts@).take(i as int), term@),
                offset as int,
                limit as int,
            ),
        decreases n - i,
    {
        let ghost m_pre = matching_posts(post_views(store.posts@).take(i as int), term@);
        let is_match = post_is_match(&store.posts[i], term);
        proof {
            let pv = post_views(store.posts@);
            assert(pv.take(i as int + 1).drop_last() =~= pv.take(i as int));
            assert(pv.take(i as int + 1).last() == pv[i as int]);
            assert(pv[i as int] == store.posts@[i as int]@);
        }
        if is_match {
            let ghost m_post = m_pre.push(post_views(store.posts@)[i as int]);
            if count as i64 >= offset && (count as i64) < offset + limit {
                let ghost page_pre = post_views(page@);
                page.push(store.posts[i].clone());
                proof {
                    assert(post_views(page@) =~= page_pre.push(
                        post_views(store.posts@)[i as int],
                    ));
                    assert(page_of(m_post, offset as int, limit as int) =~= page_of(
                        m_pre,
                        offset as int,
                        limit as int,
                    ).push(m_post.last()));
                }
            } else {
                proof {
                    assert(page_of(m_post, offset as int, limit as int) =~= page_of(
                        m_pre,
                        offset as int,
                        limit as int,
                    ));
                }
            }
            count = count + 1;
        }
        i = i + 1;
    }
    proof {
        assert(post_views(store.posts@).take(n as int) =~= post_views(store.posts@));
        assert(post_views(store.posts@) =~= store@.posts);
    }
    (page, count as i64)
}

/// The names of the tags associated with a post, in the order the
/// associations were inserted.
pub open spec fn tag_names_for(post_tags: Seq<PostTagV>, tags: Seq<TagV>, post_id: int) -> Seq<
    Seq<char>,
>
    decreases post_tags.len(),
{
    if post_tags.len() == 0 {
        Seq::empty()
    } else {
        let rest = tag_names_for(post_tags.drop_last(), tags, post_id);
        if post_tags.last().post_id == post_id {
            rest.push(tag_with_id(tags, post_tags.last().tag_id).name)
        } else {
            rest
        }
    }
}

/// Looks a tag's name up by its identifier.
fn find_tag_name(tags: &Vec<Tag>, id: i32) -> (r: String)
    requires
        forall|a: int, b: int|
            0 <= a < b < tags@.len() ==> crate::tags::tag_views(tags@)[a].id
                < crate::tags::tag_views(tags@)[b].id,
        has_tag_id(crate::tags::tag_views(tags@), id as int),
    ensures
        r@ == tag_with_id(crate::tags::tag_views(tags@), id as int).name,
{
    let ghost tv = crate::tags::tag_views(tags@);
    let mut i: usize = 0;
    while i < tags.len()
        invariant
            tv == crate::tags::tag_views(tags@),
            i <= tags@.len(),
            forall|a: int, b: int| 0 <= a < b < tv.len() ==> tv[a].id < tv[b].id,
            has_tag_id(tv, id as int),
            forall|j: int| 0 <= j < i ==> tv[j].id != id as int,
        decreases tags@.len() - i,
    {
        if tags[i].id == id {
            proof {
                let w = choose|j: int| 0 <= j < tv.len() && tv[j].id == id as int;
                if w < i as int {
                    assert(tv[w].id != id as int);
                } else if w > i as int {
                    assert(tv[i as int].id < tv[w].id);
                }
                assert(tag_with_id(tv, id as int) == tv[i as int]);
            }
            return tags[i].name.clone();
        }
        i = i + 1;
    }
    proof {
        let w = choose|j: int| 0 <= j < tv.len() && tv[j].id == id as int;
        assert(tv[w].id != id as int);
        assert(false);
    }
    vstd::pervasive::unreached()
}

/// Collects the tag names associated with a post, in association insertion
/// order.  A post with no associations gets an empty list.
pub fn tags_of_post(store: &Store, post_id: i32) -> (r: Vec<String>)
    requires
        store@.wf(),
    ensures
        str_views(r@) == tag_names_for(store@.post_tags, store@.tags, post_id as int),
{
    let mut out: Vec<String> = Vec::new();
    let mut i: usize = 0;
    let ghost ptv = store@.post_tags;
    while i < store.post_tags.len()
        invariant
            store@.wf(),
            ptv == store@.post_tags,
            i <= store.post_tags@.len(),
            str_views(out@) == tag_names_for(ptv.take(i as int), store@.tags, post_id as int),
        decreases store.post_tags@.len() - i,
    {
        let ghost out_pre = str_views(out@);
        let pt = store.post_tags[i];
        proof {
            assert(ptv.take(i as int + 1).drop_last() =~= ptv.take(i as int));
            assert(ptv.take(i as int + 1).last() == ptv[i as int]);
            assert(ptv[i as int] == store.post_tags@[i as int]@);
            assert(has_post(store@.posts, ptv[i as int].post_id));
            assert(has_tag_id(store@.tags, ptv[i as int].tag_id));
        }
        if pt.post_id == post_id {
            let name = find_tag_name(&store.tags, pt.tag_id);
            out.push(name);
            proof {
                assert(crate::tags::tag_views(store.tags@) =~= store@.tags);
                assert(str_views(out@) =~= out_pre.push(
                    tag_with_id(store@.tags, ptv[i as int].tag_id).name,
                ));
            }
        }
        i = i + 1;
    }
    proof {
        assert(ptv.take(ptv.len() as int) =~= ptv);
    }
    out
}

} // verus!
