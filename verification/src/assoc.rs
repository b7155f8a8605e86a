//! The association manager: links a post to a set of tags, enforcing pair
//! uniqueness.
//!
//! Inserting an already-present pair is a no-op, not an error, so linking
//! is idempotent.  Each pair consumes one row-level write; a mid-batch
//! budget failure leaves the earlier pairs applied — rolling back is the
//! enclosing transaction's task.

use vstd::prelude::*;
use crate::models::{PostTag, PostTagV};
use crate::store::{
    Conn, Failure, StoreV, has_pair, has_post, has_tag_id, spec_consume, spec_writes_ok,
};

verus! {

/// Ghost image of an association table.
pub open spec fn pair_views(v: Seq<PostTag>) -> Seq<PostTagV> {
    v.map(|i: int, pt: PostTag| pt@)
}

/// Ghost image of a list of identifiers.
pub open spec fn ids_view(v: Seq<i32>) -> Seq<int> {
    v.map(|i: int, x: i32| x as int)
}

/// Effect of linking one pair: a new association row when the pair is
/// absent, no change when it is already present.
pub open spec fn link_one_effect(s: StoreV, post_id: int, tag_id: int) -> StoreV {
    if has_pair(s.post_tags, post_id, tag_id) {
        s
    } else {
        StoreV { post_tags: s.post_tags.push(PostTagV { post_id, tag_id }), ..s }
    }
}

/// Effect of linking the post to each tag of a batch, in input order.
pub open spec fn link_effect(s: StoreV, post_id: int, tag_ids: Seq<int>) -> StoreV
    decreases tag_ids.len(),
{
    if tag_ids.len() == 0 {
        s
    } else {
        link_one_effect(link_effect(s, post_id, tag_ids.drop_last()), post_id, tag_ids.last())
    }
}

/// A pair present in a prefix-stable extension of an association table is
/// still present.
pub proof fn lemma_has_pair_prefix(pt1: Seq<PostTagV>, pt2: Seq<PostTagV>, p: int, t: int)
    requires
        pt1.len() <= pt2.len(),
        forall|i: int| 0 <= i < pt1.len() ==> pt2[i] == pt1[i],
        has_pair(pt1, p, t),
    ensures
        has_pair(pt2, p, t),
{
    let i = choose|i: int| 0 <= i < pt1.len() && pt1[i].post_id == p && pt1[i].tag_id == t;
    assert(pt2[i].post_id == p);
    assert(pt2[i].tag_id == t);
}

/// Linking one pair preserves the store invariant, leaves every other
/// table untouched, extends the association table prefix-stably, and makes
/// the pair present.
pub proof fn lemma_link_one_wf(s: StoreV, p: int, t: int)
    requires
        s.wf(),
        has_post(s.posts, p),
        has_tag_id(s.tags, t),
    ensures
        ({
            let r = link_one_effect(s, p, t);
            &&& r.wf()
            &&& has_pair(r.post_tags, p, t)
            &&& r.users == s.users
            &&& r.posts == s.posts
            &&& r.tags == s.tags
            &&& r.next_user_id == s.next_user_id
            &&& r.next_post_id == s.next_post_id
            &&& r.next_tag_id == s.next_tag_id
            &&& s.post_tags.len() <= r.post_tags.len()
            &&& forall|i: int| 0 <= i < s.post_tags.len() ==> r.post_tags[i] == s.post_tags[i]
        }),
{
    let r = link_one_effect(s, p, t);
    if !has_pair(s.post_tags, p, t) {
        assert forall|i: int| 0 <= i < s.post_tags.len() implies !(s.post_tags[i].post_id == p
            && s.post_tags[i].tag_id == t) by {
            if s.post_tags[i].post_id == p && s.post_tags[i].tag_id == t {
                assert(has_pair(s.post_tags, p, t));
            }
        }
        assert(r.post_tags[s.post_tags.len() as int].post_id == p);
        assert forall|i: int| 0 <= i < r.post_tags.len() implies has_post(
            r.posts,
            #[trigger] r.post_tags[i].post_id,
        ) && has_tag_id(r.tags, r.post_tags[i].tag_id) by {
            if i < s.post_tags.len() {
                assert(has_post(s.posts, s.post_tags[i].post_id));
                assert(has_tag_id(s.tags, s.post_tags[i].tag_id));
            }
        }
    }
}

/// Linking a batch preserves the store invariant, leaves every other table
/// untouched, and extends the association table prefix-stably.
pub proof fn lemma_link_wf(s: StoreV, p: int, tag_ids: Seq<int>)
    requires
        s.wf(),
        has_post(s.posts, p),
        forall|i: int| 0 <= i < tag_ids.len() ==> has_tag_id(s.tags, #[trigger] tag_ids[i]),
    ensures
        ({
            let r = link_effect(s, p, tag_ids);
            &&& r.wf()
            &&& r.users == s.users
            &&& r.posts == s.posts
            &&& r.tags == s.tags
            &&& r.next_user_id == s.next_user_id
            &&& r.next_post_id == s.next_post_id
            &&& r.next_tag_id == s.next_tag_id
            &&& s.post_tags.len() <= r.post_tags.len()
            &&& forall|i: int| 0 <= i < s.post_tags.len() ==> r.post_tags[i] == s.post_tags[i]
        }),
    decreases tag_ids.len(),
{
    if tag_ids.len() > 0 {
        lemma_link_wf(s, p, tag_ids.drop_last());
        let mid = link_effect(s, p, tag_ids.drop_last());
        assert(has_tag_id(s.tags, tag_ids.last()));
        lemma_link_one_wf(mid, p, tag_ids.last());
    }
}

/// Linking only appends association rows: every other field is untouched,
/// existing rows keep their place, and every appended row links the given
/// post to one of the given tags.
pub proof fn lemma_link_frame(s: StoreV, p: int, tag_ids: Seq<int>)
    ensures
        ({
            let r = link_effect(s, p, tag_ids);
            &&& r.users == s.users
            &&& r.posts == s.posts
            &&& r.tags == s.tags
            &&& r.next_user_id == s.next_user_id
            &&& r.next_post_id == s.next_post_id
            &&& r.next_tag_id == s.next_tag_id
            &&& s.post_tags.len() <= r.post_tags.len()
            &&& forall|i: int| 0 <= i < s.post_tags.len() ==> r.post_tags[i] == s.post_tags[i]
            &&& forall|i: int|
                s.post_tags.len() <= i < r.post_tags.len() ==> (#[trigger] r.post_tags[i]).post_id
                    == p && tag_ids.contains(r.post_tags[i].tag_id)
        }),
    decreases tag_ids.len(),
{
    if tag_ids.len() > 0 {
        lemma_link_frame(s, p, tag_ids.drop_last());
        let mid = link_effect(s, p, tag_ids.drop_last());
        let r = link_one_effect(mid, p, tag_ids.last());
        assert(tag_ids[tag_ids.len() - 1] == tag_ids.last());
        assert forall|i: int|
            s.post_tags.len() <= i < r.post_tags.len() implies (#[trigger] r.post_tags[i]).post_id
            == p && tag_ids.contains(r.post_tags[i].tag_id) by {
            if i < mid.post_tags.len() {
                assert(mid.post_tags[i].post_id == p);
                let j = choose|j: int|
                    0 <= j < tag_ids.drop_last().len() && tag_ids.drop_last()[j]
                        == mid.post_tags[i].tag_id;
                assert(tag_ids[j] == mid.post_tags[i].tag_id);
            }
        }
    }
}

/// Every pair of the batch is present after the batch is linked.
pub proof fn lemma_link_contains(s: StoreV, p: int, tag_ids: Seq<int>, t: int)
    requires
        tag_ids.contains(t),
    ensures
        has_pair(link_effect(s, p, tag_ids).post_tags, p, t),
    decreases tag_ids.len(),
{
    let mid = link_effect(s, p, tag_ids.drop_last());
    let r = link_one_effect(mid, p, tag_ids.last());
    if tag_ids.last() == t {
        if has_pair(mid.post_tags, p, t) {
        } else {
            assert(r.post_tags[mid.post_tags.len() as int].post_id == p);
        }
    } else {
        let i = choose|i: int| 0 <= i < tag_ids.len() && tag_ids[i] == t;
        assert(tag_ids.drop_last()[i] == t);
        lemma_link_contains(s, p, tag_ids.drop_last(), t);
        if !has_pair(mid.post_tags, p, tag_ids.last()) {
            lemma_has_pair_prefix(mid.post_tags, r.post_tags, p, t);
        }
    }
}

/// Linking a batch whose pairs are all already present changes nothing.
pub proof fn lemma_link_all_present_noop(s: StoreV, p: int, tag_ids: Seq<int>)
    requires
        forall|i: int| 0 <= i < tag_ids.len() ==> has_pair(s.post_tags, p, #[trigger] tag_ids[i]),
    ensures
        link_effect(s, p, tag_ids) == s,
    decreases tag_ids.len(),
{
    if tag_ids.len() > 0 {
        assert forall|i: int| 0 <= i < tag_ids.drop_last().len() implies has_pair(
            s.post_tags,
            p,
            #[trigger] tag_ids.drop_last()[i],
        ) by {
            assert(tag_ids.drop_last()[i] == tag_ids[i]);
        }
        lemma_link_all_present_noop(s, p, tag_ids.drop_last());
        assert(has_pair(s.post_tags, p, tag_ids.last()));
    }
}

/// Linking is idempotent: linking the same post to the same tags twice
/// leaves exactly the state of linking once, and pair uniqueness is
/// preserved, so a pair linked twice still has exactly one association
/// row.
pub proof fn lemma_link_idempotent(s: StoreV, p: int, tag_ids: Seq<int>)
    requires
        s.wf(),
        has_post(s.posts, p),
        forall|i: int| 0 <= i < tag_ids.len() ==> has_tag_id(s.tags, #[trigger] tag_ids[i]),
    ensures
        ({
            let s1 = link_effect(s, p, tag_ids);
            &&& s1.wf()
            &&& link_effect(s1, p, tag_ids) == s1
        }),
{
    lemma_link_wf(s, p, tag_ids);
    let s1 = link_effect(s, p, tag_ids);
    assert forall|i: int| 0 <= i < tag_ids.len() implies has_pair(
        s1.post_tags,
        p,
        #[trigger] tag_ids[i],
    ) by {
        lemma_link_contains(s, p, tag_ids, tag_ids[i]);
    }
    lemma_link_all_present_noop(s1, p, tag_ids);
}

/// Decides whether an association row for this pair is stored.
fn pair_present(post_tags: &Vec<PostTag>, post_id: i32, tag_id: i32) -> (b: bool)
    ensures
        b == has_pair(pair_views(post_tags@), post_id as int, tag_id as int),
{
    let mut i: usize = 0;
    while i < post_tags.len()
        invariant
            i <= post_tags@.len(),
            forall|j: int|
                0 <= j < i ==> !(pair_views(post_tags@)[j].post_id == post_id as int
                    && pair_views(post_tags@)[j].tag_id == tag_id as int),
        decreases post_tags@.len() - i,
    {
        let pt = post_tags[i];
        if pt.post_id == post_id && pt.tag_id == tag_id {
            assert(pair_views(post_tags@)[i as int].post_id == post_id as int);
            return true;
        }
        i = i + 1;
    }
    false
}

/// Links one pair: inserts an association row unless the pair is already
/// present; a duplicate pair is absorbed, never surfaced.  Consumes one
/// unit of the write budget; with the budget exhausted the store is left
/// untouched and a storage failure is surfaced.
pub fn link_pair(conn: &mut Conn, post_id: i32, tag_id: i32) -> (r: Result<(), Failure>)
    requires
        old(conn).store@.wf(),
        has_post(old(conn).store@.posts, post_id as int),
        has_tag_id(old(conn).store@.tags, tag_id as int),
    ensures
        final(conn).store@.wf(),
        r is Ok <==> spec_writes_ok(old(conn).writes_left, 1),
        r is Ok ==> final(conn).store@ == link_one_effect(
            old(conn).store@,
            post_id as int,
            tag_id as int,
        ),
        r is Ok ==> final(conn).writes_left == spec_consume(old(conn).writes_left, 1),
        r is Err ==> *final(conn) == *old(conn) && r->Err_0 == Failure::Storage,
{
    if !conn.take_write() {
        return Err(Failure::Storage);
    }
    let ghost pre = conn.store@;
    proof {
        lemma_link_one_wf(pre, post_id as int, tag_id as int);
    }
    if !pair_present(&conn.store.post_tags, post_id, tag_id) {
        conn.store.post_tags.push(PostTag { post_id, tag_id });
        proof {
            assert(conn.store@.post_tags =~= pre.post_tags.push(
                PostTagV { post_id: post_id as int, tag_id: tag_id as int },
            ));
            assert(conn.store@.users =~= pre.users);
            assert(conn.store@.posts =~= pre.posts);
            assert(conn.store@.tags =~= pre.tags);
            assert(conn.store@ =~= link_one_effect(pre, post_id as int, tag_id as int));
        }
    } else {
        proof {
            assert(conn.store@ =~= link_one_effect(pre, post_id as int, tag_id as int));
        }
    }
    Ok(())
}

/// Links the post to each tag of the batch, skipping pairs already
/// present.  Each pair consumes one unit of the write budget whether or
/// not a row is inserted; when the budget runs out mid-batch the pairs
/// already processed stay applied (the enclosing transaction, not this
/// call, rolls back) and a storage failure is surfaced.
pub fn link(conn: &mut Conn, post_id: i32, tag_ids: &Vec<i32>) -> (r: Result<(), Failure>)
    requires
        old(conn).store@.wf(),
        has_post(old(conn).store@.posts, post_id as int),
        forall|i: int|
            0 <= i < tag_ids@.len() ==> has_tag_id(
                old(conn).store@.tags,
                #[trigger] tag_ids@[i] as int,
            ),
    ensures
        final(conn).store@.wf(),
        r is Ok <==> spec_writes_ok(old(conn).writes_left, tag_ids@.len() as nat),
        r is Ok ==> {
            &&& final(conn).store@ == link_effect(
                old(conn).store@,
                post_id as int,
                ids_view(tag_ids@),
            )
            &&& final(conn).writes_left == spec_consume(
                old(conn).writes_left,
                tag_ids@.len() as nat,
            )
        },
        r is Err ==> {
            &&& r->Err_0 == Failure::Storage
            &&& final(conn).writes_left == Some(0u64)
            &&& (old(conn).writes_left matches Some(w) ==> final(conn).store@ == link_effect(
                old(conn).store@,
                post_id as int,
                ids_view(tag_ids@).take(w as int),
            ))
        },
{
    let ghost s0 = old(conn).store@;
    let ghost ids = ids_view(tag_ids@);
    let mut k: usize = 0;
    while k < tag_ids.len()
        invariant
            conn.store@.wf(),
            k <= tag_ids@.len(),
            s0 == old(conn).store@,
            s0.wf(),
            has_post(s0.posts, post_id as int),
            forall|i: int|
                0 <= i < tag_ids@.len() ==> has_tag_id(s0.tags, #[trigger] tag_ids@[i] as int),
            ids == ids_view(tag_ids@),
            ids.len() == tag_ids@.len(),
            conn.store@ == link_effect(s0, post_id as int, ids.take(k as int)),
            conn.store@.posts == s0.posts,
            conn.store@.tags == s0.tags,
            spec_writes_ok(old(conn).writes_left, k as nat),
            conn.writes_left == spec_consume(old(conn).writes_left, k as nat),
        decreases tag_ids@.len() - k,
    {
        let tid = tag_ids[k];
        match link_pair(conn, post_id, tid) {
            Ok(()) => {
                proof {
                    assert(ids.take(k as int + 1).drop_last() =~= ids.take(k as int));
                    assert(ids.take(k as int + 1).last() == ids[k as int]);
                    assert(conn.store@ == link_effect(s0, post_id as int, ids.take(k as int + 1)));
                }
            },
            Err(e) => {
                proof {
                    match old(conn).writes_left {
                        None => {
                            assert(spec_writes_ok(conn.writes_left, 1));
                            assert(false);
                        },
                        Some(w) => {
                            assert(conn.writes_left == Some((w - k) as u64));
                            assert((w - k) as u64 == 0);
                            assert(w == k);
                            assert(ids.take(w as int) == ids.take(k as int));
                        },
                    }
                }
                return Err(e);
            },
        }
        k = k + 1;
    }
    proof {
        assert(ids.take(ids.len() as int) =~= ids);
    }
    Ok(())
}

} // verus!
