//! The tag registry: ensures a set of tag names exists exactly once each
//! and resolves names to identifiers.
//!
//! Input names may repeat or already exist; both are absorbed.  Each name
//! is upserted by one row-level write (insert-if-absent), and the whole
//! input set is then resolved by one batch lookup over the tag table.

use vstd::prelude::*;
use crate::models::{NewTag, Tag, TagV, str_views};
use crate::store::{
    Conn, Failure, StoreV, has_tag_id, has_tag_name, has_post, spec_consume, spec_writes_ok,
    tag_with_id, tag_with_name,
};

verus! {

/// Ghost image of a tag table.
pub open spec fn tag_views(v: Seq<Tag>) -> Seq<TagV> {
    v.map(|i: int, t: Tag| t@)
}

/// Effect of upserting one tag name: a new row with the next identifier
/// when the name is absent, no change when it is already present.
pub open spec fn ensure_one_effect(s: StoreV, name: Seq<char>) -> StoreV {
    if has_tag_name(s.tags, name) {
        s
    } else {
        StoreV {
            tags: s.tags.push(TagV { id: s.next_tag_id, name: name }),
            next_tag_id: s.next_tag_id + 1,
            ..s
        }
    }
}

/// Effect of upserting each name of a batch, in input order.
pub open spec fn ensure_tags_effect(s: StoreV, names: Seq<Seq<char>>) -> StoreV
    decreases names.len(),
{
    if names.len() == 0 {
        s
    } else {
        ensure_one_effect(ensure_tags_effect(s, names.drop_last()), names.last())
    }
}

/// The batch lookup: the tags whose name lies in the input set, in tag
/// table order.
pub open spec fn resolved_tags(tags: Seq<TagV>, names: Seq<Seq<char>>) -> Seq<TagV>
    decreases tags.len(),
{
    if tags.len() == 0 {
        Seq::empty()
    } else {
        let rest = resolved_tags(tags.drop_last(), names);
        if names.contains(tags.last().name) {
            rest.push(tags.last())
        } else {
            rest
        }
    }
}

/// The identifiers of a list of tags, in list order.
pub open spec fn tag_ids_of(tags: Seq<TagV>) -> Seq<int> {
    tags.map(|i: int, t: TagV| t.id)
}

/// The names of a list of tags, in list order.
pub open spec fn tag_names_of(tags: Seq<TagV>) -> Seq<Seq<char>> {
    tags.map(|i: int, t: TagV| t.name)
}

/// What the batch lookup returns: rows of the table whose names lie in the
/// input set — every returned row is a stored row with a requested name,
/// identifiers stay in ascending table order, and every stored row with a
/// requested name is returned.
pub proof fn lemma_resolved_props(tags: Seq<TagV>, names: Seq<Seq<char>>)
    requires
        forall|a: int, b: int| 0 <= a < b < tags.len() ==> tags[a].id < tags[b].id,
    ensures
        ({
            let r = resolved_tags(tags, names);
            &&& forall|k: int|
                0 <= k < r.len() ==> tags.contains(#[trigger] r[k]) && names.contains(r[k].name)
            &&& forall|a: int, b: int| 0 <= a < b < r.len() ==> r[a].id < r[b].id
            &&& forall|i: int|
                0 <= i < tags.len() && names.contains(#[trigger] tags[i].name) ==> r.contains(
                    tags[i],
                )
        }),
    decreases tags.len(),
{
    if tags.len() > 0 {
        let prev = tags.drop_last();
        lemma_resolved_props(prev, names);
        let rest = resolved_tags(prev, names);
        let r = resolved_tags(tags, names);
        assert forall|k: int| 0 <= k < rest.len() implies tags.contains(#[trigger] rest[k]) by {
            let j = choose|j: int| 0 <= j < prev.len() && prev[j] == rest[k];
            assert(tags[j] == rest[k]);
        }
        if names.contains(tags.last().name) {
            assert(r == rest.push(tags.last()));
            assert(r[r.len() - 1] == tags.last());
            assert(tags.contains(tags.last()));
            assert forall|a: int, b: int| 0 <= a < b < r.len() implies r[a].id < r[b].id by {
                if b < r.len() - 1 {
                    assert(rest[a].id < rest[b].id);
                } else {
                    let j = choose|j: int| 0 <= j < prev.len() && prev[j] == rest[a];
                    assert(tags[j].id < tags.last().id);
                }
            }
        }
        assert forall|i: int|
            0 <= i < tags.len() && names.contains(#[trigger] tags[i].name) implies r.contains(
            tags[i],
        ) by {
            if i < tags.len() - 1 {
                assert(prev[i] == tags[i]);
                assert(rest.contains(tags[i]));
                let k = choose|k: int| 0 <= k < rest.len() && rest[k] == tags[i];
                assert(r[k] == tags[i]);
            } else {
                assert(r[r.len() - 1] == tags.last());
            }
        }
    }
}

/// With identifiers in ascending order, a stored row is the unique row
/// carrying its identifier.
pub proof fn lemma_tag_with_id_of_member(tags: Seq<TagV>, t: TagV)
    requires
        forall|a: int, b: int| 0 <= a < b < tags.len() ==> tags[a].id < tags[b].id,
        tags.contains(t),
    ensures
        has_tag_id(tags, t.id),
        tag_with_id(tags, t.id) == t,
{
    let i = choose|i: int| 0 <= i < tags.len() && tags[i] == t;
    assert(tags[i].id == t.id);
    let j = choose|j: int| 0 <= j < tags.len() && tags[j].id == t.id;
    if i < j {
        assert(tags[i].id < tags[j].id);
    } else if j < i {
        assert(tags[j].id < tags[i].id);
    }
}

/// The batch lookup returns exactly the requested names: once every
/// requested name is present in the table, a name occurs among the
/// resolved rows' names exactly when it was requested.
pub proof fn lemma_resolved_names_complete(tags: Seq<TagV>, names: Seq<Seq<char>>)
    requires
        forall|a: int, b: int| 0 <= a < b < tags.len() ==> tags[a].id < tags[b].id,
        forall|n: Seq<char>| names.contains(n) ==> #[trigger] has_tag_name(tags, n),
    ensures
        forall|n: Seq<char>|
            #[trigger] tag_names_of(resolved_tags(tags, names)).contains(n) <==> names.contains(
                n,
            ),
{
    lemma_resolved_props(tags, names);
    let r = resolved_tags(tags, names);
    let rn = tag_names_of(r);
    assert forall|n: Seq<char>| #[trigger] rn.contains(n) implies names.contains(n) by {
        let k = choose|k: int| 0 <= k < rn.len() && rn[k] == n;
        assert(names.contains(r[k].name));
    }
    assert forall|n: Seq<char>| names.contains(n) implies #[trigger] rn.contains(n) by {
        assert(has_tag_name(tags, n));
        let i = choose|i: int| 0 <= i < tags.len() && tags[i].name == n;
        assert(r.contains(tags[i]));
        let k = choose|k: int| 0 <= k < r.len() && r[k] == tags[i];
        assert(rn[k] == n);
    }
}

/// A tag name present in a prefix-stable extension of a table is still
/// present.
pub proof fn lemma_has_tag_name_prefix(tags1: Seq<TagV>, tags2: Seq<TagV>, n: Seq<char>)
    requires
        tags1.len() <= tags2.len(),
        forall|i: int| 0 <= i < tags1.len() ==> tags2[i] == tags1[i],
        has_tag_name(tags1, n),
    ensures
        has_tag_name(tags2, n),
{
    let i = choose|i: int| 0 <= i < tags1.len() && tags1[i].name == n;
    assert(tags2[i].name == n);
}

/// With unique names, a prefix-stable extension of a table resolves a
/// name already present to the same tag row.
pub proof fn lemma_tag_with_name_stable(tags1: Seq<TagV>, tags2: Seq<TagV>, n: Seq<char>)
    requires
        tags1.len() <= tags2.len(),
        forall|i: int| 0 <= i < tags1.len() ==> tags2[i] == tags1[i],
        forall|i: int, j: int| 0 <= i < j < tags2.len() ==> tags2[i].name != tags2[j].name,
        has_tag_name(tags1, n),
    ensures
        has_tag_name(tags2, n),
        tag_with_name(tags2, n) == tag_with_name(tags1, n),
{
    lemma_has_tag_name_prefix(tags1, tags2, n);
    let j1 = choose|i: int| 0 <= i < tags1.len() && tags1[i].name == n;
    let j2 = choose|i: int| 0 <= i < tags2.len() && tags2[i].name == n;
    assert(tags2[j1] == tags1[j1]);
    if j1 != j2 {
        assert(tags2[j1].name == tags2[j2].name);
        assert(false);
    }
}

/// Upserting one name preserves the store invariant, leaves every other
/// table untouched, extends the tag table prefix-stably, and makes the
/// name present.
pub proof fn lemma_ensure_one_wf(s: StoreV, name: Seq<char>)
    requires
        s.wf(),
    ensures
        ({
            let r = ensure_one_effect(s, name);
            &&& r.wf()
            &&& has_tag_name(r.tags, name)
            &&& r.users == s.users
            &&& r.posts == s.posts
            &&& r.post_tags == s.post_tags
            &&& r.next_user_id == s.next_user_id
            &&& r.next_post_id == s.next_post_id
            &&& s.next_tag_id <= r.next_tag_id <= s.next_tag_id + 1
            &&& s.tags.len() <= r.tags.len()
            &&& forall|i: int| 0 <= i < s.tags.len() ==> r.tags[i] == s.tags[i]
        }),
{
    let r = ensure_one_effect(s, name);
    if !has_tag_name(s.tags, name) {
        assert forall|i: int| 0 <= i < s.tags.len() implies s.tags[i].name != name by {
            if s.tags[i].name == name {
                assert(has_tag_name(s.tags, name));
            }
        }
        assert forall|i: int| 0 <= i < r.post_tags.len() implies has_post(
            r.posts,
            #[trigger] r.post_tags[i].post_id,
        ) && has_tag_id(r.tags, r.post_tags[i].tag_id) by {
            assert(has_post(s.posts, s.post_tags[i].post_id));
            assert(has_tag_id(s.tags, s.post_tags[i].tag_id));
            let w = choose|j: int|
                0 <= j < s.tags.len() && s.tags[j].id == s.post_tags[i].tag_id;
            assert(r.tags[w].id == r.post_tags[i].tag_id);
        }
        assert(r.tags[s.tags.len() as int].name == name);
    }
}

/// Upserting a batch of names preserves the store invariant, leaves every
/// other table untouched, and extends the tag table prefix-stably.
pub proof fn lemma_ensure_tags_wf(s: StoreV, names: Seq<Seq<char>>)
    requires
        s.wf(),
    ensures
        ({
            let r = ensure_tags_effect(s, names);
            &&& r.wf()
            &&& r.users == s.users
            &&& r.posts == s.posts
            &&& r.post_tags == s.post_tags
            &&& r.next_user_id == s.next_user_id
            &&& r.next_post_id == s.next_post_id
            &&& s.next_tag_id <= r.next_tag_id <= s.next_tag_id + names.len()
            &&& s.tags.len() <= r.tags.len()
            &&& forall|i: int| 0 <= i < s.tags.len() ==> r.tags[i] == s.tags[i]
        }),
    decreases names.len(),
{
    if names.len() > 0 {
        lemma_ensure_tags_wf(s, names.drop_last());
        let mid = ensure_tags_effect(s, names.drop_last());
        lemma_ensure_one_wf(mid, names.last());
    }
}

/// Every name of the batch is present after the batch is upserted.
pub proof fn lemma_ensure_tags_contains(s: StoreV, names: Seq<Seq<char>>, n: Seq<char>)
    requires
        names.contains(n),
    ensures
        has_tag_name(ensure_tags_effect(s, names).tags, n),
    decreases names.len(),
{
    let mid = ensure_tags_effect(s, names.drop_last());
    let r = ensure_one_effect(mid, names.last());
    if names.last() == n {
        if has_tag_name(mid.tags, n) {
        } else {
            assert(r.tags[mid.tags.len() as int].name == n);
        }
    } else {
        let i = choose|i: int| 0 <= i < names.len() && names[i] == n;
        assert(names.drop_last()[i] == n);
        lemma_ensure_tags_contains(s, names.drop_last(), n);
        if !has_tag_name(mid.tags, names.last()) {
            lemma_has_tag_name_prefix(mid.tags, r.tags, n);
        }
    }
}

/// Ensuring tags is idempotent: once a batch containing a name has been
/// ensured, any later batch — overlapping or not — resolves that name to
/// the same tag row, and tag names stay unique throughout, so no second
/// row with the same name is ever created.
pub proof fn lemma_ensure_tags_idempotent(
    s: StoreV,
    names1: Seq<Seq<char>>,
    names2: Seq<Seq<char>>,
    n: Seq<char>,
)
    requires
        s.wf(),
        names1.contains(n),
    ensures
        ({
            let s1 = ensure_tags_effect(s, names1);
            let s2 = ensure_tags_effect(s1, names2);
            &&& s1.wf()
            &&& s2.wf()
            &&& has_tag_name(s1.tags, n)
            &&& has_tag_name(s2.tags, n)
            &&& tag_with_name(s2.tags, n) == tag_with_name(s1.tags, n)
        }),
{
    lemma_ensure_tags_wf(s, names1);
    let s1 = ensure_tags_effect(s, names1);
    lemma_ensure_tags_wf(s1, names2);
    let s2 = ensure_tags_effect(s1, names2);
    lemma_ensure_tags_contains(s, names1, n);
    lemma_tag_with_name_stable(s1.tags, s2.tags, n);
}

/// Decides whether some stored tag carries this name.
fn tag_name_present(tags: &Vec<Tag>, name: &String) -> (b: bool)
    ensures
        b == has_tag_name(tag_views(tags@), name@),
{
    let mut i: usize = 0;
    while i < tags.len()
        invariant
            i <= tags@.len(),
            forall|j: int| 0 <= j < i ==> tag_views(tags@)[j].name != name@,
        decreases tags@.len() - i,
    {
        if tags[i].name == *name {
            assert(tag_views(tags@)[i as int].name == name@);
            return true;
        }
        i = i + 1;
    }
    false
}

/// Decides whether a name occurs in a list of names.
fn name_in_list(names: &Vec<String>, name: &String) -> (b: bool)
    ensures
        b == str_views(names@).contains(name@),
{
    let mut i: usize = 0;
    while i < names.len()
        invariant
            i <= names@.len(),
            forall|j: int| 0 <= j < i ==> str_views(names@)[j] != name@,
        decreases names@.len() - i,
    {
        if names[i] == *name {
            assert(str_views(names@)[i as int] == name@);
            return true;
        }
        i = i + 1;
    }
    false
}

/// Upserts one tag name: inserts a new row unless the name is present; a
/// uniqueness conflict with an existing row is absorbed, never surfaced.
/// Consumes one unit of the write budget; with the budget exhausted the
/// store is left untouched and a storage failure is surfaced.
pub fn ensure_tag(conn: &mut Conn, new_tag: NewTag) -> (r: Result<(), Failure>)
    requires
        old(conn).store@.wf(),
        old(conn).store@.next_tag_id < i32::MAX,
    ensures
        final(conn).store@.wf(),
        r is Ok <==> spec_writes_ok(old(conn).writes_left, 1),
        r is Ok ==> final(conn).store@ == ensure_one_effect(old(conn).store@, new_tag.name@),
        r is Ok ==> final(conn).writes_left == spec_consume(old(conn).writes_left, 1),
        r is Err ==> *final(conn) == *old(conn) && r->Err_0 == Failure::Storage,
{
    if !conn.take_write() {
        return Err(Failure::Storage);
    }
    let ghost nm = new_tag.name@;
    let ghost pre = conn.store@;
    proof {
        lemma_ensure_one_wf(pre, nm);
    }
    if !tag_name_present(&conn.store.tags, &new_tag.name) {
        let id = conn.store.next_tag_id;
        conn.store.tags.push(Tag { id, name: new_tag.name });
        conn.store.next_tag_id = id + 1;
        proof {
            assert(conn.store@.tags =~= pre.tags.push(TagV { id: id as int, name: nm }));
            assert(conn.store@.users =~= pre.users);
            assert(conn.store@.posts =~= pre.posts);
            assert(conn.store@.post_tags =~= pre.post_tags);
            assert(conn.store@ =~= ensure_one_effect(pre, nm));
        }
    } else {
        proof {
            assert(conn.store@ =~= ensure_one_effect(pre, nm));
        }
    }
    Ok(())
}

/// Ensures each name of the batch exists exactly once, then resolves the
/// whole input set by one batch lookup, returning the matching tag rows in
/// tag table order.
///
/// Duplicate input names and already-existing names are absorbed.  Each
/// name consumes one unit of the write budget whether or not a row is
/// inserted; when the budget runs out mid-batch the names already
/// processed stay applied (the enclosing transaction, not this call, rolls
/// back) and a storage failure is surfaced.
pub fn ensure_tags(conn: &mut Conn, names: &Vec<String>) -> (r: Result<Vec<Tag>, Failure>)
    requires
        old(conn).store@.wf(),
        old(conn).store@.next_tag_id + names@.len() <= i32::MAX,
    ensures
        final(conn).store@.wf(),
        r is Ok <==> spec_writes_ok(old(conn).writes_left, names@.len() as nat),
        r is Ok ==> {
            &&& final(conn).store@ == ensure_tags_effect(old(conn).store@, str_views(names@))
            &&& final(conn).writes_left == spec_consume(
                old(conn).writes_left,
                names@.len() as nat,
            )
            &&& tag_views(r->Ok_0@) == resolved_tags(final(conn).store@.tags, str_views(names@))
        },
        r is Err ==> {
            &&& r->Err_0 == Failure::Storage
            &&& final(conn).writes_left == Some(0u64)
            &&& (old(conn).writes_left matches Some(w) ==> final(conn).store@
                == ensure_tags_effect(old(conn).store@, str_views(names@).take(w as int)))
        },
{
    let ghost s0 = old(conn).store@;
    let ghost views = str_views(names@);
    let mut k: usize = 0;
    while k < names.len()
        invariant
            conn.store@.wf(),
            k <= names@.len(),
            s0 == old(conn).store@,
            s0.next_tag_id + views.len() <= i32::MAX,
            views == str_views(names@),
            views.len() == names@.len(),
            conn.store@ == ensure_tags_effect(s0, views.take(k as int)),
            conn.store@.next_tag_id <= s0.next_tag_id + k,
            spec_writes_ok(old(conn).writes_left, k as nat),
            conn.writes_left == spec_consume(old(conn).writes_left, k as nat),
        decreases names@.len() - k,
    {
        let tag_name = names[k].clone();
        let ghost pre = conn.store@;
        match ensure_tag(conn, NewTag { name: tag_name }) {
            Ok(()) => {
                proof {
                    assert(views.take(k as int + 1).drop_last() =~= views.take(k as int));
                    assert(views.take(k as int + 1).last() == views[k as int]);
                    assert(conn.store@ == ensure_tags_effect(s0, views.take(k as int + 1)));
                }
            },
            Err(e) => {
                proof {
                    match old(conn).writes_left {
                        None => {
                            assert(spec_writes_ok(conn.writes_left, 1));
                            assert(false);
                        },
                        Some(w) => {
                            assert(conn.writes_left == Some((w - k) as u64));
                            assert((w - k) as u64 == 0);
                            assert(w == k);
                            assert(views.take(w as int) == views.take(k as int));
                        },
                    }
                }
                return Err(e);
            },
        }
        k = k + 1;
    }
    proof {
        assert(views.take(views.len() as int) =~= views);
    }
    // Batch lookup: resolve the whole input set against the tag table.
    let mut out: Vec<Tag> = Vec::new();
    let mut i: usize = 0;
    let ghost csnap = *conn;
    let ghost all_tags = conn.store@.tags;
    while i < conn.store.tags.len()
        invariant
            i <= conn.store.tags@.len(),
            *conn == csnap,
            conn.store@.tags == all_tags,
            tag_views(out@) == resolved_tags(all_tags.take(i as int), str_views(names@)),
        decreases conn.store.tags@.len() - i,
    {
        let ghost pre_out = tag_views(out@);
        if name_in_list(names, &conn.store.tags[i].name) {
            out.push(conn.store.tags[i].clone());
        }
        proof {
            let nv = str_views(names@);
            let step = all_tags.take(i as int + 1);
            assert(step.drop_last() =~= all_tags.take(i as int));
            assert(step.last() == all_tags[i as int]);
            assert(resolved_tags(step, nv) == if nv.contains(all_tags[i as int].name) {
                resolved_tags(all_tags.take(i as int), nv).push(all_tags[i as int])
            } else {
                resolved_tags(all_tags.take(i as int), nv)
            });
            if nv.contains(all_tags[i as int].name) {
                assert(tag_views(out@) =~= pre_out.push(all_tags[i as int]));
            } else {
                assert(tag_views(out@) =~= pre_out);
            }
        }
        i = i + 1;
    }
    proof {
        assert(all_tags.take(all_tags.len() as int) =~= all_tags);
    }
    Ok(out)
}

} // verus!
