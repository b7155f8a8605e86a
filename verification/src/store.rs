//! The store model: every table as plain data, with the invariants the
//! schema enforces, and the connection handle through which writes reach
//! the store.
//!
//! The handle carries a write budget so that a connection that fails
//! mid-transaction can be modelled faithfully: each row-level write
//! statement consumes one unit, and a write attempted with an exhausted
//! budget surfaces a storage failure.  Composed operations state exactly
//! which state the store is left in for every outcome.

use vstd::prelude::*;
use crate::models::{Post, PostTag, PostTagV, PostV, Tag, TagV, User, UserV};

verus! {

/// The failure kinds surfaced to callers.  Duplicate tag names and
/// duplicate associations are expected conflicts and are absorbed, never
/// surfaced.
#[derive(Clone, Copy, Debug, PartialEq, Eq, Structural)]
pub enum Failure {
    /// Caller-supplied data was malformed and was rejected before reaching
    /// storage.
    Validation,
    /// The underlying connection or a non-benign constraint failed; inside
    /// a composed operation this aborts the whole transaction.
    Storage,
}

/// The stored tables together with the identifier counters the store
/// assigns from.
#[derive(Debug)]
pub struct Store {
    pub users: Vec<User>,
    pub posts: Vec<Post>,
    pub tags: Vec<Tag>,
    pub post_tags: Vec<PostTag>,
    pub next_user_id: i32,
    pub next_post_id: i32,
    pub next_tag_id: i32,
}

/// Ghost image of the whole store.
#[verifier::ext_equal]
pub ghost struct StoreV {
    pub users: Seq<UserV>,
    pub posts: Seq<PostV>,
    pub tags: Seq<TagV>,
    pub post_tags: Seq<PostTagV>,
    pub next_user_id: int,
    pub next_post_id: int,
    pub next_tag_id: int,
}

impl View for Store {
    type V = StoreV;

    open spec fn view(&self) -> StoreV {
        StoreV {
            users: self.users@.map(|i: int, u: User| u@),
            posts: self.posts@.map(|i: int, p: Post| p@),
            tags: self.tags@.map(|i: int, t: Tag| t@),
            post_tags: self.post_tags@.map(|i: int, pt: PostTag| pt@),
            next_user_id: self.next_user_id as int,
            next_post_id: self.next_post_id as int,
            next_tag_id: self.next_tag_id as int,
        }
    }
}

/// Some user carries this username.
pub open spec fn has_username(users: Seq<UserV>, username: Seq<char>) -> bool {
    exists|i: int| 0 <= i < users.len() && users[i].username == username
}

/// Some post carries this identifier.
pub open spec fn has_post(posts: Seq<PostV>, id: int) -> bool {
    exists|i: int| 0 <= i < posts.len() && posts[i].id == id
}

/// Some tag carries this name.
pub open spec fn has_tag_name(tags: Seq<TagV>, name: Seq<char>) -> bool {
    exists|i: int| 0 <= i < tags.len() && tags[i].name == name
}

/// The tag carrying this name; meaningful only where `has_tag_name` holds
/// and names are unique.
pub open spec fn tag_with_name(tags: Seq<TagV>, name: Seq<char>) -> TagV {
    tags[choose|i: int| 0 <= i < tags.len() && tags[i].name == name]
}

/// Some tag carries this identifier.
pub open spec fn has_tag_id(tags: Seq<TagV>, id: int) -> bool {
    exists|i: int| 0 <= i < tags.len() && tags[i].id == id
}

/// The tag carrying this identifier; meaningful only where `has_tag_id`
/// holds and identifiers are unique.
pub open spec fn tag_with_id(tags: Seq<TagV>, id: int) -> TagV {
    tags[choose|i: int| 0 <= i < tags.len() && tags[i].id == id]
}

/// Some association row links this post to this tag.
pub open spec fn has_pair(post_tags: Seq<PostTagV>, post_id: int, tag_id: int) -> bool {
    exists|i: int|
        0 <= i < post_tags.len() && post_tags[i].post_id == post_id && post_tags[i].tag_id
            == tag_id
}

impl StoreV {
    /// User rows are stored in ascending identifier order, identifiers are
    /// below the counter, and usernames are unique.
    pub open spec fn users_wf(self) -> bool {
        &&& forall|i: int, j: int|
            0 <= i < j < self.users.len() ==> self.users[i].id < self.users[j].id
        &&& forall|i: int|
            0 <= i < self.users.len() ==> 1 <= #[trigger] self.users[i].id < self.next_user_id
        &&& forall|i: int, j: int|
            0 <= i < j < self.users.len() ==> self.users[i].username != self.users[j].username
    }

    /// Post rows are stored in ascending identifier order and identifiers
    /// are below the counter.
    pub open spec fn posts_wf(self) -> bool {
        &&& forall|i: int, j: int|
            0 <= i < j < self.posts.len() ==> self.posts[i].id < self.posts[j].id
        &&& forall|i: int|
            0 <= i < self.posts.len() ==> 1 <= #[trigger] self.posts[i].id < self.next_post_id
    }

    /// Tag rows are stored in ascending identifier order, identifiers are
    /// below the counter, and names are globally unique.
    pub open spec fn tags_wf(self) -> bool {
        &&& forall|i: int, j: int| 0 <= i < j < self.tags.len() ==> self.tags[i].id < self.tags[j].id
        &&& forall|i: int|
            0 <= i < self.tags.len() ==> 1 <= #[trigger] self.tags[i].id < self.next_tag_id
        &&& forall|i: int, j: int|
            0 <= i < j < self.tags.len() ==> self.tags[i].name != self.tags[j].name
    }

    /// Association pairs are unique and reference existing posts and tags.
    pub open spec fn assoc_wf(self) -> bool {
        &&& forall|i: int, j: int|
            0 <= i < j < self.post_tags.len() ==> !(self.post_tags[i].post_id
                == self.post_tags[j].post_id && self.post_tags[i].tag_id
                == self.post_tags[j].tag_id)
        &&& forall|i: int|
            0 <= i < self.post_tags.len() ==> has_post(
                self.posts,
                #[trigger] self.post_tags[i].post_id,
            ) && has_tag_id(self.tags, self.post_tags[i].tag_id)
    }

    /// The store's full invariant: every constructor establishes it and
    /// every operation preserves it.
    pub open spec fn wf(self) -> bool {
        &&& self.users_wf()
        &&& self.posts_wf()
        &&& self.tags_wf()
        &&& self.assoc_wf()
        &&& 1 <= self.next_user_id
        &&& 1 <= self.next_post_id
        &&& 1 <= self.next_tag_id
    }
}

impl Store {
    /// An empty store with all identifier counters at one.
    pub fn new() -> (s: Store)
        ensures
            s@.wf(),
            s@.users =~= Seq::<UserV>::empty(),
            s@.posts =~= Seq::<PostV>::empty(),
            s@.tags =~= Seq::<TagV>::empty(),
            s@.post_tags =~= Seq::<PostTagV>::empty(),
            s@.next_user_id == 1,
            s@.next_post_id == 1,
            s@.next_tag_id == 1,
    {
        Store {
            users: Vec::new(),
            posts: Vec::new(),
            tags: Vec::new(),
            post_tags: Vec::new(),
            next_user_id: 1,
            next_post_id: 1,
            next_tag_id: 1,
        }
    }
}

/// The budget suffices for `k` more row-level writes.
pub open spec fn spec_writes_ok(w: Option<u64>, k: nat) -> bool {
    match w {
        None => true,
        Some(n) => k <= n,
    }
}

/// The budget after `k` row-level writes succeeded.
pub open spec fn spec_consume(w: Option<u64>, k: nat) -> Option<u64> {
    match w {
        None => None,
        Some(n) => Some((n - k) as u64),
    }
}

/// A live connection to the store.  `writes_left` is the number of
/// row-level write statements the connection will still carry out before
/// it fails; `None` means the connection never fails.
#[derive(Debug)]
pub struct Conn {
    pub store: Store,
    pub writes_left: Option<u64>,
}

impl Conn {
    /// A connection over a fresh, empty store that never fails.
    pub fn new() -> (c: Conn)
        ensures
            c.store@.wf(),
            c.store@ == Store::new_spec(),
            c.writes_left == None::<u64>,
    {
        Conn { store: Store::new(), writes_left: None }
    }

    /// A connection over a fresh, empty store that will carry out exactly
    /// `writes` row-level writes before failing; used to exercise the
    /// transactional rollback behaviour.
    pub fn with_write_budget(writes: u64) -> (c: Conn)
        ensures
            c.store@.wf(),
            c.store@ == Store::new_spec(),
            c.writes_left == Some(writes),
    {
        Conn { store: Store::new(), writes_left: Some(writes) }
    }

    /// Consumes one unit of the write budget, or reports that the
    /// connection has failed.  The store itself is untouched either way.
    pub fn take_write(&mut self) -> (ok: bool)
        ensures
            final(self).store == old(self).store,
            ok == spec_writes_ok(old(self).writes_left, 1),
            ok ==> final(self).writes_left == spec_consume(old(self).writes_left, 1),
            !ok ==> final(self).writes_left == old(self).writes_left,
    {
        match self.writes_left {
            None => true,
            Some(n) => {
                if n == 0 {
                    false
                } else {
                    self.writes_left = Some(n - 1);
                    true
                }
            },
        }
    }
}

impl Store {
    /// The ghost image of the store `Store::new` returns.
    pub open spec fn new_spec() -> StoreV {
        StoreV {
            users: Seq::empty(),
            posts: Seq::empty(),
            tags: Seq::empty(),
            post_tags: Seq::empty(),
            next_user_id: 1,
            next_post_id: 1,
            next_tag_id: 1,
        }
    }
}

/// In a sequence of at least one and pairwise increasing identifiers that
/// all lie in `[1, bound)`, each element is at least one more than its
/// index; hence the sequence is shorter than `bound`.
pub proof fn lemma_increasing_ids_bound(ids: Seq<int>, bound: int)
    requires
        forall|i: int, j: int| 0 <= i < j < ids.len() ==> ids[i] < ids[j],
        forall|i: int| 0 <= i < ids.len() ==> 1 <= #[trigger] ids[i] < bound,
    ensures
        ids.len() <= bound - 1 || ids.len() == 0,
{
    if ids.len() > 0 {
        lemma_increasing_ids_lower(ids, ids.len() - 1);
    }
}

proof fn lemma_increasing_ids_lower(ids: Seq<int>, i: int)
    requires
        forall|a: int, b: int| 0 <= a < b < ids.len() ==> ids[a] < ids[b],
        forall|a: int| 0 <= a < ids.len() ==> 1 <= #[trigger] ids[a],
        0 <= i < ids.len(),
    ensures
        ids[i] >= 1 + i,
    decreases i,
{
    if i > 0 {
        lemma_increasing_ids_lower(ids, i - 1);
    }
}

/// Write budgets compose: a budget suffices for `a + b` writes exactly
/// when it suffices for `a` and the remainder suffices for `b`, and
/// consuming `a` then `b` is consuming `a + b`.
pub proof fn lemma_writes_compose(w: Option<u64>, a: nat, b: nat)
    ensures
        spec_writes_ok(w, a + b) <==> (spec_writes_ok(w, a) && spec_writes_ok(
            spec_consume(w, a),
            b,
        )),
        spec_writes_ok(w, a) ==> spec_consume(spec_consume(w, a), b) == spec_consume(w, a + b),
{
}

/// A well-formed store holds fewer rows in each identifier-carrying table
/// than the table's counter, so row counts fit comfortably in the integer
/// types the listing works with.
pub proof fn lemma_table_len_bounds(s: StoreV)
    requires
        s.wf(),
    ensures
        s.posts.len() < s.next_post_id,
        s.tags.len() < s.next_tag_id,
        s.users.len() < s.next_user_id,
{
    lemma_increasing_ids_bound(s.posts.map(|i: int, p: PostV| p.id), s.next_post_id);
    lemma_increasing_ids_bound(s.tags.map(|i: int, t: TagV| t.id), s.next_tag_id);
    lemma_increasing_ids_bound(s.users.map(|i: int, u: UserV| u.id), s.next_user_id);
}

} // verus!
