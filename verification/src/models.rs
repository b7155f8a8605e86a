//! Entities of the store and their ghost-level images.
//!
//! Each stored row type (`User`, `Post`, `Tag`, `PostTag`) has a ghost
//! counterpart whose text fields are character sequences and whose
//! identifiers are mathematical integers, so that contracts can speak about
//! values rather than heap representations.

use vstd::prelude::*;

verus! {

/// A stored user row: an immutable account record.
#[derive(Debug)]
pub struct User {
    pub id: i32,
    pub username: String,
    pub first_name: String,
    pub last_name: Option<String>,
}

/// Ghost image of a `User`.
#[verifier::ext_equal]
pub ghost struct UserV {
    pub id: int,
    pub username: Seq<char>,
    pub first_name: Seq<char>,
    pub last_name: Option<Seq<char>>,
}

/// Input for creating a user; the store assigns the identifier.
#[derive(Debug)]
pub struct NewUser {
    pub username: String,
    pub first_name: String,
    pub last_name: Option<String>,
}

/// Ghost image of a `NewUser`.
#[verifier::ext_equal]
pub ghost struct NewUserV {
    pub username: Seq<char>,
    pub first_name: Seq<char>,
    pub last_name: Option<Seq<char>>,
}

/// A stored post row.
#[derive(Debug)]
pub struct Post {
    pub id: i32,
    /// Weak reference to the creating user; may be absent.
    pub created_by: Option<i32>,
    pub title: String,
    pub body: String,
}

/// Ghost image of a `Post`.
#[verifier::ext_equal]
pub ghost struct PostV {
    pub id: int,
    pub created_by: Option<int>,
    pub title: Seq<char>,
    pub body: Seq<char>,
}

/// Input for creating a post; the store assigns the identifier.
#[derive(Debug)]
pub struct NewPost {
    pub created_by: Option<i32>,
    pub title: String,
    pub body: String,
}

/// Ghost image of a `NewPost`.
#[verifier::ext_equal]
pub ghost struct NewPostV {
    pub created_by: Option<int>,
    pub title: Seq<char>,
    pub body: Seq<char>,
}

/// A stored tag row.  Tag names are globally unique.
#[derive(Debug)]
pub struct Tag {
    pub id: i32,
    pub name: String,
}

/// Ghost image of a `Tag`.
#[verifier::ext_equal]
pub ghost struct TagV {
    pub id: int,
    pub name: Seq<char>,
}

/// Input for upserting a tag by name.
#[derive(Debug)]
pub struct NewTag {
    pub name: String,
}

/// A post-tag association row.  The pair is the whole identity: a pair is
/// never duplicated, and inserting an already-present pair is a no-op.
#[derive(Clone, Copy, Debug, PartialEq, Eq, Structural)]
pub struct PostTag {
    pub post_id: i32,
    pub tag_id: i32,
}

/// Ghost image of a `PostTag`.
#[verifier::ext_equal]
pub ghost struct PostTagV {
    pub post_id: int,
    pub tag_id: int,
}

/// Input for creating a post together with its tag names in one atomic
/// operation.
#[derive(Debug)]
pub struct CreatePostInput {
    pub created_by: Option<i32>,
    pub title: String,
    pub body: String,
    pub tags: Vec<String>,
}

/// Pagination metadata describing one page of a larger result set.
#[derive(Clone, Copy, Debug, PartialEq, Eq, Structural)]
pub struct PaginationMeta {
    pub current_page: i64,
    pub per_page: i64,
    pub from: i64,
    pub to: i64,
    pub total_pages: i64,
    pub total_docs: i64,
}

/// A post together with the ordered-by-insertion list of tag names
/// currently associated with it.  This is a read projection, not a stored
/// row.
#[derive(Debug)]
pub struct PostWithTags {
    pub post: Post,
    pub tags: Vec<String>,
}

/// One page of records together with its pagination metadata.
#[derive(Debug)]
pub struct PaginatedResponse<T> {
    pub records: Vec<T>,
    pub meta: PaginationMeta,
}

/// The ghost image of an optional identifier.
pub open spec fn opt_int(o: Option<i32>) -> Option<int> {
    match o {
        Some(v) => Some(v as int),
        None => None,
    }
}

/// The ghost image of an optional string.
pub open spec fn opt_chars(o: Option<String>) -> Option<Seq<char>> {
    match o {
        Some(s) => Some(s@),
        None => None,
    }
}

/// The ghost image of a sequence of strings.
pub open spec fn str_views(v: Seq<String>) -> Seq<Seq<char>> {
    v.map(|i: int, s: String| s@)
}

impl View for User {
    type V = UserV;

    open spec fn view(&self) -> UserV {
        UserV {
            id: self.id as int,
            username: self.username@,
            first_name: self.first_name@,
            last_name: opt_chars(self.last_name),
        }
    }
}

impl View for NewUser {
    type V = NewUserV;

    open spec fn view(&self) -> NewUserV {
        NewUserV {
            username: self.username@,
            first_name: self.first_name@,
            last_name: opt_chars(self.last_name),
        }
    }
}

impl View for Post {
    type V = PostV;

    open spec fn view(&self) -> PostV {
        PostV {
            id: self.id as int,
            created_by: opt_int(self.created_by),
            title: self.title@,
            body: self.body@,
        }
    }
}

impl View for NewPost {
    type V = NewPostV;

    open spec fn view(&self) -> NewPostV {
        NewPostV {
            created_by: opt_int(self.created_by),
            title: self.title@,
            body: self.body@,
        }
    }
}

impl View for Tag {
    type V = TagV;

    open spec fn view(&self) -> TagV {
        TagV { id: self.id as int, name: self.name@ }
    }
}

impl View for PostTag {
    type V = PostTagV;

    open spec fn view(&self) -> PostTagV {
        PostTagV { post_id: self.post_id as int, tag_id: self.tag_id as int }
    }
}

impl Clone for User {
    fn clone(&self) -> (res: Self)
        ensures
            res@ == self@,
    {
        User {
            id: self.id,
            username: self.username.clone(),
            first_name: self.first_name.clone(),
            last_name: match &self.last_name {
                Some(s) => Some(s.clone()),
                None => None,
            },
        }
    }
}

impl Clone for Post {
    fn clone(&self) -> (res: Self)
        ensures
            res@ == self@,
    {
        Post {
            id: self.id,
            created_by: self.created_by,
            title: self.title.clone(),
            body: self.body.clone(),
        }
    }
}

impl Clone for Tag {
    fn clone(&self) -> (res: Self)
        ensures
            res@ == self@,
    {
        Tag { id: self.id, name: self.name.clone() }
    }
}

} // verus!
