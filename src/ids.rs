//! Identifiers of shards, users and posts.
use vstd::prelude::*;

verus! {

/// A 64-bit opaque identifier.
#[derive(Clone, Copy, Debug, PartialEq, Eq, Hash, PartialOrd, Ord, Structural)]
pub struct Id(pub u64);

/// The identifier of a Posts shard.
pub type PostsId = Id;

/// The identifier of a Users shard.
pub type UsersId = Id;

/// A monotonic instant, in ticks of the authoring shard's clock.
pub type Timestamp = u64;

/// A user: the Users shard that issued it, then a local id.
///
/// The derived order is lexicographic: shard first, then local id.
#[derive(Clone, Copy, Debug, PartialEq, Eq, Hash, PartialOrd, Ord, Structural)]
pub struct UserId(pub UsersId, pub Id);

impl UserId {
    pub fn new(users_id: UsersId, user_id: Id) -> (r: Self)
        ensures
            r == UserId(users_id, user_id),
    {
        UserId(users_id, user_id)
    }
}

/// A post: the Posts shard that issued it, a local id, and the instant it was
/// created.
///
/// Two post ids are equal when shard and local id agree; the timestamp only
/// orders them.
#[derive(Clone, Copy, Debug)]
pub struct PostId(pub PostsId, pub Id, pub Timestamp);

impl PostId {
    pub fn new(posts_id: PostsId, post_id: Id, created: Timestamp) -> (r: Self)
        ensures
            r == PostId(posts_id, post_id, created),
    {
        PostId(posts_id, post_id, created)
    }

    /// What identifies the post: its shard and its local id.
    pub open spec fn key(self) -> (u64, u64) {
        (self.0.0, self.1.0)
    }

    /// The order of posts: by timestamp, then by shard, then by local id.
    pub open spec fn precedes(self, other: PostId) -> bool {
        ||| self.2 < other.2
        ||| self.2 == other.2 && self.0.0 < other.0.0
        ||| self.2 == other.2 && self.0.0 == other.0.0 && self.1.0 < other.1.0
    }

    pub fn same_post(&self, other: &PostId) -> (r: bool)
        ensures
            r == (self.key() == other.key()),
    {
        self.0.0 == other.0.0 && self.1.0 == other.1.0
    }

    pub fn is_before(&self, other: &PostId) -> (r: bool)
        ensures
            r == self.precedes(*other),
    {
        self.2 < other.2 || (self.2 == other.2 && (self.0.0 < other.0.0 || (self.0.0 == other.0.0
            && self.1.0 < other.1.0)))
    }
}

impl PartialEq for PostId {
    fn eq(&self, other: &PostId) -> (r: bool) {
        self.same_post(other)
    }
}

impl vstd::std_specs::cmp::PartialEqSpecImpl for PostId {
    open spec fn obeys_eq_spec() -> bool {
        true
    }

    open spec fn eq_spec(&self, other: &PostId) -> bool {
        self.key() == other.key()
    }
}

impl Eq for PostId {
}

} // verus!
