//! The inbox: the endpoint through which a user hears from others. It passes
//! every event on to the user's state; on hearing that it has been blocked,
//! it also drops the blocker's posts from the user's feed.
use vstd::prelude::*;

use crate::ids::PostId;
use crate::peered::PeerAddr;
use crate::posts::DeletePost;
use crate::user::{Blocked, GetUserPostIds};
use crate::users::{ActorAddr, Lookup, UserAddress};

verus! {

#[derive(Clone, Copy, Debug)]
pub struct Inbox {
    users: PeerAddr,
}

impl Inbox {
    /// The Users shard this inbox looks blockers up on.
    pub closed spec fn users_spec(&self) -> PeerAddr {
        self.users
    }

    pub fn new(users: PeerAddr) -> (r: Self)
        ensures
            r.users_spec() == users,
    {
        Inbox { users }
    }

    /// `Blocked(by)`, first step: pass the event on to the user's state, and
    /// look the blocker up.
    pub fn blocked(&self, msg: Blocked) -> (r: (Blocked, (PeerAddr, Lookup)))
        ensures
            r.0 == msg,
            r.1.0 == self.users_spec() && r.1.1.0 == msg.0,
    {
        (msg, (self.users, Lookup(msg.0)))
    }

    /// Second step: ask the blocker's state for its newest posts.
    pub fn blocker_found(found: Result<UserAddress, ()>) -> (r: Option<(ActorAddr, GetUserPostIds)>)
        ensures
            match found {
                Ok(addr) => r matches Some(x) && x.0 == addr.user,
                Err(_) => r is None,
            },
    {
        match found {
            Ok(addr) => Some((addr.user, GetUserPostIds)),
            Err(_) => None,
        }
    }

    /// Last step: one deletion, for the user's state, of each of the
    /// blocker's posts.
    pub fn blocker_posts(post_ids: Result<Vec<PostId>, ()>) -> (r: Vec<DeletePost>)
        ensures
            match post_ids {
                Ok(ids) => r@.len() == ids@.len() && forall|k: int| 0 <= k < ids@.len() ==> (#[trigger] r@[k]).0 == ids@[k],
                Err(_) => r@.len() == 0,
            },
    {
        let mut r: Vec<DeletePost> = Vec::new();
        match post_ids {
            Ok(ids) => {
                let mut i: usize = 0;
                while i < ids.len()
                    invariant
                        0 <= i <= ids.len(),
                        r@.len() == i,
                        forall|k: int| 0 <= k < i ==> (#[trigger] r@[k]).0 == ids@[k],
                    decreases ids.len() - i,
                {
                    r.push(DeletePost(ids[i]));
                    i = i + 1;
                }
            },
            Err(_) => {},
        }
        r
    }
}

} // verus!
