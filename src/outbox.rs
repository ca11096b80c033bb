//! The outbox: the endpoint through which a user acts. Each command becomes
//! messages to the user's own state, to the shards and to the dispatcher.
use vstd::prelude::*;

use crate::blocklist::Block;
use crate::dispatch::{DispatchAnnounce, DispatchMessage};
use crate::ids::{PostId, Timestamp, UserId};
use crate::posts::{DeletePost, NewPost};
use crate::user::{
    AcceptFollowRequest, BlockUser, Blocked, DenyFollowRequest, FollowRequest, FollowRequestAccepted,
    FollowRequestDenied, GetFollowers, NewPostIn, NewPostOut, RequestFollow,
};
use crate::user_set::{copy_users, insert_user, set_of};

verus! {

#[derive(Clone, Copy, Debug)]
pub struct Outbox {
    user_id: UserId,
}

impl Outbox {
    pub closed spec fn owner(&self) -> UserId {
        self.user_id
    }

    pub fn new(user_id: UserId) -> (r: Self)
        ensures
            r.owner() == user_id,
    {
        Outbox { user_id }
    }

    pub fn user_id(&self) -> (r: UserId)
        ensures
            r == self.owner(),
    {
        self.user_id
    }

    /// First step of `NewPostOut`: ask the Posts shard for a new post, and
    /// the user's state for its followers.
    pub fn new_post_out(&self, msg: &NewPostOut, created: Timestamp) -> (r: (NewPost, GetFollowers))
        ensures
            r.0.0 == self.owner(),
            r.0.1@ == msg.0@,
            r.0.2 == created,
    {
        (NewPost(self.user_id, copy_users(&msg.0), created), GetFollowers)
    }

    /// Last step of `NewPostOut`: with the post's id and the followers in
    /// hand, the author's own copy of the post, and an announcement of it to
    /// every follower and every mentioned user. Nothing when either reply was
    /// a failure.
    pub fn post_created(&self, mentions: &Vec<UserId>, post_id: Result<PostId, ()>, followers: Result<Vec<UserId>, ()>) -> (r: Option<(NewPostIn, DispatchAnnounce<NewPostIn>)>)
        ensures
            match (post_id, followers) {
                (Ok(p), Ok(f)) => r matches Some(x) && {
                    &&& x.0.0 == p && x.0.1 == self.owner() && x.0.2@ == mentions@
                    &&& x.1.0.0 == p && x.1.0.1 == self.owner() && x.1.0.2@ == mentions@
                    &&& x.1.1 == self.owner()
                    &&& set_of(x.1.2@) == set_of(f@).union(set_of(mentions@))
                    &&& x.1.2@.no_duplicates()
                },
                _ => r is None,
            },
    {
        match (post_id, followers) {
            (Ok(p), Ok(f)) => {
                let mut recipients: Vec<UserId> = Vec::new();
                let mut i: usize = 0;
                while i < f.len()
                    invariant
                        0 <= i <= f.len(),
                        recipients@.no_duplicates(),
                        set_of(recipients@) == set_of(f@.subrange(0, i as int)),
                    decreases f.len() - i,
                {
                    proof {
                        assert(set_of(f@.subrange(0, i as int + 1)) =~= set_of(f@.subrange(0, i as int)).insert(f@[i as int])) by {
                            assert(f@.subrange(0, i as int + 1) =~= f@.subrange(0, i as int).push(f@[i as int]));
                            let s0 = f@.subrange(0, i as int);
                            let s1 = f@.subrange(0, i as int + 1);
                            assert forall|u: UserId| s0.contains(u) implies s1.contains(u) by {
                                let k = choose|k: int| 0 <= k < s0.len() && s0[k] == u;
                                assert(s1[k] == u);
                            }
                            assert(s1[i as int] == f@[i as int]);
                        }
                    }
                    insert_user(&mut recipients, f[i]);
                    i = i + 1;
                }
                assert(f@.subrange(0, f@.len() as int) =~= f@);
                let mut j: usize = 0;
                while j < mentions.len()
                    invariant
                        0 <= j <= mentions.len(),
                        recipients@.no_duplicates(),
                        set_of(recipients@) == set_of(f@).union(set_of(mentions@.subrange(0, j as int))),
                    decreases mentions.len() - j,
                {
                    proof {
                        let s0 = mentions@.subrange(0, j as int);
                        let s1 = mentions@.subrange(0, j as int + 1);
                        assert(set_of(s1) =~= set_of(s0).insert(mentions@[j as int])) by {
                            assert forall|u: UserId| s0.contains(u) implies s1.contains(u) by {
                                let k = choose|k: int| 0 <= k < s0.len() && s0[k] == u;
                                assert(s1[k] == u);
                            }
                            assert(s1[j as int] == mentions@[j as int]);
                            assert forall|u: UserId| s1.contains(u) implies s0.contains(u) || u == mentions@[j as int] by {
                                let k = choose|k: int| 0 <= k < s1.len() && s1[k] == u;
                                if k < j {
                                    assert(s0[k] == u);
                                }
                            }
                        }
                    }
                    insert_user(&mut recipients, mentions[j]);
                    j = j + 1;
                }
                assert(mentions@.subrange(0, mentions@.len() as int) =~= mentions@);
                let own = NewPostIn(p, self.user_id, copy_users(mentions));
                let out = NewPostIn(p, self.user_id, copy_users(mentions));
                Some((own, DispatchAnnounce(out, self.user_id, recipients)))
            },
            _ => None,
        }
    }

    /// `DeletePost`: the copy for the user's state and the one for the Posts
    /// shard.
    pub fn delete_post(&self, msg: DeletePost) -> (r: (DeletePost, DeletePost))
        ensures
            r.0.0 == msg.0 && r.1.0 == msg.0,
    {
        (msg, msg)
    }

    /// `RequestFollow`: note the pending request in the user's state, and
    /// send the request to the target. A user cannot follow itself.
    pub fn request_follow(&self, msg: RequestFollow) -> (r: Option<(RequestFollow, DispatchMessage<FollowRequest>)>)
        ensures
            msg.0 == self.owner() ==> r is None,
            msg.0 != self.owner() ==> r == Some(
                (msg, DispatchMessage(FollowRequest(self.owner()), self.owner(), msg.0)),
            ),
    {
        if msg.0 == self.user_id {
            None
        } else {
            Some((msg, DispatchMessage(FollowRequest(self.user_id), self.user_id, msg.0)))
        }
    }

    /// `AcceptFollowRequest`, last step: the user's state answered `reply`;
    /// the requester hears of the acceptance only if a request was waiting.
    pub fn follow_request_accepted(&self, msg: AcceptFollowRequest, reply: Option<UserId>) -> (r: Option<DispatchMessage<FollowRequestAccepted>>)
        ensures
            reply is None ==> r is None,
            reply is Some ==> r == Some(DispatchMessage(FollowRequestAccepted(self.owner()), self.owner(), msg.0)),
    {
        match reply {
            Some(_) => Some(DispatchMessage(FollowRequestAccepted(self.user_id), self.user_id, msg.0)),
            None => None,
        }
    }

    /// `DenyFollowRequest`, last step: the requester hears of the refusal
    /// only if a request was waiting.
    pub fn follow_request_denied(&self, msg: DenyFollowRequest, reply: Option<UserId>) -> (r: Option<DispatchMessage<FollowRequestDenied>>)
        ensures
            reply is None ==> r is None,
            reply is Some ==> r == Some(DispatchMessage(FollowRequestDenied(self.owner()), self.owner(), msg.0)),
    {
        match reply {
            Some(_) => Some(DispatchMessage(FollowRequestDenied(self.user_id), self.user_id, msg.0)),
            None => None,
        }
    }

    /// `BlockUser`: note the block in the user's state, tell the blocked
    /// user, and record the block on the Blocklists shard, in that order: the
    /// dispatcher drops a message between users a recorded block separates,
    /// so the notice must be through before the block is recorded. A user
    /// cannot block itself.
    pub fn block_user(&self, msg: BlockUser) -> (r: Option<(BlockUser, DispatchMessage<Blocked>, Block)>)
        ensures
            msg.0 == self.owner() ==> r is None,
            msg.0 != self.owner() ==> r == Some(
                (msg, DispatchMessage(Blocked(self.owner()), self.owner(), msg.0), Block(self.owner(), msg.0)),
            ),
    {
        if msg.0 == self.user_id {
            None
        } else {
            Some((msg, DispatchMessage(Blocked(self.user_id), self.user_id, msg.0), Block(self.user_id, msg.0)))
        }
    }
}

} // verus!
