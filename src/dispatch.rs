//! The dispatcher: delivers a message from one user to others, unless a block
//! stands between them.
//!
//! It holds no state. Delivering takes a round trip to the Users and
//! Blocklists shards; each step below turns the replies of the previous one
//! into the next messages.
use vstd::prelude::*;

use crate::blocklist::{CanSpeak, GetBlockedBy, GetBlocklist};
use crate::ids::UserId;
use crate::peered::PeerAddr;
use crate::user_set::{contains_user, set_of};
use crate::users::{ActorAddr, Lookup, LookupMany, UserAddress};

verus! {

/// `DispatchMessage(message, source, target)`: deliver one message to one
/// user.
#[derive(Clone, Debug)]
pub struct DispatchMessage<T>(pub T, pub UserId, pub UserId);

/// `DispatchAnnounce(message, source, recipients)`: deliver a copy of the
/// message to each recipient.
#[derive(Clone, Debug)]
pub struct DispatchAnnounce<T>(pub T, pub UserId, pub Vec<UserId>);

/// The recipients of `rs`, in order, that are not in `excluded`.
pub open spec fn allowed_recipients(rs: Seq<UserId>, excluded: Set<UserId>) -> Seq<UserId>
    decreases rs.len(),
{
    if rs.len() == 0 {
        Seq::empty()
    } else {
        let rest = allowed_recipients(rs.drop_last(), excluded);
        if excluded.contains(rs.last()) {
            rest
        } else {
            rest.push(rs.last())
        }
    }
}

/// The inbox of each address, in order.
pub open spec fn inboxes(addrs: Seq<UserAddress>) -> Seq<ActorAddr> {
    addrs.map_values(|a: UserAddress| a.inbox)
}

#[derive(Clone, Copy, Debug)]
pub struct Dispatch {
    users: PeerAddr,
    blocklists: PeerAddr,
}

impl Dispatch {
    pub closed spec fn users_spec(&self) -> PeerAddr {
        self.users
    }

    pub closed spec fn blocklists_spec(&self) -> PeerAddr {
        self.blocklists
    }

    pub fn new(users: PeerAddr, blocklists: PeerAddr) -> (r: Self)
        ensures
            r.users_spec() == users,
            r.blocklists_spec() == blocklists,
    {
        Dispatch { users, blocklists }
    }

    /// First step of a `DispatchMessage`: look the target up, and ask whether
    /// source and target may speak.
    pub fn message_queries(&self, source: UserId, target: UserId) -> (r: ((PeerAddr, Lookup), (PeerAddr, CanSpeak)))
        ensures
            r.0.0 == self.users_spec() && r.0.1.0 == target,
            r.1.0 == self.blocklists_spec() && r.1.1 == CanSpeak(source, target),
    {
        ((self.users, Lookup(target)), (self.blocklists, CanSpeak(source, target)))
    }

    /// Last step of a `DispatchMessage`: the inbox to deliver to, when the
    /// target was found and no block stands between the two; otherwise the
    /// message is dropped.
    pub fn message_delivery(target: Result<UserAddress, ()>, can_speak: Result<bool, ()>) -> (r: Option<ActorAddr>)
        ensures
            r == match (target, can_speak) {
                (Ok(addr), Ok(true)) => Some(addr.inbox),
                _ => None::<ActorAddr>,
            },
    {
        match (target, can_speak) {
            (Ok(addr), Ok(true)) => Some(addr.inbox),
            _ => None,
        }
    }

    /// First step of a `DispatchAnnounce`: ask for the users the source
    /// blocks and for those that block it.
    pub fn announce_queries(&self, source: UserId) -> (r: ((PeerAddr, GetBlocklist), (PeerAddr, GetBlockedBy)))
        ensures
            r.0.0 == self.blocklists_spec() && r.0.1 == GetBlocklist(source),
            r.1.0 == self.blocklists_spec() && r.1.1 == GetBlockedBy(source),
    {
        ((self.blocklists, GetBlocklist(source)), (self.blocklists, GetBlockedBy(source)))
    }

    /// The recipients, in order, that the source does not block and that do
    /// not block the source.
    pub fn announce_recipients(recipients: &Vec<UserId>, blocklist: &Vec<UserId>, blocked_by: &Vec<UserId>) -> (r: Vec<UserId>)
        ensures
            r@ == allowed_recipients(recipients@, set_of(blocklist@).union(set_of(blocked_by@))),
    {
        let ghost excluded = set_of(blocklist@).union(set_of(blocked_by@));
        let mut r: Vec<UserId> = Vec::new();
        let mut i: usize = 0;
        while i < recipients.len()
            invariant
                0 <= i <= recipients.len(),
                excluded == set_of(blocklist@).union(set_of(blocked_by@)),
                r@ == allowed_recipients(recipients@.subrange(0, i as int), excluded),
            decreases recipients.len() - i,
        {
            let u = recipients[i];
            proof {
                let sub = recipients@.subrange(0, i as int + 1);
                assert(sub.drop_last() =~= recipients@.subrange(0, i as int));
                assert(sub.last() == u);
            }
            let blocked = contains_user(blocklist, u) || contains_user(blocked_by, u);
            if !blocked {
                r.push(u);
            }
            i = i + 1;
        }
        assert(recipients@.subrange(0, recipients@.len() as int) =~= recipients@);
        r
    }

    /// Second step of a `DispatchAnnounce`: the replies of the Blocklists
    /// shard in hand, look up the recipients that remain. `None` when a reply
    /// was a failure: the message is dropped.
    pub fn announce_lookup(&self, recipients: &Vec<UserId>, blocklist: Result<Vec<UserId>, ()>, blocked_by: Result<Vec<UserId>, ()>) -> (r: Option<(PeerAddr, LookupMany)>)
        ensures
            match (blocklist, blocked_by) {
                (Ok(bl), Ok(bb)) => r matches Some(x) && x.0 == self.users_spec() && x.1.0@ == allowed_recipients(
                    recipients@,
                    set_of(bl@).union(set_of(bb@)),
                ),
                _ => r is None,
            },
    {
        match (blocklist, blocked_by) {
            (Ok(bl), Ok(bb)) => Some((self.users, LookupMany(Dispatch::announce_recipients(recipients, &bl, &bb)))),
            _ => None,
        }
    }

    /// Last step of a `DispatchAnnounce`: the inboxes to deliver a copy to.
    pub fn announce_delivery(found: Result<(Vec<UserAddress>, Vec<UserId>), ()>) -> (r: Vec<ActorAddr>)
        ensures
            match found {
                Ok(f) => r@ == inboxes(f.0@),
                Err(_) => r@.len() == 0,
            },
    {
        let mut r: Vec<ActorAddr> = Vec::new();
        match found {
            Ok(f) => {
                let addrs = f.0;
                let mut i: usize = 0;
                while i < addrs.len()
                    invariant
                        0 <= i <= addrs.len(),
                        r@ == inboxes(addrs@.subrange(0, i as int)),
                    decreases addrs.len() - i,
                {
                    proof {
                        assert(inboxes(addrs@.subrange(0, i as int + 1)) =~= inboxes(addrs@.subrange(0, i as int)).push(addrs@[i as int].inbox));
                    }
                    r.push(addrs[i].inbox);
                    i = i + 1;
                }
                assert(addrs@.subrange(0, addrs@.len() as int) =~= addrs@);
            },
            Err(_) => {},
        }
        r
    }
}

} // verus!
