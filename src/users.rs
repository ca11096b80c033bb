//! The Users shard: issues user ids and maps every user of its peer group to
//! the addresses of that user's actors.
use vstd::prelude::*;

use crate::ids::{Id, UserId, UsersId};
use crate::peered::{next_page, HandleAnnounce, HandleMessage, HandleMessageType, PeerAddr, PeeredInner};
use crate::store::{is_store_page, stored_all, Duplicate, Key, Store};

verus! {

/// How many users one backfill page carries.
pub const BACKFILL_CHUNK_SIZE: usize = 100;

/// One actor of a user's triad.
#[derive(Clone, Copy, Debug, PartialEq, Eq, Hash, Structural)]
pub enum ActorAddr {
    /// The private state.
    User(UserId),
    /// The delivery endpoint.
    Inbox(UserId),
    /// The command endpoint.
    Outbox(UserId),
}

/// The addresses of a user's three actors. An address names its actor; it
/// does not own it.
#[derive(Clone, Copy, Debug, PartialEq, Eq, Structural)]
pub struct UserAddress {
    pub user: ActorAddr,
    pub inbox: ActorAddr,
    pub outbox: ActorAddr,
}

impl View for UserAddress {
    type V = UserAddress;

    open spec fn view(&self) -> UserAddress {
        *self
    }
}

impl Duplicate for UserAddress {
    fn duplicate(&self) -> (r: UserAddress) {
        *self
    }
}

impl UserAddress {
    pub open spec fn user_spec(self) -> ActorAddr {
        self.user
    }

    pub open spec fn inbox_spec(self) -> ActorAddr {
        self.inbox
    }

    pub open spec fn outbox_spec(self) -> ActorAddr {
        self.outbox
    }

    /// The addresses of the triad of `user_id`.
    pub fn new(user_id: UserId) -> (r: Self)
        ensures
            r.user_spec() == ActorAddr::User(user_id),
            r.inbox_spec() == ActorAddr::Inbox(user_id),
            r.outbox_spec() == ActorAddr::Outbox(user_id),
    {
        UserAddress {
            user: ActorAddr::User(user_id),
            inbox: ActorAddr::Inbox(user_id),
            outbox: ActorAddr::Outbox(user_id),
        }
    }

    pub fn user(&self) -> (r: &ActorAddr)
        ensures
            *r == self.user_spec(),
    {
        &self.user
    }

    pub fn inbox(&self) -> (r: &ActorAddr)
        ensures
            *r == self.inbox_spec(),
    {
        &self.inbox
    }

    pub fn outbox(&self) -> (r: &ActorAddr)
        ensures
            *r == self.outbox_spec(),
    {
        &self.outbox
    }
}

/// Look up one user.
#[derive(Clone, Copy, Debug)]
pub struct Lookup(pub UserId);

/// Look up several users.
#[derive(Clone, Debug)]
pub struct LookupMany(pub Vec<UserId>);

/// Create a user. Carries the addresses of the Users shard and of the
/// Blocklists shard that the new triad talks to.
#[derive(Clone, Copy, Debug)]
pub struct NewUser(pub PeerAddr, pub PeerAddr);

/// A new user, as a peer passes it on.
#[derive(Clone, Copy, Debug)]
pub struct NewUserFull(pub UserId, pub UserAddress);

/// A new user, as its home shard announces it.
#[derive(Clone, Copy, Debug)]
pub struct AnnounceNewUser(pub UserId, pub UserAddress);

/// Forget a user.
#[derive(Clone, Copy, Debug)]
pub struct DeleteUser(pub UserId);

/// Asks how many users a replica knows.
#[derive(Clone, Copy, Debug)]
pub struct UserSize;

/// The key a user is stored under.
pub open spec fn user_key(u: UserId) -> Key {
    (u.0.0, u.1.0)
}

/// The addresses of the users of `ids` that `m` knows, in the order of `ids`.
pub open spec fn found_users(m: Map<Key, UserAddress>, ids: Seq<UserId>) -> Seq<UserAddress>
    decreases ids.len(),
{
    if ids.len() == 0 {
        Seq::empty()
    } else {
        let rest = found_users(m, ids.drop_last());
        if m.contains_key(user_key(ids.last())) {
            rest.push(m[user_key(ids.last())])
        } else {
            rest
        }
    }
}

/// The users of `ids` that `m` does not know, in order.
pub open spec fn missing_users(m: Map<Key, UserAddress>, ids: Seq<UserId>) -> Seq<UserId>
    decreases ids.len(),
{
    if ids.len() == 0 {
        Seq::empty()
    } else {
        let rest = missing_users(m, ids.drop_last());
        if m.contains_key(user_key(ids.last())) {
            rest
        } else {
            rest.push(ids.last())
        }
    }
}

pub struct UsersView {
    pub users_id: UsersId,
    /// The local id the next user gets.
    pub current_id: u64,
    pub users: Map<Key, UserAddress>,
    /// The Posts shard that new users write to.
    pub posts: PeerAddr,
}

pub struct Users {
    users_id: UsersId,
    current_id: u64,
    users: Store<UserAddress>,
    posts: PeerAddr,
}

impl View for Users {
    type V = UsersView;

    closed spec fn view(&self) -> UsersView {
        UsersView { users_id: self.users_id, current_id: self.current_id, users: self.users@, posts: self.posts }
    }
}

impl Users {
    pub closed spec fn wf(&self) -> bool {
        self.users.wf()
    }

    /// The stored entries, in the order backfill pages them.
    pub closed spec fn entries(&self) -> Seq<(Key, UserAddress)> {
        self.users.entries()
    }

    /// The entries spell out the map of users.
    pub proof fn lemma_entries(&self)
        requires
            self.wf(),
        ensures
            self@.users == crate::store::map_of(self.entries()),
            crate::store::keys_distinct(self.entries()),
    {
        self.users.lemma_entries();
    }

    pub fn new(users_id: UsersId, posts: PeerAddr) -> (r: Self)
        ensures
            r.wf(),
            r@ == (UsersView { users_id, current_id: 0, users: Map::empty(), posts }),
            r.entries().len() == 0,
    {
        Users { users_id: users_id, current_id: 0, users: Store::new(), posts: posts }
    }

    /// The Posts shard that new users write to.
    pub fn posts(&self) -> (r: PeerAddr)
        ensures
            r == self@.posts,
    {
        self.posts
    }

    fn gen_next_id(&mut self) -> (r: UserId)
        requires
            old(self)@.current_id < u64::MAX,
        ensures
            r == UserId(old(self)@.users_id, Id(old(self)@.current_id)),
            final(self)@ == (UsersView { current_id: (old(self)@.current_id + 1) as u64, ..old(self)@ }),
            final(self).users == old(self).users,
    {
        let id = Id(self.current_id);
        self.current_id = self.current_id + 1;
        UserId(self.users_id, id)
    }

    /// The addresses of `user_id`, if this replica knows it.
    pub fn get_user(&self, user_id: UserId) -> (r: Option<UserAddress>)
        requires
            self.wf(),
        ensures
            self@.users.contains_key(user_key(user_id)) ==> r == Some(self@.users[user_key(user_id)]),
            !self@.users.contains_key(user_key(user_id)) ==> r is None,
    {
        self.users.get((user_id.0.0, user_id.1.0))
    }

    /// The addresses of the known users of `user_ids`, in their order, and
    /// the users that are not known.
    pub fn get_users(&self, user_ids: Vec<UserId>) -> (r: (Vec<UserAddress>, Vec<UserId>))
        requires
            self.wf(),
        ensures
            r.0@ == found_users(self@.users, user_ids@),
            r.1@ == missing_users(self@.users, user_ids@),
    {
        let mut addrs: Vec<UserAddress> = Vec::new();
        let mut missing: Vec<UserId> = Vec::new();
        let mut i: usize = 0;
        while i < user_ids.len()
            invariant
                self.wf(),
                0 <= i <= user_ids.len(),
                addrs@ == found_users(self@.users, user_ids@.subrange(0, i as int)),
                missing@ == missing_users(self@.users, user_ids@.subrange(0, i as int)),
            decreases user_ids.len() - i,
        {
            let user_id = user_ids[i];
            proof {
                let sub = user_ids@.subrange(0, i as int + 1);
                assert(sub.drop_last() =~= user_ids@.subrange(0, i as int));
                assert(sub.last() == user_id);
            }
            match self.get_user(user_id) {
                Some(addr) => addrs.push(addr),
                None => missing.push(user_id),
            }
            i = i + 1;
        }
        assert(user_ids@.subrange(0, user_ids@.len() as int) =~= user_ids@);
        (addrs, missing)
    }

    /// Records the addresses of `user_id`.
    pub fn add_user(&mut self, user_id: UserId, user_address: UserAddress)
        requires
            old(self).wf(),
        ensures
            final(self).wf(),
            final(self)@ == (UsersView { users: old(self)@.users.insert(user_key(user_id), user_address), ..old(self)@ }),
    {
        self.users.insert((user_id.0.0, user_id.1.0), user_address);
    }

    /// Creates a user under the next id of this shard.
    pub fn new_user(&mut self) -> (r: (UserId, UserAddress))
        requires
            old(self).wf(),
            old(self)@.current_id < u64::MAX,
        ensures
            final(self).wf(),
            r.0 == UserId(old(self)@.users_id, Id(old(self)@.current_id)),
            r.1 == UserAddress::new_spec(r.0),
            final(self)@ == (UsersView {
                current_id: (old(self)@.current_id + 1) as u64,
                users: old(self)@.users.insert(user_key(r.0), r.1),
                ..old(self)@
            }),
    {
        let user_id = self.gen_next_id();
        let user_address = UserAddress::new(user_id);
        self.add_user(user_id, user_address);
        (user_id, user_address)
    }

    /// Forgets `user_id`.
    pub fn delete_user(&mut self, user_id: UserId)
        requires
            old(self).wf(),
        ensures
            final(self).wf(),
            final(self)@ == (UsersView { users: old(self)@.users.remove(user_key(user_id)), ..old(self)@ }),
    {
        self.users.remove((user_id.0.0, user_id.1.0));
    }

    /// How many users the replica knows.
    pub fn size(&self) -> (r: usize)
        requires
            self.wf(),
        ensures
            r == self@.users.dom().len(),
    {
        self.users.len()
    }
}

impl UserAddress {
    /// The addresses of the triad of `user_id`.
    pub open spec fn new_spec(user_id: UserId) -> UserAddress {
        UserAddress {
            user: ActorAddr::User(user_id),
            inbox: ActorAddr::Inbox(user_id),
            outbox: ActorAddr::Outbox(user_id),
        }
    }
}

impl PeeredInner for Users {
    /// A cursor, and copies of the entries from it on.
    type Backfill = (usize, Vec<(Key, UserAddress)>);
    type Request = usize;

    open spec fn inv(&self) -> bool {
        self.wf()
    }

    open spec fn is_backfill(&self, req: usize, page: (usize, Vec<(Key, UserAddress)>)) -> bool {
        page.0 == req && is_store_page(self.entries(), req, BACKFILL_CHUNK_SIZE, page.1@)
    }

    open spec fn first_request(&self) -> usize {
        0
    }

    open spec fn backfill_step(&self, page: (usize, Vec<(Key, UserAddress)>), after: Self, next: Option<usize>) -> bool {
        &&& after@ == (UsersView { users: stored_all(self@.users, page.1@), ..self@ })
        &&& next == next_page(page.0, page.1@.len(), BACKFILL_CHUNK_SIZE)
    }

    fn backfill(&self, req: usize) -> (r: (usize, Vec<(Key, UserAddress)>)) {
        (req, self.users.page(req, BACKFILL_CHUNK_SIZE))
    }

    fn backfill_init(&self) -> (r: usize) {
        0
    }

    fn handle_backfill(&mut self, backfill: (usize, Vec<(Key, UserAddress)>)) -> (r: Option<usize>) {
        let (offset, entries) = backfill;
        let ret = if entries.len() == BACKFILL_CHUNK_SIZE && offset <= usize::MAX - BACKFILL_CHUNK_SIZE {
            Some(offset + BACKFILL_CHUNK_SIZE)
        } else {
            None
        };
        self.users.extend(entries);
        ret
    }
}

impl HandleMessage<Lookup> for Users {
    type Broadcast = ();
    type Item = UserAddress;
    type Error = ();

    open spec fn message_step(&self, m: Lookup, after: Self, response: Result<UserAddress, ()>, broadcast: Option<()>) -> bool {
        &&& after == *self
        &&& broadcast is None
        &&& response == if self@.users.contains_key(user_key(m.0)) {
            Ok::<UserAddress, ()>(self@.users[user_key(m.0)])
        } else {
            Err::<UserAddress, ()>(())
        }
    }

    fn handle_message(&mut self, msg: Lookup) -> (r: HandleMessageType<UserAddress, (), ()>) {
        match self.get_user(msg.0) {
            Some(addr) => (Ok(addr), None),
            None => (Err(()), None),
        }
    }
}

impl HandleMessage<LookupMany> for Users {
    type Broadcast = ();
    type Item = (Vec<UserAddress>, Vec<UserId>);
    type Error = ();

    open spec fn message_step(&self, m: LookupMany, after: Self, response: Result<(Vec<UserAddress>, Vec<UserId>), ()>, broadcast: Option<()>) -> bool {
        &&& after == *self
        &&& broadcast is None
        &&& response matches Ok(r) && r.0@ == found_users(self@.users, m.0@) && r.1@ == missing_users(
            self@.users,
            m.0@,
        )
    }

    fn handle_message(&mut self, msg: LookupMany) -> (r: HandleMessageType<(Vec<UserAddress>, Vec<UserId>), (), ()>) {
        (Ok(self.get_users(msg.0)), None)
    }
}

impl HandleMessage<NewUser> for Users {
    type Broadcast = NewUserFull;
    type Item = UserId;
    type Error = ();

    /// A new user, unless the shard has used up its ids.
    open spec fn message_step(&self, m: NewUser, after: Self, response: Result<UserId, ()>, broadcast: Option<NewUserFull>) -> bool {
        if self@.current_id < u64::MAX {
            let id = UserId(self@.users_id, Id(self@.current_id));
            let addr = UserAddress::new_spec(id);
            &&& response == Ok::<UserId, ()>(id)
            &&& after@ == (UsersView {
                current_id: (self@.current_id + 1) as u64,
                users: self@.users.insert(user_key(id), addr),
                ..self@
            })
            &&& broadcast == Some(NewUserFull(id, addr))
        } else {
            response == Err::<UserId, ()>(()) && after == *self && broadcast is None
        }
    }

    fn handle_message(&mut self, msg: NewUser) -> (r: HandleMessageType<UserId, (), NewUserFull>) {
        if self.current_id == u64::MAX {
            return (Err(()), None);
        }
        let (user_id, user_address) = self.new_user();
        (Ok(user_id), Some(NewUserFull(user_id, user_address)))
    }
}

impl HandleMessage<DeleteUser> for Users {
    type Broadcast = DeleteUser;
    type Item = ();
    type Error = ();

    open spec fn message_step(&self, m: DeleteUser, after: Self, response: Result<(), ()>, broadcast: Option<DeleteUser>) -> bool {
        &&& after@ == (UsersView { users: self@.users.remove(user_key(m.0)), ..self@ })
        &&& response == Ok::<(), ()>(())
        &&& broadcast == Some(m)
    }

    fn handle_message(&mut self, msg: DeleteUser) -> (r: HandleMessageType<(), (), DeleteUser>) {
        self.delete_user(msg.0);
        (Ok(()), Some(msg))
    }
}

impl HandleMessage<UserSize> for Users {
    type Broadcast = ();
    type Item = usize;
    type Error = ();

    open spec fn message_step(&self, m: UserSize, after: Self, response: Result<usize, ()>, broadcast: Option<()>) -> bool {
        &&& after == *self
        &&& broadcast is None
        &&& response matches Ok(n) && n == self@.users.dom().len()
    }

    fn handle_message(&mut self, msg: UserSize) -> (r: HandleMessageType<usize, (), ()>) {
        (Ok(self.size()), None)
    }
}

impl HandleAnnounce<NewUserFull> for Users {
    type Item = ();
    type Error = ();

    open spec fn announce_step(&self, m: NewUserFull, after: Self, response: Result<(), ()>) -> bool {
        after@ == (UsersView { users: self@.users.insert(user_key(m.0), m.1), ..self@ }) && response == Ok::<
            (),
            (),
        >(())
    }

    fn handle_announce(&mut self, msg: NewUserFull) -> (r: Result<(), ()>) {
        self.add_user(msg.0, msg.1);
        Ok(())
    }
}

impl HandleAnnounce<DeleteUser> for Users {
    type Item = ();
    type Error = ();

    open spec fn announce_step(&self, m: DeleteUser, after: Self, response: Result<(), ()>) -> bool {
        after@ == (UsersView { users: self@.users.remove(user_key(m.0)), ..self@ }) && response == Ok::<(), ()>(())
    }

    fn handle_announce(&mut self, msg: DeleteUser) -> (r: Result<(), ()>) {
        self.delete_user(msg.0);
        Ok(())
    }
}

} // verus!
