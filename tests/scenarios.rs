use std::collections::{BTreeMap, VecDeque};

use ap_social::blocklist::{Block, Blocklists, CanSpeak, GetBlockedBy, GetBlocklist};
use ap_social::dispatch::{Dispatch, DispatchAnnounce, DispatchMessage};
use ap_social::ids::{Id, PostId, UserId};
use ap_social::inbox::Inbox;
use ap_social::outbox::Outbox;
use ap_social::peered::{
    AnnouncePeer, Message, PeerAddr, PeerSize, Peered, PeeredInner, ReplyBackfill, ReplyPeers,
    RequestBackfill, RequestPeers,
};
use ap_social::posts::{NewPost, PostSize, Posts};
use ap_social::user::{
    AcceptFollowRequest, BlockUser, Blocked, DenyFollowRequest, FollowRequest,
    FollowRequestAccepted, FollowRequestDenied, NewPostIn, NewPostOut, RequestFollow, User,
};
use ap_social::users::{ActorAddr, Lookup, LookupMany, NewUser, UserSize, Users};

/// A message between replicas of one kind of shard.
enum PeerMsg<T: PeeredInner> {
    Start,
    RequestPeers(RequestPeers),
    ReplyPeers(ReplyPeers),
    AnnouncePeer(AnnouncePeer),
    RequestBackfill(RequestBackfill<T::Request>),
    ReplyBackfill(ReplyBackfill<T::Backfill>),
}

/// Replicas of one kind of shard, with a FIFO of messages between them.
struct Group<T: PeeredInner> {
    replicas: BTreeMap<u64, Peered<T>>,
    queue: VecDeque<(PeerAddr, PeerMsg<T>)>,
}

impl<T: PeeredInner> Group<T> {
    fn new() -> Self {
        Group { replicas: BTreeMap::new(), queue: VecDeque::new() }
    }

    /// Starts a replica at `addr`, knowing `peers`.
    fn start(&mut self, addr: u64, inner: T, peers: &[u64]) {
        let mut p = Peered::new(inner);
        for q in peers {
            p = p.add_peer(PeerAddr(*q));
        }
        self.replicas.insert(addr, p);
        self.queue.push_back((PeerAddr(addr), PeerMsg::Start));
    }

    fn get(&self, addr: u64) -> &Peered<T> {
        self.replicas.get(&addr).unwrap()
    }

    fn get_mut(&mut self, addr: u64) -> &mut Peered<T> {
        self.replicas.get_mut(&addr).unwrap()
    }

    /// Delivers messages until none is left; returns how many backfill
    /// pages were taken in.
    fn settle(&mut self) -> usize {
        let mut pages = 0;
        while let Some((to, msg)) = self.queue.pop_front() {
            let me = to;
            let replica = self.replicas.get_mut(&to.0).unwrap();
            match msg {
                PeerMsg::Start => {
                    if let Some((first, rp, rb)) = replica.started(me) {
                        self.queue.push_back((first, PeerMsg::RequestPeers(rp)));
                        self.queue.push_back((first, PeerMsg::RequestBackfill(rb)));
                    }
                }
                PeerMsg::RequestPeers(m) => {
                    let (dest, reply) = replica.request_peers(m);
                    self.queue.push_back((dest, PeerMsg::ReplyPeers(reply)));
                }
                PeerMsg::ReplyPeers(m) => {
                    for (dest, a) in replica.reply_peers(me, m) {
                        self.queue.push_back((dest, PeerMsg::AnnouncePeer(a)));
                    }
                }
                PeerMsg::AnnouncePeer(m) => replica.announce_peer(m),
                PeerMsg::RequestBackfill(m) => {
                    let (dest, reply) = replica.request_backfill(m);
                    self.queue.push_back((dest, PeerMsg::ReplyBackfill(reply)));
                }
                PeerMsg::ReplyBackfill(m) => {
                    pages += 1;
                    if let Some((dest, next)) = replica.reply_backfill(me, m) {
                        self.queue.push_back((dest, PeerMsg::RequestBackfill(next)));
                    }
                }
            }
        }
        pages
    }
}

/// An event for a user's inbox.
enum InboxMsg {
    NewPostIn(NewPostIn),
    FollowRequest(FollowRequest),
    FollowRequestAccepted(FollowRequestAccepted),
    FollowRequestDenied(FollowRequestDenied),
    Blocked(Blocked),
}

/// A user's three actors.
struct Triad {
    user: User,
    inbox: Inbox,
    outbox: Outbox,
}

/// Posts, Users and Blocklists shards and every user's triad, run one
/// message at a time.
struct Cluster {
    posts: Group<Posts>,
    users: Group<Users>,
    blocklists: Group<Blocklists>,
    /// For each user, the Posts replica it writes to.
    home_posts: BTreeMap<UserId, u64>,
    triads: BTreeMap<UserId, Triad>,
    clock: u64,
}

const BLOCKLISTS: u64 = 100;

impl Cluster {
    fn new() -> Self {
        let mut c = Cluster {
            posts: Group::new(),
            users: Group::new(),
            blocklists: Group::new(),
            home_posts: BTreeMap::new(),
            triads: BTreeMap::new(),
            clock: 0,
        };
        c.blocklists.start(BLOCKLISTS, Blocklists::new(), &[]);
        c.blocklists.settle();
        c
    }

    fn settle(&mut self) {
        self.posts.settle();
        self.users.settle();
        self.blocklists.settle();
    }

    fn new_user(&mut self, users_at: u64) -> UserId {
        let posts_at = self.users.get(users_at).inner().posts().0;
        let shard = self.users.get_mut(users_at);
        let (res, announce) = shard.handle_message(Message::new(NewUser(PeerAddr(users_at), PeerAddr(BLOCKLISTS))));
        let user_id = res.unwrap();
        if let Some((peers, a)) = announce {
            for p in peers {
                let _ = self.users.get_mut(p.0).handle_announce(a.clone());
            }
        }
        self.home_posts.insert(user_id, posts_at);
        self.triads.insert(
            user_id,
            Triad { user: User::new(user_id), inbox: Inbox::new(PeerAddr(users_at)), outbox: Outbox::new(user_id) },
        );
        user_id
    }

    fn lookup(&mut self, users_at: u64, user_id: UserId) -> Result<ap_social::users::UserAddress, ()> {
        self.users.get_mut(users_at).handle_message(Message::new(Lookup(user_id))).0
    }

    fn can_speak(&mut self, a: UserId, b: UserId) -> bool {
        self.blocklists.get_mut(BLOCKLISTS).handle_message(Message::new(CanSpeak(a, b))).0.unwrap()
    }

    fn deliver(&mut self, to: ActorAddr, msg: InboxMsg) {
        let owner = match to {
            ActorAddr::Inbox(u) => u,
            _ => panic!("not an inbox"),
        };
        match msg {
            InboxMsg::NewPostIn(m) => {
                let user = &mut self.triads.get_mut(&owner).unwrap().user;
                user.new_post(m.0, m.1, &m.2);
            }
            InboxMsg::FollowRequest(m) => self.triads.get_mut(&owner).unwrap().user.follow_request(m.0),
            InboxMsg::FollowRequestAccepted(m) => {
                self.triads.get_mut(&owner).unwrap().user.follow_request_accepted(m.0)
            }
            InboxMsg::FollowRequestDenied(m) => {
                self.triads.get_mut(&owner).unwrap().user.follow_request_denied(m.0)
            }
            InboxMsg::Blocked(m) => {
                let (fwd, (users_at, lookup)) = self.triads.get(&owner).unwrap().inbox.blocked(m);
                self.triads.get_mut(&owner).unwrap().user.blocked_by(fwd.0);
                let found = self.lookup(users_at.0, lookup.0);
                if let Some((ActorAddr::User(blocker), _)) = Inbox::blocker_found(found) {
                    let ids = Ok(self.triads.get(&blocker).unwrap().user.get_10_user_post_ids());
                    for d in Inbox::blocker_posts(ids) {
                        self.triads.get_mut(&owner).unwrap().user.delete_post(d.0);
                    }
                }
            }
        }
    }

    fn dispatch_message(&mut self, users_at: u64, source: UserId, target: UserId, msg: InboxMsg) {
        let dispatch = Dispatch::new(PeerAddr(users_at), PeerAddr(BLOCKLISTS));
        let ((_, lookup), (_, cs)) = dispatch.message_queries(source, target);
        let found = self.lookup(users_at, lookup.0);
        let speak = self.blocklists.get_mut(BLOCKLISTS).handle_message(Message::new(cs)).0;
        if let Some(inbox) = Dispatch::message_delivery(found, speak) {
            self.deliver(inbox, msg);
        }
    }

    fn dispatch_announce(&mut self, users_at: u64, d: DispatchAnnounce<NewPostIn>) {
        let dispatch = Dispatch::new(PeerAddr(users_at), PeerAddr(BLOCKLISTS));
        let ((_, gb), (_, gbb)) = dispatch.announce_queries(d.1);
        let bl = self.blocklists.get_mut(BLOCKLISTS).handle_message(Message::new(gb)).0;
        let bb = self.blocklists.get_mut(BLOCKLISTS).handle_message(Message::new(gbb)).0;
        if let Some((_, lm)) = dispatch.announce_lookup(&d.2, bl, bb) {
            let found = self.users.get_mut(users_at).handle_message(Message::new(lm)).0;
            for inbox in Dispatch::announce_delivery(found) {
                self.deliver(inbox, InboxMsg::NewPostIn(d.0.clone()));
            }
        }
    }

    fn request_follow(&mut self, users_at: u64, from: UserId, to: UserId) {
        let t = self.triads.get_mut(&from).unwrap();
        if let Some((rf, dm)) = t.outbox.request_follow(RequestFollow(to)) {
            t.user.request_follow(rf.0);
            self.dispatch_message(users_at, dm.1, dm.2, InboxMsg::FollowRequest(dm.0));
        }
    }

    fn accept(&mut self, users_at: u64, me: UserId, other: UserId) {
        let t = self.triads.get_mut(&me).unwrap();
        let reply = t.user.accept_follow_request(other);
        if let Some(dm) = t.outbox.follow_request_accepted(AcceptFollowRequest(other), reply) {
            self.dispatch_message(users_at, dm.1, dm.2, InboxMsg::FollowRequestAccepted(dm.0));
        }
    }

    fn deny(&mut self, users_at: u64, me: UserId, other: UserId) {
        let t = self.triads.get_mut(&me).unwrap();
        let reply = t.user.deny_follow_request(other);
        if let Some(dm) = t.outbox.follow_request_denied(DenyFollowRequest(other), reply) {
            self.dispatch_message(users_at, dm.1, dm.2, InboxMsg::FollowRequestDenied(dm.0));
        }
    }

    fn post(&mut self, users_at: u64, author: UserId, mentions: Vec<UserId>) -> PostId {
        self.clock += 1;
        let posts_at = *self.home_posts.get(&author).unwrap();
        let msg = NewPostOut(mentions.clone());
        let t = self.triads.get(&author).unwrap();
        let (np, _): (NewPost, _) = t.outbox.new_post_out(&msg, self.clock);
        let (res, announce) = self.posts.get_mut(posts_at).handle_message(Message::new(np));
        if let Some((peers, a)) = announce {
            for p in peers {
                let _ = self.posts.get_mut(p.0).handle_announce(a.clone());
            }
        }
        let followers = Ok(t.user.followers());
        let (own, da) = t.outbox.post_created(&mentions, res, followers).unwrap();
        let post_id = own.0;
        self.triads.get_mut(&author).unwrap().user.new_post(own.0, own.1, &own.2);
        self.dispatch_announce(users_at, da);
        post_id
    }

    fn block(&mut self, users_at: u64, me: UserId, other: UserId) {
        let t = self.triads.get_mut(&me).unwrap();
        if let Some((bu, dm, b)) = t.outbox.block_user(BlockUser(other)) {
            t.user.block_user(bu.0);
            self.dispatch_message(users_at, dm.1, dm.2, InboxMsg::Blocked(dm.0));
            let (_, announce) = self.blocklists.get_mut(BLOCKLISTS).handle_message(Message::new(b));
            assert!(announce.is_some());
        }
    }

    fn post_ids(&self, u: UserId) -> Vec<PostId> {
        self.triads.get(&u).unwrap().user.get_10_post_ids()
    }

    fn user_post_ids(&self, u: UserId) -> Vec<PostId> {
        self.triads.get(&u).unwrap().user.get_10_user_post_ids()
    }
}

/// One Posts, one Users and one Blocklists replica, and three users.
fn with_users() -> (Cluster, Vec<UserId>) {
    let mut c = Cluster::new();
    c.posts.start(0, Posts::new(Id(0)), &[]);
    c.users.start(10, Users::new(Id(0), PeerAddr(0)), &[]);
    c.settle();
    let ids: Vec<UserId> = (0..3).map(|_| c.new_user(10)).collect();
    for u in &ids {
        assert!(c.lookup(10, *u).is_ok());
    }
    (c, ids)
}

#[test]
fn peered_users_can_iteract() {
    let mut c = Cluster::new();
    c.posts.start(0, Posts::new(Id(0)), &[]);
    c.posts.start(1, Posts::new(Id(1)), &[0]);
    c.users.start(10, Users::new(Id(0), PeerAddr(0)), &[]);
    c.users.start(11, Users::new(Id(1), PeerAddr(1)), &[10]);
    c.settle();

    let uid1 = c.new_user(10);
    let uid2 = c.new_user(11);
    let ids_vec = vec![uid1, uid2];

    let (addrs_vec, missing) =
        c.users.get_mut(10).handle_message(Message::new(LookupMany(ids_vec.clone()))).0.unwrap();
    assert_eq!(addrs_vec.len(), 2);
    assert!(missing.is_empty());

    // user 0 requests to follow user 1, who accepts
    c.request_follow(10, ids_vec[0], ids_vec[1]);
    c.accept(10, ids_vec[1], ids_vec[0]);
    // user 1 makes a post
    c.post(11, ids_vec[1], vec![]);

    assert!(!c.user_post_ids(ids_vec[1]).is_empty());
    assert!(!c.post_ids(ids_vec[0]).is_empty());
    assert!(c.user_post_ids(ids_vec[0]).is_empty());
}

#[test]
fn users_and_posts_peering() {
    let mut c = Cluster::new();
    c.posts.start(0, Posts::new(Id(0)), &[]);
    c.posts.start(1, Posts::new(Id(1)), &[0]);
    c.posts.start(2, Posts::new(Id(2)), &[1]);
    c.users.start(10, Users::new(Id(0), PeerAddr(0)), &[]);
    c.users.start(11, Users::new(Id(1), PeerAddr(1)), &[10]);
    c.users.start(12, Users::new(Id(2), PeerAddr(1)), &[11]);
    c.settle();

    for p in [0, 1, 2] {
        assert_eq!(c.posts.get(p).peer_size(), 2);
        let (n, _) = c.posts.get_mut(p).handle_message(Message::new(PostSize));
        assert_eq!(n, Ok(0));
    }
    for u in [10, 11, 12] {
        assert_eq!(c.users.get(u).peer_size(), 2);
        let (n, _) = c.users.get_mut(u).handle_message(Message::new(UserSize));
        assert_eq!(n, Ok(0));
    }
    let _ = PeerSize;
}

#[test]
fn test_new_users() {
    let (c, ids) = with_users();
    assert_eq!(ids.len(), 3);
    assert_eq!(ids[0], UserId(Id(0), Id(0)));
    assert_eq!(ids[2], UserId(Id(0), Id(2)));
    assert_eq!(c.users.get(10).inner().size(), 3);
}

#[test]
fn test_blocked_user_doesnt_receive_post() {
    let (mut c, ids) = with_users();
    let (uid0, uid1) = (ids[0], ids[1]);

    c.request_follow(10, uid0, uid1);
    assert!(c.can_speak(uid0, uid1));
    c.accept(10, uid1, uid0);
    c.post(10, uid1, vec![]);
    assert!(!c.post_ids(uid0).is_empty());

    c.block(10, uid1, uid0);
    c.post(10, uid1, vec![]);

    assert_eq!(c.user_post_ids(uid1).len(), 2);
    assert!(c.post_ids(uid0).is_empty());
    assert!(!c.can_speak(uid0, uid1));
}

#[test]
fn test_no_follow_and_no_post_propagation() {
    let (mut c, ids) = with_users();
    c.request_follow(10, ids[0], ids[1]);
    c.deny(10, ids[1], ids[0]);
    c.post(10, ids[1], vec![]);

    assert!(!c.user_post_ids(ids[1]).is_empty());
    assert!(c.post_ids(ids[0]).is_empty());
    assert!(c.post_ids(ids[2]).is_empty());
}

#[test]
fn test_follow_and_post_propagation() {
    let (mut c, ids) = with_users();
    c.request_follow(10, ids[0], ids[1]);
    c.request_follow(10, ids[2], ids[1]);
    c.accept(10, ids[1], ids[0]);
    c.accept(10, ids[1], ids[2]);
    c.post(10, ids[1], vec![]);

    assert!(!c.user_post_ids(ids[1]).is_empty());
    assert!(!c.post_ids(ids[0]).is_empty());
    assert!(!c.post_ids(ids[2]).is_empty());
    assert!(c.user_post_ids(ids[0]).is_empty());
    assert!(c.user_post_ids(ids[2]).is_empty());
}

#[test]
fn mentions_bypass_following() {
    let (mut c, ids) = with_users();
    let (u0, u1) = (ids[0], ids[1]);
    let first = c.post(10, u1, vec![u0]);
    assert_eq!(c.post_ids(u0), vec![first]);

    c.block(10, u0, u1);
    let second = c.post(10, u1, vec![u0]);
    let feed = c.post_ids(u0);
    assert!(!feed.iter().any(|p| p.same_post(&second)));
}

#[test]
fn backfill_convergence() {
    let mut c = Cluster::new();
    c.posts.start(0, Posts::new(Id(0)), &[]);
    c.users.start(10, Users::new(Id(0), PeerAddr(0)), &[]);
    c.settle();
    let ids: Vec<UserId> = (0..250).map(|_| c.new_user(10)).collect();

    c.users.start(11, Users::new(Id(1), PeerAddr(0)), &[10]);
    let pages = c.users.settle();
    assert_eq!(pages, 3);

    let (n, _) = c.users.get_mut(11).handle_message(Message::new(UserSize));
    assert_eq!(n, Ok(250));
    for u in &ids {
        assert!(c.lookup(11, *u).is_ok());
    }
    assert_eq!(c.users.get(11).peer_size(), 1);
    assert_eq!(c.users.get(10).peer_size(), 1);
}

#[test]
fn replicas_agree_after_posts_and_deletes() {
    let mut c = Cluster::new();
    c.posts.start(0, Posts::new(Id(0)), &[]);
    c.posts.start(1, Posts::new(Id(1)), &[0]);
    c.users.start(10, Users::new(Id(0), PeerAddr(0)), &[]);
    c.settle();
    let u = c.new_user(10);
    let a = c.post(10, u, vec![]);
    let _b = c.post(10, u, vec![]);
    let (_, announce) =
        c.posts.get_mut(0).handle_message(Message::new(ap_social::posts::DeletePost(a)));
    for p in announce.unwrap().0 {
        let _ = c.posts.get_mut(p.0).handle_announce(ap_social::peered::Announce::new(ap_social::posts::DeletePost(a)));
    }
    for p in [0, 1] {
        assert_eq!(c.posts.get(p).inner().size(), 1);
        let (found, missing) = c.posts.get(p).inner().get_posts(vec![a]);
        assert!(found.is_empty());
        assert_eq!(missing.len(), 1);
    }
}
