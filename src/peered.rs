//! The peered shard: a replica of some inner state, the peers it knows, and
//! the protocol by which it joins a group, fills itself from a peer page by
//! page, and passes its own mutations on to every peer.
//!
//! Each handler takes one incoming message and returns the messages to send,
//! with the peer each goes to.
use vstd::prelude::*;

use core::marker::PhantomData;

verus! {

/// The address of a shard replica.
#[derive(Clone, Copy, Debug, PartialEq, Eq, Hash, Structural)]
pub struct PeerAddr(pub u64);

/// What a replica's inner state offers the protocol: paged backfill.
pub trait PeeredInner: Sized {
    /// The data that fills a replica, one page at a time.
    type Backfill;
    /// The cursor of a backfill.
    type Request;

    /// The state's own invariant.
    spec fn inv(&self) -> bool;

    /// `page` is what the state holds for the cursor `req`.
    spec fn is_backfill(&self, req: Self::Request, page: Self::Backfill) -> bool;

    /// The cursor of the first page.
    spec fn first_request(&self) -> Self::Request;

    /// Taking in `page` turns the state into `after`, and asks for the page
    /// at `next` (or for nothing more).
    spec fn backfill_step(&self, page: Self::Backfill, after: Self, next: Option<Self::Request>) -> bool;

    /// Reads the page for `req`.
    fn backfill(&self, req: Self::Request) -> (r: Self::Backfill)
        requires
            self.inv(),
        ensures
            self.is_backfill(req, r),
    ;

    /// The first cursor.
    fn backfill_init(&self) -> (r: Self::Request)
        ensures
            r == self.first_request(),
    ;

    /// Takes in a page; returns the cursor of the next page to ask for.
    fn handle_backfill(&mut self, backfill: Self::Backfill) -> (r: Option<Self::Request>)
        requires
            old(self).inv(),
        ensures
            final(self).inv(),
            old(self).backfill_step(backfill, *final(self), r),
    ;
}

/// A response, and the payload to announce to every peer, if any.
pub type HandleMessageType<I, E, B> = (Result<I, E>, Option<B>);

/// A local operation of kind `M` on the inner state.
pub trait HandleMessage<M>: PeeredInner {
    type Broadcast;
    type Item;
    type Error;

    /// Handling `message` turns the state into `after`, answers `response`,
    /// and announces `broadcast`.
    spec fn message_step(
        &self,
        message: M,
        after: Self,
        response: Result<Self::Item, Self::Error>,
        broadcast: Option<Self::Broadcast>,
    ) -> bool;

    /// Handles an incoming message, returning a response and an optional
    /// broadcast.
    fn handle_message(&mut self, message: M) -> (r: HandleMessageType<
        Self::Item,
        Self::Error,
        Self::Broadcast,
    >)
        requires
            old(self).inv(),
        ensures
            final(self).inv(),
            old(self).message_step(message, *final(self), r.0, r.1),
    ;
}

/// A mutation that a peer announced, applied to the inner state.
pub trait HandleAnnounce<B>: PeeredInner {
    type Item;
    type Error;

    /// Applying `broadcast` turns the state into `after` and answers
    /// `response`.
    spec fn announce_step(&self, broadcast: B, after: Self, response: Result<Self::Item, Self::Error>) -> bool;

    /// Handles an incoming broadcast, returning a response.
    fn handle_announce(&mut self, broadcast: B) -> (r: Result<Self::Item, Self::Error>)
        requires
            old(self).inv(),
        ensures
            final(self).inv(),
            old(self).announce_step(broadcast, *final(self), r),
    ;
}

/// A new replica introduces itself to the recipient.
#[derive(Clone, Copy, Debug, PartialEq, Eq, Structural)]
pub struct AnnouncePeer(pub PeerAddr);

/// The named replica asks for the recipient's peers.
#[derive(Clone, Copy, Debug, PartialEq, Eq, Structural)]
pub struct RequestPeers(pub PeerAddr);

/// The peers of the replica that answers.
#[derive(Clone, Debug)]
pub struct ReplyPeers(pub Vec<PeerAddr>);

/// The named replica asks for the page at a cursor.
#[derive(Clone, Copy, Debug)]
pub struct RequestBackfill<R>(pub PeerAddr, pub R);

/// A page of backfill.
#[derive(Clone, Debug)]
pub struct ReplyBackfill<B>(pub B);

/// Asks how many peers a replica knows.
#[derive(Clone, Copy, Debug)]
pub struct PeerSize;

/// A local operation for the inner state of a `Peered<T>`.
pub struct Message<T, M>(pub M, pub PhantomData<T>);

impl<T, M> Message<T, M> {
    pub fn new(message: M) -> (r: Self)
        ensures
            r.0 == message,
    {
        Message(message, PhantomData)
    }
}

/// A mutation that a peer passes on.
#[derive(Clone, Debug)]
pub struct Announce<B>(pub B);

impl<B> Announce<B> {
    pub fn new(broadcast: B) -> (r: Self)
        ensures
            r.0 == broadcast,
    {
        Announce(broadcast)
    }
}

/// The cursor after a page of `len` entries read at `offset`: the next page,
/// if this one was full.
pub open spec fn next_page(offset: usize, len: nat, page: usize) -> Option<usize> {
    if len == page && offset + page <= usize::MAX {
        Some((offset + page) as usize)
    } else {
        None
    }
}

/// `s` with each of `extra` appended that it does not hold yet, in order.
pub open spec fn merged(s: Seq<PeerAddr>, extra: Seq<PeerAddr>) -> Seq<PeerAddr>
    decreases extra.len(),
{
    if extra.len() == 0 {
        s
    } else {
        let m = merged(s, extra.drop_last());
        if m.contains(extra.last()) {
            m
        } else {
            m.push(extra.last())
        }
    }
}

/// A replica: its inner state and the peers it knows, without duplicates.
pub struct Peered<T: PeeredInner> {
    inner: T,
    peers: Vec<PeerAddr>,
}

impl<T: PeeredInner> Peered<T> {
    pub closed spec fn inner_state(&self) -> T {
        self.inner
    }

    pub closed spec fn peer_list(&self) -> Seq<PeerAddr> {
        self.peers@
    }

    pub open spec fn wf(&self) -> bool {
        self.inner_state().inv() && self.peer_list().no_duplicates()
    }

    pub fn new(inner: T) -> (r: Self)
        ensures
            r.inner_state() == inner,
            r.peer_list() == Seq::<PeerAddr>::empty(),
    {
        Peered { inner: inner, peers: Vec::new() }
    }

    /// The inner state.
    pub fn inner(&self) -> (r: &T)
        ensures
            *r == self.inner_state(),
    {
        &self.inner
    }

    /// The known peers, in the order they became known.
    pub fn peers(&self) -> (r: &Vec<PeerAddr>)
        ensures
            r@ == self.peer_list(),
    {
        &self.peers
    }

    fn knows(&self, peer: PeerAddr) -> (r: bool)
        ensures
            r == self.peer_list().contains(peer),
    {
        let mut i: usize = 0;
        while i < self.peers.len()
            invariant
                0 <= i <= self.peers.len(),
                forall|k: int| 0 <= k < i ==> self.peers@[k] != peer,
            decreases self.peers.len() - i,
        {
            if self.peers[i] == peer {
                return true;
            }
            i = i + 1;
        }
        false
    }

    fn remember(&mut self, peer: PeerAddr)
        requires
            old(self).peer_list().no_duplicates(),
        ensures
            final(self).peer_list() == merged(old(self).peer_list(), seq![peer]),
            final(self).peer_list() == if old(self).peer_list().contains(peer) {
                old(self).peer_list()
            } else {
                old(self).peer_list().push(peer)
            },
            final(self).peer_list().no_duplicates(),
            final(self).inner_state() == old(self).inner_state(),
    {
        assert(seq![peer].drop_last() =~= Seq::<PeerAddr>::empty());
        assert(merged(self.peers@, Seq::<PeerAddr>::empty()) == self.peers@);
        if !self.knows(peer) {
            self.peers.push(peer);
            proof {
                assert forall|a: int, b: int| 0 <= a < b < self.peers@.len() implies self.peers@[a] != self.peers@[b] by {
                    if b == self.peers@.len() - 1 {
                        assert(old(self).peer_list()[a] == self.peers@[a]);
                    } else {
                        assert(old(self).peer_list().no_duplicates());
                    }
                }
            }
        }
    }

    /// A builder step: the replica starts out knowing `peer`.
    pub fn add_peer(self, peer: PeerAddr) -> (r: Self)
        requires
            self.peer_list().no_duplicates(),
        ensures
            r.peer_list() == merged(self.peer_list(), seq![peer]),
            r.peer_list().no_duplicates(),
            r.inner_state() == self.inner_state(),
    {
        let mut r = self;
        r.remember(peer);
        r
    }

    /// How many peers the replica knows.
    pub fn peer_size(&self) -> (r: usize)
        ensures
            r == self.peer_list().len(),
    {
        self.peers.len()
    }

    /// On start, a replica that knows a peer asks the first one for its peers
    /// and for the first backfill page.
    pub fn started(&self, me: PeerAddr) -> (r: Option<(PeerAddr, RequestPeers, RequestBackfill<T::Request>)>)
        ensures
            self.peer_list().len() == 0 ==> r is None,
            self.peer_list().len() > 0 ==> (r matches Some(x) && x.0 == self.peer_list()[0] && x.1 == RequestPeers(
                me,
            ) && x.2.0 == me && x.2.1 == self.inner_state().first_request()),
    {
        if self.peers.len() == 0 {
            None
        } else {
            let first = self.peers[0];
            Some((first, RequestPeers(me), RequestBackfill(me, self.inner.backfill_init())))
        }
    }

    /// A new replica introduced itself: it becomes a peer.
    pub fn announce_peer(&mut self, msg: AnnouncePeer)
        requires
            old(self).wf(),
        ensures
            final(self).wf(),
            final(self).peer_list() == merged(old(self).peer_list(), seq![msg.0]),
            final(self).inner_state() == old(self).inner_state(),
    {
        self.remember(msg.0);
    }

    /// Answers the asking replica with the current peers, then takes it as a
    /// peer.
    pub fn request_peers(&mut self, msg: RequestPeers) -> (r: (PeerAddr, ReplyPeers))
        requires
            old(self).wf(),
        ensures
            final(self).wf(),
            r.0 == msg.0,
            r.1.0@ == old(self).peer_list(),
            final(self).peer_list() == merged(old(self).peer_list(), seq![msg.0]),
            final(self).inner_state() == old(self).inner_state(),
    {
        let mut list: Vec<PeerAddr> = Vec::new();
        let mut i: usize = 0;
        while i < self.peers.len()
            invariant
                0 <= i <= self.peers.len(),
                list@ == self.peers@.subrange(0, i as int),
            decreases self.peers.len() - i,
        {
            list.push(self.peers[i]);
            i = i + 1;
        }
        assert(list@ =~= self.peers@);
        self.remember(msg.0);
        (msg.0, ReplyPeers(list))
    }

    /// Introduces this replica to every peer of the list, then merges the
    /// list into its own peers.
    pub fn reply_peers(&mut self, me: PeerAddr, msg: ReplyPeers) -> (r: Vec<(PeerAddr, AnnouncePeer)>)
        requires
            old(self).wf(),
        ensures
            final(self).wf(),
            r@.len() == msg.0@.len(),
            forall|k: int| 0 <= k < r@.len() ==> #[trigger] r@[k] == (msg.0@[k], AnnouncePeer(me)),
            final(self).peer_list() == merged(old(self).peer_list(), msg.0@),
            final(self).inner_state() == old(self).inner_state(),
    {
        let list = msg.0;
        let mut out: Vec<(PeerAddr, AnnouncePeer)> = Vec::new();
        let mut i: usize = 0;
        while i < list.len()
            invariant
                0 <= i <= list.len(),
                self.wf(),
                self.inner_state() == old(self).inner_state(),
                self.peer_list() == merged(old(self).peer_list(), list@.subrange(0, i as int)),
                out@.len() == i,
                forall|k: int| 0 <= k < i ==> #[trigger] out@[k] == (list@[k], AnnouncePeer(me)),
            decreases list.len() - i,
        {
            let peer = list[i];
            out.push((peer, AnnouncePeer(me)));
            let ghost before = self.peer_list();
            self.remember(peer);
            proof {
                let sub = list@.subrange(0, i as int + 1);
                assert(sub.drop_last() =~= list@.subrange(0, i as int));
                assert(sub.last() == peer);
                assert(merged(old(self).peer_list(), sub) == if before.contains(peer) {
                    before
                } else {
                    before.push(peer)
                });
            }
            i = i + 1;
        }
        assert(list@.subrange(0, list@.len() as int) =~= list@);
        out
    }

    /// Answers a backfill request with the page at its cursor.
    pub fn request_backfill(&self, msg: RequestBackfill<T::Request>) -> (r: (PeerAddr, ReplyBackfill<T::Backfill>))
        requires
            self.wf(),
        ensures
            r.0 == msg.0,
            self.inner_state().is_backfill(msg.1, r.1.0),
    {
        let page = self.inner.backfill(msg.1);
        (msg.0, ReplyBackfill(page))
    }

    /// Takes in a page; asks the first peer for the next one, if the inner
    /// state wants more.
    pub fn reply_backfill(&mut self, me: PeerAddr, msg: ReplyBackfill<T::Backfill>) -> (r: Option<(PeerAddr, RequestBackfill<T::Request>)>)
        requires
            old(self).wf(),
        ensures
            final(self).wf(),
            final(self).peer_list() == old(self).peer_list(),
            exists|next: Option<T::Request>| {
                &&& #[trigger] old(self).inner_state().backfill_step(msg.0, final(self).inner_state(), next)
                &&& match next {
                    Some(req) => if old(self).peer_list().len() > 0 {
                        r matches Some(x) && x.0 == old(self).peer_list()[0] && x.1.0 == me && x.1.1 == req
                    } else {
                        r is None
                    },
                    _ => r is None,
                }
            },
    {
        let next = self.inner.handle_backfill(msg.0);
        let ghost g_next = next;
        let r = match next {
            Some(req) => {
                if self.peers.len() > 0 {
                    let first = self.peers[0];
                    Some((first, RequestBackfill(me, req)))
                } else {
                    None
                }
            },
            None => None,
        };
        assert(old(self).inner_state().backfill_step(msg.0, self.inner_state(), g_next));
        r
    }

    /// Handles a local operation; a broadcast that comes of it is announced
    /// to every peer.
    pub fn handle_message<M>(&mut self, msg: Message<T, M>) -> (r: (
        Result<<T as HandleMessage<M>>::Item, <T as HandleMessage<M>>::Error>,
        Option<(Vec<PeerAddr>, Announce<<T as HandleMessage<M>>::Broadcast>)>,
    )) where T: HandleMessage<M>
        requires
            old(self).wf(),
        ensures
            final(self).wf(),
            final(self).peer_list() == old(self).peer_list(),
            exists|b: Option<<T as HandleMessage<M>>::Broadcast>| {
                &&& #[trigger] old(self).inner_state().message_step(msg.0, final(self).inner_state(), r.0, b)
                &&& match b {
                    Some(x) => r.1 matches Some(out) && out.0@ == old(self).peer_list() && out.1.0 == x,
                    None => r.1 is None,
                }
            },
    {
        let (response, broadcast) = self.inner.handle_message(msg.0);
        let ghost g_b = broadcast;
        let ghost g_resp = response;
        let r = match broadcast {
            Some(b) => {
                let mut to: Vec<PeerAddr> = Vec::new();
                let mut i: usize = 0;
                while i < self.peers.len()
                    invariant
                        0 <= i <= self.peers.len(),
                        to@ == self.peers@.subrange(0, i as int),
                    decreases self.peers.len() - i,
                {
                    to.push(self.peers[i]);
                    i = i + 1;
                }
                assert(to@ =~= self.peers@);
                (response, Some((to, Announce::new(b))))
            },
            None => (response, None),
        };
        assert(r.0 == g_resp);
        assert(old(self).inner_state().message_step(msg.0, self.inner_state(), r.0, g_b));
        r
    }

    /// Applies a mutation that a peer announced.
    pub fn handle_announce<B>(&mut self, msg: Announce<B>) -> (r: Result<(), ()>) where T: HandleAnnounce<B>
        requires
            old(self).wf(),
        ensures
            final(self).wf(),
            final(self).peer_list() == old(self).peer_list(),
            r is Ok,
            exists|res: Result<<T as HandleAnnounce<B>>::Item, <T as HandleAnnounce<B>>::Error>|
                #[trigger] old(self).inner_state().announce_step(msg.0, final(self).inner_state(), res),
    {
        let res = self.inner.handle_announce(msg.0);
        assert(old(self).inner_state().announce_step(msg.0, self.inner_state(), res));
        Ok(())
    }
}

} // verus!
