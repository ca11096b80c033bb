//! The Blocklists shard: who blocks whom, indexed both ways.
use vstd::prelude::*;

use crate::ids::UserId;
use crate::peered::{next_page, HandleAnnounce, HandleMessage, HandleMessageType, PeeredInner};
use crate::user_set::{contains_user, copy_users, insert_user, remove_user, set_of};

verus! {

/// How many blockers one backfill page carries.
pub const BLOCKLIST_PAGE: usize = 10;

/// `Block(acting_user, blocked_user)`
#[derive(Clone, Copy, Debug, PartialEq, Eq, Structural)]
pub struct Block(pub UserId, pub UserId);

/// `Unblock(acting_user, blocked_user)`
#[derive(Clone, Copy, Debug, PartialEq, Eq, Structural)]
pub struct Unblock(pub UserId, pub UserId);

/// Asks for the users the named user blocks.
#[derive(Clone, Copy, Debug, PartialEq, Eq, Structural)]
pub struct GetBlocklist(pub UserId);

/// Asks for the users that block the named user.
#[derive(Clone, Copy, Debug, PartialEq, Eq, Structural)]
pub struct GetBlockedBy(pub UserId);

/// Asks whether neither of two users blocks the other.
#[derive(Clone, Copy, Debug, PartialEq, Eq, Structural)]
pub struct CanSpeak(pub UserId, pub UserId);

/// One stored set: a user and the users it is related to.
pub type IndexEntry = (UserId, Vec<UserId>);

/// Entry `i` relates `a` to `b`.
pub open spec fn entry_holds(s: Seq<IndexEntry>, i: int, a: UserId, b: UserId) -> bool {
    0 <= i < s.len() && s[i].0 == a && s[i].1@.contains(b)
}

/// The pairs `(a, b)` that the entries relate.
pub open spec fn pairs_of(s: Seq<IndexEntry>) -> Set<(UserId, UserId)> {
    Set::new(|p: (UserId, UserId)| exists|i: int| #[trigger] entry_holds(s, i, p.0, p.1))
}

/// The users that `a` is related to.
pub open spec fn image(r: Set<(UserId, UserId)>, a: UserId) -> Set<UserId> {
    Set::new(|b: UserId| r.contains((a, b)))
}

/// The users related to `b`.
pub open spec fn preimage(r: Set<(UserId, UserId)>, b: UserId) -> Set<UserId> {
    Set::new(|a: UserId| r.contains((a, b)))
}

/// A map from users to non-empty sets of users, held as a vector of entries
/// with distinct keys.
pub struct BlockIndex {
    entries: Vec<IndexEntry>,
}

impl View for BlockIndex {
    type V = Set<(UserId, UserId)>;

    closed spec fn view(&self) -> Set<(UserId, UserId)> {
        pairs_of(self.entries@)
    }
}

impl BlockIndex {
    pub closed spec fn wf(&self) -> bool {
        &&& forall|i: int, j: int|
            0 <= i < self.entries@.len() && 0 <= j < self.entries@.len() && i != j
                ==> (#[trigger] self.entries@[i]).0 != (#[trigger] self.entries@[j]).0
        &&& forall|i: int|
            0 <= i < self.entries@.len() ==> (#[trigger] self.entries@[i]).1@.no_duplicates()
                && self.entries@[i].1@.len() > 0
    }

    /// The stored entries, in storage order.
    pub closed spec fn entries(&self) -> Seq<IndexEntry> {
        self.entries@
    }

    pub fn new() -> (r: Self)
        ensures
            r.wf(),
            r@ == Set::<(UserId, UserId)>::empty(),
            r.entries().len() == 0,
    {
        let r = BlockIndex { entries: Vec::new() };
        assert(r@ =~= Set::<(UserId, UserId)>::empty());
        r
    }

    fn find(&self, a: UserId) -> (r: Option<usize>)
        ensures
            r is None ==> forall|i: int| 0 <= i < self.entries@.len() ==> (#[trigger] self.entries@[i]).0 != a,
            r matches Some(i) ==> i < self.entries@.len() && self.entries@[i as int].0 == a,
    {
        let mut i: usize = 0;
        while i < self.entries.len()
            invariant
                0 <= i <= self.entries.len(),
                forall|k: int| 0 <= k < i ==> (#[trigger] self.entries@[k]).0 != a,
            decreases self.entries.len() - i,
        {
            if self.entries[i].0 == a {
                return Some(i);
            }
            i = i + 1;
        }
        None
    }

    /// Relates `a` to `b`.
    pub fn add(&mut self, a: UserId, b: UserId)
        requires
            old(self).wf(),
        ensures
            final(self).wf(),
            final(self)@ == old(self)@.insert((a, b)),
    {
        let ghost before = self.entries@;
        match self.find(a) {
            Some(i) => {
                proof {
                    assert(self.entries@[i as int].1@.no_duplicates());
                }
                insert_user(&mut self.entries[i].1, b);
                proof {
                    assert forall|k: int| 0 <= k < before.len() && k != i implies self.entries@[k] == before[k] by {}
                    assert(set_of(self.entries@[i as int].1@).contains(b));
                    assert forall|p: (UserId, UserId)| #[trigger] pairs_of(self.entries@).contains(p) <==> pairs_of(before).insert((a, b)).contains(p) by {
                        if pairs_of(self.entries@).contains(p) {
                            let k = choose|k: int| #[trigger] entry_holds(self.entries@, k, p.0, p.1);
                            if k == i && p != (a, b) {
                                assert(set_of(self.entries@[k].1@).contains(p.1));
                                assert(set_of(before[k].1@).contains(p.1));
                                assert(entry_holds(before, k, p.0, p.1));
                            } else if k != i {
                                assert(entry_holds(before, k, p.0, p.1));
                            }
                        }
                        if pairs_of(before).contains(p) {
                            let k = choose|k: int| #[trigger] entry_holds(before, k, p.0, p.1);
                            if k == i {
                                assert(set_of(before[k].1@).contains(p.1));
                                assert(set_of(self.entries@[k].1@).contains(p.1));
                            }
                            assert(entry_holds(self.entries@, k, p.0, p.1));
                        }
                        if p == (a, b) {
                            assert(entry_holds(self.entries@, i as int, a, b));
                        }
                    }
                    assert(pairs_of(self.entries@) =~= pairs_of(before).insert((a, b)));
                }
            },
            None => {
                let mut v: Vec<UserId> = Vec::new();
                v.push(b);
                self.entries.push((a, v));
                proof {
                    let n = before.len() as int;
                    assert(self.entries@[n].1@ =~= seq![b]);
                    assert(self.entries@[n].1@[0] == b);
                    assert forall|k: int| 0 <= k < n implies self.entries@[k] == before[k] by {}
                    assert forall|p: (UserId, UserId)| #[trigger] pairs_of(self.entries@).contains(p) implies pairs_of(before).insert((a, b)).contains(p) by {
                        let k = choose|k: int| #[trigger] entry_holds(self.entries@, k, p.0, p.1);
                        if k < n {
                            assert(entry_holds(before, k, p.0, p.1));
                        } else {
                            let j = choose|j: int| 0 <= j < self.entries@[n].1@.len() && self.entries@[n].1@[j] == p.1;
                            assert(p == (a, b));
                        }
                    }
                    assert forall|p: (UserId, UserId)| #[trigger] pairs_of(before).insert((a, b)).contains(p) implies pairs_of(self.entries@).contains(p) by {
                        if p == (a, b) {
                            assert(self.entries@[n].1@.contains(b));
                            assert(entry_holds(self.entries@, n, p.0, p.1));
                        } else {
                            let k = choose|k: int| #[trigger] entry_holds(before, k, p.0, p.1);
                            assert(entry_holds(self.entries@, k, p.0, p.1));
                        }
                    }
                    assert(pairs_of(self.entries@) =~= pairs_of(before).insert((a, b)));
                }
            },
        }
    }

    /// No longer relates `a` to `b`; an entry left empty is dropped.
    pub fn remove(&mut self, a: UserId, b: UserId)
        requires
            old(self).wf(),
        ensures
            final(self).wf(),
            final(self)@ == old(self)@.remove((a, b)),
    {
        let ghost before = self.entries@;
        match self.find(a) {
            Some(i) => {
                proof {
                    assert(self.entries@[i as int].1@.no_duplicates());
                }
                remove_user(&mut self.entries[i].1, b);
                let ghost mid = self.entries@;
                proof {
                    assert forall|k: int| 0 <= k < before.len() && k != i implies mid[k] == before[k] by {}
                    assert forall|x: UserId| #[trigger] mid[i as int].1@.contains(x) <==> before[i as int].1@.contains(x) && x != b by {
                        assert(set_of(mid[i as int].1@).contains(x) == mid[i as int].1@.contains(x));
                        assert(set_of(before[i as int].1@).contains(x) == before[i as int].1@.contains(x));
                    }
                }
                let empty = self.entries[i].1.len() == 0;
                if empty {
                    self.entries.remove(i);
                }
                proof {
                    let s = self.entries@;
                    // the new position of old entry k
                    assert forall|p: (UserId, UserId)| #[trigger] pairs_of(s).contains(p) <==> pairs_of(before).remove((a, b)).contains(p) by {
                        if pairs_of(s).contains(p) {
                            let k = choose|k: int| #[trigger] entry_holds(s, k, p.0, p.1);
                            let k1 = if empty && k >= i { k + 1 } else { k };
                            assert(s[k] == mid[k1]);
                            if k1 == i {
                                assert(entry_holds(before, k1, p.0, p.1));
                            } else {
                                assert(entry_holds(before, k1, p.0, p.1));
                                assert(before[k1].0 != before[i as int].0);
                            }
                        }
                        if pairs_of(before).contains(p) && p != (a, b) {
                            let k = choose|k: int| #[trigger] entry_holds(before, k, p.0, p.1);
                            if k == i {
                                assert(mid[k].1@.contains(p.1));
                                assert(!empty);
                                assert(entry_holds(s, k, p.0, p.1));
                            } else if empty && k > i {
                                assert(s[k - 1] == mid[k]);
                                assert(entry_holds(s, k - 1, p.0, p.1));
                            } else {
                                assert(entry_holds(s, k, p.0, p.1));
                            }
                        }
                    }
                    assert(pairs_of(s) =~= pairs_of(before).remove((a, b)));
                    assert forall|x: int, y: int| 0 <= x < s.len() && 0 <= y < s.len() && x != y implies (#[trigger] s[x]).0 != (#[trigger] s[y]).0 by {
                        let x1 = if empty && x >= i { x + 1 } else { x };
                        let y1 = if empty && y >= i { y + 1 } else { y };
                        assert(s[x] == mid[x1] && s[y] == mid[y1]);
                    }
                    assert forall|x: int| 0 <= x < s.len() implies (#[trigger] s[x]).1@.no_duplicates() && s[x].1@.len() > 0 by {
                        let x1 = if empty && x >= i { x + 1 } else { x };
                        assert(s[x] == mid[x1]);
                    }
                }
            },
            None => {
                proof {
                    assert forall|p: (UserId, UserId)| #[trigger] pairs_of(before).contains(p) implies p != (a, b) by {
                        let k = choose|k: int| #[trigger] entry_holds(before, k, p.0, p.1);
                    }
                    assert(pairs_of(before) =~= pairs_of(before).remove((a, b)));
                }
            },
        }
    }

    /// The users that `a` is related to.
    pub fn get(&self, a: UserId) -> (r: Vec<UserId>)
        requires
            self.wf(),
        ensures
            set_of(r@) == image(self@, a),
    {
        match self.find(a) {
            Some(i) => {
                let r = copy_users(&self.entries[i].1);
                proof {
                    assert forall|b: UserId| #[trigger] image(self@, a).contains(b) <==> set_of(r@).contains(b) by {
                        if image(self@, a).contains(b) {
                            assert(pairs_of(self.entries@).contains((a, b)));
                            let k = choose|k: int| #[trigger] entry_holds(self.entries@, k, (a, b).0, (a, b).1);
                            assert(k == i);
                            assert(r@.contains(b));
                        }
                        if set_of(r@).contains(b) {
                            assert(r@.contains(b));
                            assert(entry_holds(self.entries@, i as int, (a, b).0, (a, b).1));
                            assert(pairs_of(self.entries@).contains((a, b)));
                        }
                    }
                    assert(set_of(r@) =~= image(self@, a));
                }
                r
            },
            None => {
                proof {
                    assert forall|b: UserId| !(#[trigger] image(self@, a).contains(b)) by {
                        if image(self@, a).contains(b) {
                            let k = choose|k: int| #[trigger] entry_holds(self.entries@, k, a, b);
                        }
                    }
                    assert(set_of(Seq::<UserId>::empty()) =~= image(self@, a));
                }
                Vec::new()
            },
        }
    }

    /// Whether `a` is related to `b`.
    pub fn holds(&self, a: UserId, b: UserId) -> (r: bool)
        requires
            self.wf(),
        ensures
            r == self@.contains((a, b)),
    {
        match self.find(a) {
            Some(i) => {
                let r = contains_user(&self.entries[i].1, b);
                proof {
                    if self@.contains((a, b)) {
                        let k = choose|k: int| #[trigger] entry_holds(self.entries@, k, (a, b).0, (a, b).1);
                        assert(k == i);
                    }
                    if r {
                        assert(entry_holds(self.entries@, i as int, (a, b).0, (a, b).1));
                    }
                }
                r
            },
            None => {
                proof {
                    if self@.contains((a, b)) {
                        let k = choose|k: int| #[trigger] entry_holds(self.entries@, k, a, b);
                    }
                }
                false
            },
        }
    }

    /// Copies of at most `count` entries, starting at entry `offset`.
    pub fn page(&self, offset: usize, count: usize) -> (r: Vec<IndexEntry>)
        ensures
            r@.len() == if offset >= self.entries().len() { 0 } else { vstd::math::min(
                count as int,
                self.entries().len() - offset,
            ) },
            forall|k: int|
                0 <= k < r@.len() ==> (#[trigger] r@[k]).0 == self.entries()[offset + k].0 && r@[k].1@
                    == self.entries()[offset + k].1@,
    {
        let mut r: Vec<IndexEntry> = Vec::new();
        let mut i: usize = offset;
        while i < self.entries.len() && r.len() < count
            invariant
                offset <= i,
                i <= self.entries.len() || i == offset,
                r@.len() == i - offset,
                r@.len() <= count,
                forall|k: int|
                    0 <= k < r@.len() ==> (#[trigger] r@[k]).0 == self.entries@[offset + k].0 && r@[k].1@
                        == self.entries@[offset + k].1@,
            decreases self.entries.len() - i,
        {
            let e = &self.entries[i];
            r.push((e.0, copy_users(&e.1)));
            i = i + 1;
        }
        r
    }
}

/// The Blocklists shard's state: for each user, the users it blocks
/// (`lists`) and the users that block it (`inverses`). A user whose set
/// would be empty has no entry.
pub struct Blocklists {
    lists: BlockIndex,
    inverses: BlockIndex,
}

/// The pairs `(a, b)` such that `a` blocks `b`.
impl View for Blocklists {
    type V = Set<(UserId, UserId)>;

    closed spec fn view(&self) -> Set<(UserId, UserId)> {
        self.lists@
    }
}

/// Neither user blocks the other.
pub open spec fn may_speak(r: Set<(UserId, UserId)>, a: UserId, b: UserId) -> bool {
    !r.contains((a, b)) && !r.contains((b, a))
}

/// `page` holds copies of the entries of `s` from `offset` on, at most
/// `count` of them.
pub open spec fn is_page_of(s: Seq<IndexEntry>, offset: usize, count: usize, page: Seq<IndexEntry>) -> bool {
    &&& page.len() == if offset >= s.len() { 0 } else { vstd::math::min(count as int, s.len() - offset) }
    &&& forall|k: int|
        0 <= k < page.len() ==> (#[trigger] page[k]).0 == s[offset + k].0 && page[k].1@ == s[offset + k].1@
}

impl Blocklists {
    pub closed spec fn wf(&self) -> bool {
        &&& self.lists.wf()
        &&& self.inverses.wf()
        &&& forall|a: UserId, b: UserId| #[trigger] self.inverses@.contains((b, a)) <==> self.lists@.contains((a, b))
    }

    /// The stored entries of `lists`, in the order backfill pages them.
    pub closed spec fn entries(&self) -> Seq<IndexEntry> {
        self.lists.entries()
    }

    /// The entries of `lists` spell out who blocks whom.
    pub proof fn lemma_entries(&self)
        ensures
            self@ == pairs_of(self.entries()),
    {
    }

    pub fn new() -> (r: Self)
        ensures
            r.wf(),
            r@ == Set::<(UserId, UserId)>::empty(),
    {
        let r = Blocklists { lists: BlockIndex::new(), inverses: BlockIndex::new() };
        r
    }

    /// `active_user` blocks `blocked_user`.
    pub fn block_user(&mut self, active_user: UserId, blocked_user: UserId)
        requires
            old(self).wf(),
        ensures
            final(self).wf(),
            final(self)@ == old(self)@.insert((active_user, blocked_user)),
    {
        self.lists.add(active_user, blocked_user);
        self.inverses.add(blocked_user, active_user);
    }

    /// `active_user` no longer blocks `unblocked_user`; a set left empty
    /// loses its entry.
    pub fn unblock_user(&mut self, active_user: UserId, unblocked_user: UserId)
        requires
            old(self).wf(),
        ensures
            final(self).wf(),
            final(self)@ == old(self)@.remove((active_user, unblocked_user)),
    {
        self.lists.remove(active_user, unblocked_user);
        self.inverses.remove(unblocked_user, active_user);
    }

    /// The users `user_id` blocks.
    pub fn get_blocked_users(&self, user_id: UserId) -> (r: Vec<UserId>)
        requires
            self.wf(),
        ensures
            set_of(r@) == image(self@, user_id),
    {
        self.lists.get(user_id)
    }

    /// The users that block `user_id`.
    pub fn is_blocked_by(&self, user_id: UserId) -> (r: Vec<UserId>)
        requires
            self.wf(),
        ensures
            set_of(r@) == preimage(self@, user_id),
    {
        let r = self.inverses.get(user_id);
        assert(image(self.inverses@, user_id) =~= preimage(self@, user_id));
        r
    }

    /// Whether neither user blocks the other.
    pub fn can_interact(&self, user_1: UserId, user_2: UserId) -> (r: bool)
        requires
            self.wf(),
        ensures
            r == may_speak(self@, user_1, user_2),
    {
        let one_blocks_two = self.lists.holds(user_1, user_2);
        let two_blocks_one = self.lists.holds(user_2, user_1);
        !(one_blocks_two || two_blocks_one)
    }

    /// Blocks every pair that the entries relate.
    fn merge_entries(&mut self, entries: Vec<IndexEntry>)
        requires
            old(self).wf(),
        ensures
            final(self).wf(),
            final(self)@ == old(self)@.union(pairs_of(entries@)),
    {
        let mut i: usize = 0;
        while i < entries.len()
            invariant
                0 <= i <= entries.len(),
                self.wf(),
                self@ == old(self)@.union(pairs_of(entries@.subrange(0, i as int))),
            decreases entries.len() - i,
        {
            let user = entries[i].0;
            let list = &entries[i].1;
            let ghost base = self@;
            let mut j: usize = 0;
            while j < list.len()
                invariant
                    0 <= j <= list.len(),
                    self.wf(),
                    self@ == base.union(Set::new(|p: (UserId, UserId)| p.0 == user && exists|k: int| 0 <= k < j && list@[k] == p.1)),
                decreases list.len() - j,
            {
                let ghost before = self@;
                self.block_user(user, list[j]);
                assert(self@ =~= base.union(Set::new(|p: (UserId, UserId)| p.0 == user && exists|k: int| 0 <= k < j + 1 && list@[k] == p.1))) by {
                    assert forall|p: (UserId, UserId)| (p.0 == user && exists|k: int| 0 <= k < j + 1 && list@[k] == p.1) implies #[trigger] self@.contains(p) by {
                        let k = choose|k: int| 0 <= k < j + 1 && list@[k] == p.1;
                        if k < j {
                            assert(before.contains(p));
                        }
                    }
                }
                j = j + 1;
            }
            proof {
                let pre = entries@.subrange(0, i as int);
                let post = entries@.subrange(0, i as int + 1);
                assert(self@ =~= old(self)@.union(pairs_of(post))) by {
                    assert forall|p: (UserId, UserId)| #[trigger] pairs_of(post).contains(p) implies self@.contains(p) by {
                        let k = choose|k: int| #[trigger] entry_holds(post, k, p.0, p.1);
                        if k < i {
                            assert(entry_holds(pre, k, p.0, p.1));
                        } else {
                            let m = choose|m: int| 0 <= m < list@.len() && list@[m] == p.1;
                            assert(p.0 == user);
                        }
                    }
                    assert forall|p: (UserId, UserId)| #[trigger] pairs_of(pre).contains(p) implies pairs_of(post).contains(p) by {
                        let k = choose|k: int| #[trigger] entry_holds(pre, k, p.0, p.1);
                        assert(entry_holds(post, k, p.0, p.1));
                    }
                    assert forall|p: (UserId, UserId)| self@.contains(p) && !old(self)@.contains(p) && !pairs_of(pre).contains(p) implies #[trigger] pairs_of(post).contains(p) by {
                        let m = choose|m: int| 0 <= m < j && list@[m] == p.1;
                        assert(list@.contains(p.1));
                        assert(entry_holds(post, i as int, p.0, p.1));
                    }
                }
            }
            i = i + 1;
        }
        assert(entries@.subrange(0, entries@.len() as int) =~= entries@);
    }
}

impl Default for Blocklists {
    fn default() -> (r: Self)
        ensures
            r.wf(),
            r@ == Set::<(UserId, UserId)>::empty(),
    {
        Blocklists::new()
    }
}

impl PeeredInner for Blocklists {
    /// A cursor, and the entries of `lists` from it on.
    type Backfill = (usize, Vec<IndexEntry>);
    type Request = usize;

    open spec fn inv(&self) -> bool {
        self.wf()
    }

    open spec fn is_backfill(&self, req: usize, page: (usize, Vec<IndexEntry>)) -> bool {
        page.0 == req && is_page_of(self.entries(), req, BLOCKLIST_PAGE, page.1@)
    }

    open spec fn first_request(&self) -> usize {
        0
    }

    open spec fn backfill_step(&self, page: (usize, Vec<IndexEntry>), after: Self, next: Option<usize>) -> bool {
        &&& after@ == self@.union(pairs_of(page.1@))
        &&& next == next_page(page.0, page.1@.len(), BLOCKLIST_PAGE)
    }

    fn backfill(&self, req: usize) -> (r: (usize, Vec<IndexEntry>)) {
        (req, self.lists.page(req, BLOCKLIST_PAGE))
    }

    fn backfill_init(&self) -> (r: usize) {
        0
    }

    fn handle_backfill(&mut self, backfill: (usize, Vec<IndexEntry>)) -> (r: Option<usize>) {
        let (offset, entries) = backfill;
        let ret = if entries.len() == BLOCKLIST_PAGE && offset <= usize::MAX - BLOCKLIST_PAGE {
            Some(offset + BLOCKLIST_PAGE)
        } else {
            None
        };
        self.merge_entries(entries);
        ret
    }
}

impl HandleMessage<Block> for Blocklists {
    type Broadcast = Block;
    type Item = ();
    type Error = ();

    open spec fn message_step(&self, m: Block, after: Self, response: Result<(), ()>, broadcast: Option<Block>) -> bool {
        after@ == self@.insert((m.0, m.1)) && response == Ok::<(), ()>(()) && broadcast == Some(m)
    }

    fn handle_message(&mut self, msg: Block) -> (r: HandleMessageType<(), (), Block>) {
        self.block_user(msg.0, msg.1);
        (Ok(()), Some(msg))
    }
}

impl HandleMessage<Unblock> for Blocklists {
    type Broadcast = Unblock;
    type Item = ();
    type Error = ();

    open spec fn message_step(&self, m: Unblock, after: Self, response: Result<(), ()>, broadcast: Option<Unblock>) -> bool {
        after@ == self@.remove((m.0, m.1)) && response == Ok::<(), ()>(()) && broadcast == Some(m)
    }

    fn handle_message(&mut self, msg: Unblock) -> (r: HandleMessageType<(), (), Unblock>) {
        self.unblock_user(msg.0, msg.1);
        (Ok(()), Some(msg))
    }
}

impl HandleMessage<GetBlocklist> for Blocklists {
    type Broadcast = ();
    type Item = Vec<UserId>;
    type Error = ();

    open spec fn message_step(&self, m: GetBlocklist, after: Self, response: Result<Vec<UserId>, ()>, broadcast: Option<()>) -> bool {
        &&& after == *self
        &&& broadcast is None
        &&& response matches Ok(v) && set_of(v@) == image(self@, m.0)
    }

    fn handle_message(&mut self, msg: GetBlocklist) -> (r: HandleMessageType<Vec<UserId>, (), ()>) {
        (Ok(self.get_blocked_users(msg.0)), None)
    }
}

impl HandleMessage<GetBlockedBy> for Blocklists {
    type Broadcast = ();
    type Item = Vec<UserId>;
    type Error = ();

    open spec fn message_step(&self, m: GetBlockedBy, after: Self, response: Result<Vec<UserId>, ()>, broadcast: Option<()>) -> bool {
        &&& after == *self
        &&& broadcast is None
        &&& response matches Ok(v) && set_of(v@) == preimage(self@, m.0)
    }

    fn handle_message(&mut self, msg: GetBlockedBy) -> (r: HandleMessageType<Vec<UserId>, (), ()>) {
        (Ok(self.is_blocked_by(msg.0)), None)
    }
}

impl HandleMessage<CanSpeak> for Blocklists {
    type Broadcast = ();
    type Item = bool;
    type Error = ();

    open spec fn message_step(&self, m: CanSpeak, after: Self, response: Result<bool, ()>, broadcast: Option<()>) -> bool {
        after == *self && broadcast is None && response == Ok::<bool, ()>(may_speak(self@, m.0, m.1))
    }

    fn handle_message(&mut self, msg: CanSpeak) -> (r: HandleMessageType<bool, (), ()>) {
        (Ok(self.can_interact(msg.0, msg.1)), None)
    }
}

impl HandleAnnounce<Block> for Blocklists {
    type Item = ();
    type Error = ();

    open spec fn announce_step(&self, m: Block, after: Self, response: Result<(), ()>) -> bool {
        after@ == self@.insert((m.0, m.1)) && response == Ok::<(), ()>(())
    }

    fn handle_announce(&mut self, msg: Block) -> (r: Result<(), ()>) {
        self.block_user(msg.0, msg.1);
        Ok(())
    }
}

impl HandleAnnounce<Unblock> for Blocklists {
    type Item = ();
    type Error = ();

    open spec fn announce_step(&self, m: Unblock, after: Self, response: Result<(), ()>) -> bool {
        after@ == self@.remove((m.0, m.1)) && response == Ok::<(), ()>(())
    }

    fn handle_announce(&mut self, msg: Unblock) -> (r: Result<(), ()>) {
        self.unblock_user(msg.0, msg.1);
        Ok(())
    }
}

/// Taking in a page of `s` on top of the pairs of the entries before it gives
/// the pairs of the entries up to the page's end.
pub proof fn lemma_union_page(s: Seq<IndexEntry>, offset: int, page: Seq<IndexEntry>)
    requires
        0 <= offset,
        offset + page.len() <= s.len(),
        forall|k: int| 0 <= k < page.len() ==> (#[trigger] page[k]).0 == s[offset + k].0 && page[k].1@ == s[offset + k].1@,
    ensures
        pairs_of(s.subrange(0, offset)).union(pairs_of(page)) == pairs_of(s.subrange(0, offset + page.len())),
{
    let pre = s.subrange(0, offset);
    let all = s.subrange(0, offset + page.len());
    assert forall|p: (UserId, UserId)| #[trigger] pairs_of(pre).union(pairs_of(page)).contains(p) <==> pairs_of(all).contains(p) by {
        if pairs_of(pre).contains(p) {
            let i = choose|i: int| #[trigger] entry_holds(pre, i, p.0, p.1);
            assert(entry_holds(all, i, p.0, p.1));
        }
        if pairs_of(page).contains(p) {
            let i = choose|i: int| #[trigger] entry_holds(page, i, p.0, p.1);
            assert(all[offset + i] == s[offset + i]);
            assert(entry_holds(all, offset + i, p.0, p.1));
        }
        if pairs_of(all).contains(p) {
            let i = choose|i: int| #[trigger] entry_holds(all, i, p.0, p.1);
            if i < offset {
                assert(entry_holds(pre, i, p.0, p.1));
            } else {
                assert(page[i - offset].1@ == s[i].1@);
                assert(entry_holds(page, i - offset, p.0, p.1));
            }
        }
    }
    assert(pairs_of(pre).union(pairs_of(page)) =~= pairs_of(all));
}

} // verus!
