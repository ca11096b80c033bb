//! What holds across calls: replicas converge, announcements are idempotent,
//! a joining replica fills itself completely, accepted follows are
//! symmetric, and blocks keep posts apart.
use vstd::prelude::*;

use crate::blocklist::{lemma_union_page, pairs_of, Block, Blocklists, IndexEntry, Unblock, BLOCKLIST_PAGE};
use crate::dispatch::allowed_recipients;
use crate::ids::{PostId, UserId};
use crate::peered::{merged, HandleAnnounce, HandleMessage, PeerAddr, PeeredInner};
use crate::posts::{DeletePost, NewPost, NewPostFull, Posts, BACKFILL_CHUNK_SIZE};
use crate::store::{is_store_page, stored_all, Key};
use crate::user::{drop_post, UserView};
use crate::users::{DeleteUser, NewUser, NewUserFull, UserAddress, Users};

verus! {

// Replicas converge: a mutation applied at its home replica, and its
// announcement applied at a peer that held the same map, leave both with the
// same map.

/// A new post, written at one replica and announced to a peer.
pub proof fn law_posts_converge_on_new_post(
    home: Posts,
    home_after: Posts,
    m: NewPost,
    response: Result<PostId, ()>,
    b: NewPostFull,
    peer: Posts,
    peer_after: Posts,
    peer_response: Result<(), ()>,
)
    requires
        home@.posts == peer@.posts,
        home.message_step(m, home_after, response, Some(b)),
        peer.announce_step(b, peer_after, peer_response),
    ensures
        home_after@.posts == peer_after@.posts,
{
}

/// A deletion, made at one replica and announced to a peer.
pub proof fn law_posts_converge_on_delete(
    home: Posts,
    home_after: Posts,
    m: DeletePost,
    response: Result<(), ()>,
    b: DeletePost,
    peer: Posts,
    peer_after: Posts,
    peer_response: Result<(), ()>,
)
    requires
        home@.posts == peer@.posts,
        <Posts as HandleMessage<DeletePost>>::message_step(&home, m, home_after, response, Some(b)),
        <Posts as HandleAnnounce<DeletePost>>::announce_step(&peer, b, peer_after, peer_response),
    ensures
        home_after@.posts == peer_after@.posts,
{
}

/// A new user, created at one replica and announced to a peer.
pub proof fn law_users_converge_on_new_user(
    home: Users,
    home_after: Users,
    m: NewUser,
    response: Result<UserId, ()>,
    b: NewUserFull,
    peer: Users,
    peer_after: Users,
    peer_response: Result<(), ()>,
)
    requires
        home@.users == peer@.users,
        home.message_step(m, home_after, response, Some(b)),
        peer.announce_step(b, peer_after, peer_response),
    ensures
        home_after@.users == peer_after@.users,
{
}

/// A user deleted at one replica and announced to a peer.
pub proof fn law_users_converge_on_delete(
    home: Users,
    home_after: Users,
    m: DeleteUser,
    response: Result<(), ()>,
    b: DeleteUser,
    peer: Users,
    peer_after: Users,
    peer_response: Result<(), ()>,
)
    requires
        home@.users == peer@.users,
        <Users as HandleMessage<DeleteUser>>::message_step(&home, m, home_after, response, Some(b)),
        <Users as HandleAnnounce<DeleteUser>>::announce_step(&peer, b, peer_after, peer_response),
    ensures
        home_after@.users == peer_after@.users,
{
}

/// A block, made at one replica and announced to a peer.
pub proof fn law_blocklists_converge_on_block(
    home: Blocklists,
    home_after: Blocklists,
    m: Block,
    response: Result<(), ()>,
    b: Block,
    peer: Blocklists,
    peer_after: Blocklists,
    peer_response: Result<(), ()>,
)
    requires
        home@ == peer@,
        <Blocklists as HandleMessage<Block>>::message_step(&home, m, home_after, response, Some(b)),
        <Blocklists as HandleAnnounce<Block>>::announce_step(&peer, b, peer_after, peer_response),
    ensures
        home_after@ == peer_after@,
{
}

/// An unblock, made at one replica and announced to a peer.
pub proof fn law_blocklists_converge_on_unblock(
    home: Blocklists,
    home_after: Blocklists,
    m: Unblock,
    response: Result<(), ()>,
    b: Unblock,
    peer: Blocklists,
    peer_after: Blocklists,
    peer_response: Result<(), ()>,
)
    requires
        home@ == peer@,
        <Blocklists as HandleMessage<Unblock>>::message_step(&home, m, home_after, response, Some(b)),
        <Blocklists as HandleAnnounce<Unblock>>::announce_step(&peer, b, peer_after, peer_response),
    ensures
        home_after@ == peer_after@,
{
}

// Announcements are idempotent: applying one a second time changes nothing.

/// Replaying a `NewPostFull`.
pub proof fn law_new_post_full_idempotent(s0: Posts, s1: Posts, s2: Posts, b: NewPostFull, r1: Result<(), ()>, r2: Result<(), ()>)
    requires
        s0.announce_step(b, s1, r1),
        s1.announce_step(b, s2, r2),
    ensures
        s2@ == s1@,
{
    assert(s2@.posts =~= s1@.posts);
}

/// Replaying a `DeletePost`.
pub proof fn law_delete_post_idempotent(s0: Posts, s1: Posts, s2: Posts, b: DeletePost, r1: Result<(), ()>, r2: Result<(), ()>)
    requires
        <Posts as HandleAnnounce<DeletePost>>::announce_step(&s0, b, s1, r1),
        <Posts as HandleAnnounce<DeletePost>>::announce_step(&s1, b, s2, r2),
    ensures
        s2@ == s1@,
{
    assert(s2@.posts =~= s1@.posts);
}

/// Replaying a `NewUserFull`.
pub proof fn law_new_user_full_idempotent(s0: Users, s1: Users, s2: Users, b: NewUserFull, r1: Result<(), ()>, r2: Result<(), ()>)
    requires
        s0.announce_step(b, s1, r1),
        s1.announce_step(b, s2, r2),
    ensures
        s2@ == s1@,
{
    assert(s2@.users =~= s1@.users);
}

/// Replaying a `DeleteUser`.
pub proof fn law_delete_user_idempotent(s0: Users, s1: Users, s2: Users, b: DeleteUser, r1: Result<(), ()>, r2: Result<(), ()>)
    requires
        <Users as HandleAnnounce<DeleteUser>>::announce_step(&s0, b, s1, r1),
        <Users as HandleAnnounce<DeleteUser>>::announce_step(&s1, b, s2, r2),
    ensures
        s2@ == s1@,
{
    assert(s2@.users =~= s1@.users);
}

/// Replaying a `Block`.
pub proof fn law_block_idempotent(s0: Blocklists, s1: Blocklists, s2: Blocklists, b: Block, r1: Result<(), ()>, r2: Result<(), ()>)
    requires
        <Blocklists as HandleAnnounce<Block>>::announce_step(&s0, b, s1, r1),
        <Blocklists as HandleAnnounce<Block>>::announce_step(&s1, b, s2, r2),
    ensures
        s2@ == s1@,
{
    assert(s2@ =~= s1@);
}

/// Replaying an `Unblock`.
pub proof fn law_unblock_idempotent(s0: Blocklists, s1: Blocklists, s2: Blocklists, b: Unblock, r1: Result<(), ()>, r2: Result<(), ()>)
    requires
        <Blocklists as HandleAnnounce<Unblock>>::announce_step(&s0, b, s1, r1),
        <Blocklists as HandleAnnounce<Unblock>>::announce_step(&s1, b, s2, r2),
    ensures
        s2@ == s1@,
{
    assert(s2@ =~= s1@);
}

// A joining replica fills itself completely from a populated peer.

/// A Users replica that starts with no users and takes in the pages of a
/// leader, from the first cursor on and each at the cursor the previous one
/// asked for, until it asks for no more, knows exactly the leader's users.
/// It takes `size / PAGE + 1` pages: `ceil(size / PAGE)` when `size` is not a
/// multiple of `PAGE`.
pub proof fn law_users_backfill_fills(
    leader: Users,
    states: Seq<Users>,
    pages: Seq<(usize, Vec<(Key, UserAddress)>)>,
    nexts: Seq<Option<usize>>,
)
    requires
        leader.inv(),
        leader@.users.dom().len() + crate::users::BACKFILL_CHUNK_SIZE <= usize::MAX,
        pages.len() > 0,
        states.len() == pages.len() + 1,
        nexts.len() == pages.len(),
        states[0]@.users == Map::<Key, UserAddress>::empty(),
        pages[0].0 == leader.first_request(),
        forall|j: int| 0 <= j < pages.len() ==> leader.is_backfill(pages[j].0, #[trigger] pages[j]),
        forall|j: int| 0 <= j < pages.len() ==> states[j].backfill_step(pages[j], #[trigger] states[j + 1], nexts[j]),
        forall|j: int| 0 <= j < pages.len() - 1 ==> #[trigger] nexts[j] == Some(pages[j + 1].0),
        nexts[pages.len() - 1] is None,
    ensures
        states[pages.len() as int]@.users == leader@.users,
        pages.len() == leader@.users.dom().len() / (crate::users::BACKFILL_CHUNK_SIZE as nat) + 1,
        leader@.users.dom().len() % (crate::users::BACKFILL_CHUNK_SIZE as nat) != 0 ==> pages.len() == (leader@.users.dom().len()
            + crate::users::BACKFILL_CHUNK_SIZE - 1) / (crate::users::BACKFILL_CHUNK_SIZE as int),
{
    leader.lemma_entries();
    crate::store::lemma_map_size(leader.entries());
    let maps = Seq::new(states.len(), |j: int| states[j]@.users);
    let offsets = Seq::new(pages.len(), |j: int| pages[j].0);
    let pgs = Seq::new(pages.len(), |j: int| pages[j].1@);
    assert forall|j: int| 0 <= j < pages.len() implies #[trigger] maps[j + 1] == stored_all(maps[j], pgs[j]) by {
        assert(states[j].backfill_step(pages[j], states[j + 1], nexts[j]));
    }
    assert forall|j: int| 0 <= j < pages.len() implies is_store_page(leader.entries(), #[trigger] offsets[j], crate::users::BACKFILL_CHUNK_SIZE, pgs[j]) by {
        assert(leader.is_backfill(pages[j].0, pages[j]));
    }
    assert forall|j: int| 0 <= j < pages.len() implies #[trigger] nexts[j] == crate::peered::next_page(offsets[j], pgs[j].len(), crate::users::BACKFILL_CHUNK_SIZE) by {
        assert(states[j].backfill_step(pages[j], states[j + 1], nexts[j]));
    }
    assert forall|j: int| 0 <= j < pages.len() - 1 implies #[trigger] nexts[j] == Some(offsets[j + 1]) by {}
    crate::store::lemma_paged_fill(leader.entries(), crate::users::BACKFILL_CHUNK_SIZE, maps, offsets, pgs, nexts);
    assert(maps[pages.len() as int] == states[pages.len() as int]@.users);
    let n = leader@.users.dom().len() as int;
    let p = crate::users::BACKFILL_CHUNK_SIZE as int;
    assert(n % p != 0 ==> n / p + 1 == (n + p - 1) / p) by (nonlinear_arith)
        requires
            p == 100,
            n >= 0,
    ;
}

/// A Posts replica that starts with no posts and takes in the pages of a
/// leader, from the first cursor on and each at the cursor the previous one
/// asked for, until it asks for no more, holds exactly the leader's posts.
/// It takes `size / PAGE + 1` pages.
pub proof fn law_posts_backfill_fills(
    leader: Posts,
    states: Seq<Posts>,
    pages: Seq<(usize, Vec<(Key, crate::posts::Post)>)>,
    nexts: Seq<Option<usize>>,
)
    requires
        leader.inv(),
        leader@.posts.dom().len() + BACKFILL_CHUNK_SIZE <= usize::MAX,
        pages.len() > 0,
        states.len() == pages.len() + 1,
        nexts.len() == pages.len(),
        states[0]@.posts == Map::<Key, crate::posts::PostView>::empty(),
        pages[0].0 == leader.first_request(),
        forall|j: int| 0 <= j < pages.len() ==> leader.is_backfill(pages[j].0, #[trigger] pages[j]),
        forall|j: int| 0 <= j < pages.len() ==> states[j].backfill_step(pages[j], #[trigger] states[j + 1], nexts[j]),
        forall|j: int| 0 <= j < pages.len() - 1 ==> #[trigger] nexts[j] == Some(pages[j + 1].0),
        nexts[pages.len() - 1] is None,
    ensures
        states[pages.len() as int]@.posts == leader@.posts,
        pages.len() == leader@.posts.dom().len() / (BACKFILL_CHUNK_SIZE as nat) + 1,
{
    leader.lemma_entries();
    crate::store::lemma_map_size(leader.entries());
    let maps = Seq::new(states.len(), |j: int| states[j]@.posts);
    let offsets = Seq::new(pages.len(), |j: int| pages[j].0);
    let pgs = Seq::new(pages.len(), |j: int| pages[j].1@);
    assert forall|j: int| 0 <= j < pages.len() implies #[trigger] maps[j + 1] == stored_all(maps[j], pgs[j]) by {
        assert(states[j].backfill_step(pages[j], states[j + 1], nexts[j]));
    }
    assert forall|j: int| 0 <= j < pages.len() implies is_store_page(leader.entries(), #[trigger] offsets[j], BACKFILL_CHUNK_SIZE, pgs[j]) by {
        assert(leader.is_backfill(pages[j].0, pages[j]));
    }
    assert forall|j: int| 0 <= j < pages.len() implies #[trigger] nexts[j] == crate::peered::next_page(offsets[j], pgs[j].len(), BACKFILL_CHUNK_SIZE) by {
        assert(states[j].backfill_step(pages[j], states[j + 1], nexts[j]));
    }
    assert forall|j: int| 0 <= j < pages.len() - 1 implies #[trigger] nexts[j] == Some(offsets[j + 1]) by {}
    crate::store::lemma_paged_fill(leader.entries(), BACKFILL_CHUNK_SIZE, maps, offsets, pgs, nexts);
    assert(maps[pages.len() as int] == states[pages.len() as int]@.posts);
}

/// The pages before page `j` of a Blocklists backfill were full, and brought
/// the pairs of the entries before `pages[j].0`.
proof fn lemma_blocklists_prefix(
    leader: Blocklists,
    states: Seq<Blocklists>,
    pages: Seq<(usize, Vec<IndexEntry>)>,
    nexts: Seq<Option<usize>>,
    j: int,
)
    requires
        leader.entries().len() + BLOCKLIST_PAGE <= usize::MAX,
        0 <= j < pages.len(),
        states.len() == pages.len() + 1,
        nexts.len() == pages.len(),
        states[0]@ == Set::<(UserId, UserId)>::empty(),
        pages[0].0 == 0,
        forall|i: int| 0 <= i < pages.len() ==> leader.is_backfill(pages[i].0, #[trigger] pages[i]),
        forall|i: int| 0 <= i < pages.len() ==> states[i].backfill_step(pages[i], #[trigger] states[i + 1], nexts[i]),
        forall|i: int| 0 <= i < pages.len() - 1 ==> #[trigger] nexts[i] == Some(pages[i + 1].0),
    ensures
        pages[j].0 == j * BLOCKLIST_PAGE,
        j * BLOCKLIST_PAGE <= leader.entries().len(),
        states[j]@ == pairs_of(leader.entries().subrange(0, pages[j].0 as int)),
    decreases j,
{
    let s = leader.entries();
    if j == 0 {
        assert(s.subrange(0, 0) =~= Seq::<IndexEntry>::empty());
        assert(pairs_of(Seq::<IndexEntry>::empty()) =~= Set::<(UserId, UserId)>::empty());
    } else {
        let i = j - 1;
        lemma_blocklists_prefix(leader, states, pages, nexts, i);
        assert(nexts[i] == Some(pages[i + 1].0));
        assert(leader.is_backfill(pages[i].0, pages[i]));
        assert(states[i].backfill_step(pages[i], states[i + 1], nexts[i]));
        assert(pages[i].1@.len() == BLOCKLIST_PAGE);
        lemma_union_page(s, pages[i].0 as int, pages[i].1@);
    }
}

/// A Blocklists replica that starts with no blocks and takes in the pages
/// of a leader, from the first cursor on and each at the cursor the previous
/// one asked for, until it asks for no more, knows exactly the leader's
/// blocks. It takes `n / PAGE + 1` pages, `n` being the number of users that
/// block someone.
pub proof fn law_blocklists_backfill_fills(
    leader: Blocklists,
    states: Seq<Blocklists>,
    pages: Seq<(usize, Vec<IndexEntry>)>,
    nexts: Seq<Option<usize>>,
)
    requires
        leader.entries().len() + BLOCKLIST_PAGE <= usize::MAX,
        pages.len() > 0,
        states.len() == pages.len() + 1,
        nexts.len() == pages.len(),
        states[0]@ == Set::<(UserId, UserId)>::empty(),
        pages[0].0 == leader.first_request(),
        forall|j: int| 0 <= j < pages.len() ==> leader.is_backfill(pages[j].0, #[trigger] pages[j]),
        forall|j: int| 0 <= j < pages.len() ==> states[j].backfill_step(pages[j], #[trigger] states[j + 1], nexts[j]),
        forall|j: int| 0 <= j < pages.len() - 1 ==> #[trigger] nexts[j] == Some(pages[j + 1].0),
        nexts[pages.len() - 1] is None,
    ensures
        states[pages.len() as int]@ == leader@,
        pages.len() == leader.entries().len() / (BLOCKLIST_PAGE as nat) + 1,
{
    let s = leader.entries();
    let k = pages.len() - 1;
    let n = s.len() as int;
    let p = BLOCKLIST_PAGE as int;
    lemma_blocklists_prefix(leader, states, pages, nexts, k);
    assert(leader.is_backfill(pages[k].0, pages[k]));
    assert(states[k].backfill_step(pages[k], states[k + 1], nexts[k]));
    assert(pages[k].1@.len() == n - k * p);
    lemma_union_page(s, pages[k].0 as int, pages[k].1@);
    assert(s.subrange(0, n) =~= s);
    leader.lemma_entries();
    assert(n / p == k) by (nonlinear_arith)
        requires
            k * p <= n,
            n < k * p + p,
            p > 0,
    ;
}

proof fn lemma_merged_disjoint(s: Seq<PeerAddr>, extra: Seq<PeerAddr>)
    requires
        s.no_duplicates(),
        extra.no_duplicates(),
        forall|x: PeerAddr| extra.contains(x) ==> !s.contains(x),
    ensures
        merged(s, extra) == s + extra,
    decreases extra.len(),
{
    if extra.len() > 0 {
        let init = extra.drop_last();
        assert(init.no_duplicates()) by {
            assert forall|a: int, b: int| 0 <= a < init.len() && 0 <= b < init.len() && a != b implies init[a] != init[b] by {
                assert(init[a] == extra[a] && init[b] == extra[b]);
            }
        }
        assert forall|x: PeerAddr| init.contains(x) implies !s.contains(x) by {
            let k = choose|k: int| 0 <= k < init.len() && init[k] == x;
            assert(extra[k] == x);
        }
        lemma_merged_disjoint(s, init);
        let l = extra.last();
        assert(extra.contains(l));
        assert(!(s + init).contains(l)) by {
            if (s + init).contains(l) {
                let k = choose|k: int| 0 <= k < (s + init).len() && (s + init)[k] == l;
                if k >= s.len() {
                    assert(extra[k - s.len()] == l);
                    assert(extra[extra.len() - 1] == l);
                } else {
                    assert(s.contains(l));
                }
            }
        }
        assert((s + init).push(l) =~= s + extra);
    }
}

/// A replica that joins through a leader and learns the leader's other
/// peers knows the leader and each of them once: in a group of `N` others it
/// reports `N` peers.
pub proof fn law_join_peer_count(leader: PeerAddr, others: Seq<PeerAddr>)
    requires
        others.no_duplicates(),
        !others.contains(leader),
    ensures
        merged(seq![leader], others).len() == others.len() + 1,
        merged(seq![leader], others).no_duplicates(),
{
    assert forall|x: PeerAddr| others.contains(x) implies !seq![leader].contains(x) by {
        if seq![leader].contains(x) {
            let k = choose|k: int| 0 <= k < 1 && seq![leader][k] == x;
        }
    }
    lemma_merged_disjoint(seq![leader], others);
    let m = seq![leader] + others;
    assert forall|a: int, b: int| 0 <= a < m.len() && 0 <= b < m.len() && a != b implies m[a] != m[b] by {
        if a == 0 && b > 0 {
            assert(others.contains(others[b - 1]));
        } else if b == 0 && a > 0 {
            assert(others.contains(others[a - 1]));
        } else if a > 0 && b > 0 {
            assert(m[a] == others[a - 1] && m[b] == others[b - 1]);
        }
    }
}

// Accepted follows are symmetric.

/// `b` follows `a` only if `a` counts `b` among its followers.
pub open spec fn follow_consistent(a: UserView, b: UserView) -> bool {
    b.following.contains(a.user_id) ==> a.followers.contains(b.user_id)
}

/// When `a` accepts the waiting request of `b`, and `b` then hears of it,
/// `b` follows `a` and `a` counts `b` among its followers; a consistent pair
/// stays consistent.
pub proof fn law_accept_is_symmetric(a0: UserView, a1: UserView, b0: UserView, b1: UserView)
    requires
        follow_consistent(a0, b0),
        a0.follow_requests.contains(b0.user_id),
        a1 == (UserView {
            follow_requests: a0.follow_requests.remove(b0.user_id),
            followers: a0.followers.insert(b0.user_id),
            ..a0
        }),
        b1 == (UserView {
            pending_follows: b0.pending_follows.remove(a0.user_id),
            following: b0.following.insert(a0.user_id),
            ..b0
        }),
    ensures
        b1.following.contains(a1.user_id),
        a1.followers.contains(b1.user_id),
        follow_consistent(a1, b1),
{
}

// Blocks keep posts apart.

/// `s` after dropping each post of `ids` in turn.
pub open spec fn dropped_all(s: Set<PostId>, ids: Seq<PostId>) -> Set<PostId>
    decreases ids.len(),
{
    if ids.len() == 0 {
        s
    } else {
        drop_post(dropped_all(s, ids.drop_last()), ids.last())
    }
}

/// Once the deletions that a block sets off have reached a user, none of the
/// named posts is left in its feed, and nothing else has gone.
pub proof fn law_cascade_clears_feed(feed: Set<PostId>, ids: Seq<PostId>)
    ensures
        forall|q: PostId, k: int| 0 <= k < ids.len() && #[trigger] dropped_all(feed, ids).contains(q) ==> q.key() != (#[trigger] ids[k]).key(),
        forall|q: PostId| #[trigger] dropped_all(feed, ids).contains(q) ==> feed.contains(q),
        forall|q: PostId| feed.contains(q) && (forall|k: int| 0 <= k < ids.len() ==> q.key() != (#[trigger] ids[k]).key()) ==> #[trigger] dropped_all(feed, ids).contains(q),
    decreases ids.len(),
{
    if ids.len() > 0 {
        let init = ids.drop_last();
        law_cascade_clears_feed(feed, init);
        let last = ids.last();
        assert(dropped_all(feed, ids) == drop_post(dropped_all(feed, init), last));
        assert forall|q: PostId| #[trigger] dropped_all(feed, ids).contains(q) implies dropped_all(feed, init).contains(q)
            && q.key() != last.key() by {}
        assert forall|q: PostId, k: int| 0 <= k < ids.len() && #[trigger] dropped_all(feed, ids).contains(q) implies q.key() != (#[trigger] ids[k]).key() by {
            assert(dropped_all(feed, init).contains(q));
            if k < ids.len() - 1 {
                assert(init[k] == ids[k]);
            }
        }
        assert forall|q: PostId| #[trigger] dropped_all(feed, ids).contains(q) implies feed.contains(q) by {
            assert(dropped_all(feed, init).contains(q));
        }
        assert forall|q: PostId| feed.contains(q) && (forall|k: int| 0 <= k < ids.len() ==> q.key() != (#[trigger] ids[k]).key()) implies #[trigger] dropped_all(feed, ids).contains(q) by {
            assert forall|k: int| 0 <= k < init.len() implies q.key() != (#[trigger] init[k]).key() by {
                assert(init[k] == ids[k]);
            }
            assert(dropped_all(feed, init).contains(q));
            assert(q.key() != ids[ids.len() - 1].key());
        }
    }
}

/// An announcement never reaches a user that the author blocks or that
/// blocks the author.
pub proof fn law_announce_skips_blocked(rs: Seq<UserId>, excluded: Set<UserId>)
    ensures
        forall|u: UserId| #[trigger] allowed_recipients(rs, excluded).contains(u) ==> rs.contains(u) && !excluded.contains(u),
        forall|u: UserId| rs.contains(u) && !excluded.contains(u) ==> #[trigger] allowed_recipients(rs, excluded).contains(u),
    decreases rs.len(),
{
    if rs.len() > 0 {
        let init = rs.drop_last();
        law_announce_skips_blocked(init, excluded);
        let rest = allowed_recipients(init, excluded);
        assert forall|u: UserId| #[trigger] allowed_recipients(rs, excluded).contains(u) implies rs.contains(u) && !excluded.contains(u) by {
            if rest.contains(u) {
                let k = choose|k: int| 0 <= k < init.len() && init[k] == u;
                assert(rs[k] == u);
            } else {
                let k = choose|k: int| 0 <= k < allowed_recipients(rs, excluded).len() && allowed_recipients(rs, excluded)[k] == u;
                assert(u == rs.last());
                assert(rs[rs.len() - 1] == u);
            }
        }
        assert forall|u: UserId| rs.contains(u) && !excluded.contains(u) implies #[trigger] allowed_recipients(rs, excluded).contains(u) by {
            let k = choose|k: int| 0 <= k < rs.len() && rs[k] == u;
            if k < rs.len() - 1 {
                assert(init[k] == u);
                assert(init.contains(u));
                assert(allowed_recipients(init, excluded).contains(u));
                let j = choose|j: int| 0 <= j < rest.len() && rest[j] == u;
                if !excluded.contains(rs.last()) {
                    assert(rest.push(rs.last())[j] == u);
                }
            } else {
                assert(allowed_recipients(rs, excluded) == rest.push(u));
                assert(rest.push(u)[rest.len() as int] == u);
            }
        }
    }
}

} // verus!
