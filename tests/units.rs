use ap_social::blocklist::{Block, Blocklists, CanSpeak, GetBlockedBy, GetBlocklist, Unblock};
use ap_social::dispatch::{Dispatch, DispatchMessage};
use ap_social::ids::{Id, PostId, UserId};
use ap_social::inbox::Inbox;
use ap_social::outbox::Outbox;
use ap_social::peered::{
    Announce, AnnouncePeer, HandleAnnounce, HandleMessage, Message, PeerAddr, Peered, PeeredInner,
    ReplyBackfill, ReplyPeers, RequestPeers,
};
use ap_social::post_set::PostIdSet;
use ap_social::posts::{DeletePost, GetPostsByIds, NewPost, NewPostFull, Post, PostSize, Posts};
use ap_social::user::{
    AcceptFollowRequest, BlockUser, Blocked, DenyFollowRequest, FollowRequest, FollowRequestAccepted,
    NewPostOut, RequestFollow, User,
};
use ap_social::users::{ActorAddr, DeleteUser, Lookup, LookupMany, NewUser, NewUserFull, UserAddress, Users};

fn uid(s: u64, i: u64) -> UserId {
    UserId::new(Id(s), Id(i))
}

fn pid(s: u64, i: u64, t: u64) -> PostId {
    PostId::new(Id(s), Id(i), t)
}

fn sorted_users(mut v: Vec<UserId>) -> Vec<UserId> {
    v.sort();
    v
}

#[test]
fn post_id_equality_ignores_timestamp() {
    assert!(pid(1, 2, 3) == pid(1, 2, 99));
    assert!(pid(1, 2, 3) != pid(1, 3, 3));
    assert!(pid(1, 2, 3) != pid(2, 2, 3));
}

#[test]
fn post_id_order_is_timestamp_then_shard_then_id() {
    assert!(pid(9, 9, 1).is_before(&pid(0, 0, 2)));
    assert!(pid(0, 9, 5).is_before(&pid(1, 0, 5)));
    assert!(pid(1, 0, 5).is_before(&pid(1, 1, 5)));
    assert!(!pid(1, 1, 5).is_before(&pid(1, 1, 5)));
}

#[test]
fn user_ids_order_by_shard_then_id() {
    assert!(uid(0, 9) < uid(1, 0));
    assert!(uid(1, 0) < uid(1, 1));
}

#[test]
fn post_id_set_keeps_order_and_one_entry_per_post() {
    let mut s = PostIdSet::new();
    s.insert(pid(0, 1, 20));
    s.insert(pid(0, 0, 10));
    s.insert(pid(0, 2, 30));
    s.insert(pid(0, 1, 99));
    assert_eq!(s.len(), 3);
    assert_eq!(s.at(0).2, 10);
    assert_eq!(s.at(2).2, 30);
    assert!(s.contains(&pid(0, 1, 0)));
    s.remove(&pid(0, 1, 0));
    assert_eq!(s.len(), 2);
    assert!(!s.contains(&pid(0, 1, 20)));
    let newest = s.newest(1);
    assert_eq!(newest.len(), 1);
    assert_eq!(newest[0].2, 30);
    assert!(s.newest(0).is_empty());
}

#[test]
fn own_posts_top_ten_newest_first() {
    let me = uid(0, 0);
    let mut u = User::new(me);
    assert!(u.get_10_user_post_ids().is_empty());
    for i in 0..12 {
        assert!(u.new_post(pid(0, i, 100 + i), me, &vec![]));
    }
    let top = u.get_10_user_post_ids();
    assert_eq!(top.len(), 10);
    assert_eq!(top[0].2, 111);
    assert_eq!(top[9].2, 102);
    assert!(u.get_10_post_ids().len() == 10);
}

#[test]
fn feed_merges_own_and_received_posts() {
    let me = uid(0, 0);
    let friend = uid(0, 1);
    let mut u = User::new(me);
    u.request_follow(friend);
    u.follow_request_accepted(friend);
    u.new_post(pid(0, 0, 5), me, &vec![]);
    u.new_post(pid(0, 1, 7), friend, &vec![]);
    u.new_post(pid(0, 2, 6), me, &vec![]);
    u.new_post(pid(1, 0, 7), friend, &vec![]);
    let ids: Vec<(u64, u64, u64)> = u.get_10_post_ids().iter().map(|p| (p.0 .0, p.1 .0, p.2)).collect();
    assert_eq!(ids, vec![(1, 0, 7), (0, 1, 7), (0, 2, 6), (0, 0, 5)]);
    assert_eq!(u.get_10_user_post_ids().len(), 2);
}

#[test]
fn feed_takes_at_most_ten_from_both_sets() {
    let me = uid(0, 0);
    let friend = uid(0, 1);
    let mut u = User::new(me);
    u.follow_request_accepted(friend);
    for i in 0..8 {
        u.new_post(pid(0, i, 2 * i), me, &vec![]);
        u.new_post(pid(1, i, 2 * i + 1), friend, &vec![]);
    }
    let top = u.get_10_post_ids();
    let ts: Vec<u64> = top.iter().map(|p| p.2).collect();
    assert_eq!(ts, vec![15, 14, 13, 12, 11, 10, 9, 8, 7, 6]);
}

#[test]
fn stranger_posts_are_dropped() {
    let me = uid(0, 0);
    let stranger = uid(0, 5);
    let mut u = User::new(me);
    assert!(!u.new_post(pid(0, 0, 1), stranger, &vec![]));
    assert!(u.get_10_post_ids().is_empty());
    assert!(u.new_post(pid(0, 1, 2), stranger, &vec![me]));
    u.block_user(stranger);
    assert!(!u.new_post(pid(0, 2, 3), stranger, &vec![me]));
    assert_eq!(u.get_10_post_ids().len(), 1);
    assert_eq!(u.blocklist(), vec![stranger]);
}

#[test]
fn delete_post_removes_from_both_sets() {
    let me = uid(0, 0);
    let friend = uid(0, 1);
    let mut u = User::new(me);
    u.follow_request_accepted(friend);
    u.new_post(pid(0, 0, 1), me, &vec![]);
    u.new_post(pid(0, 1, 2), friend, &vec![]);
    u.delete_post(pid(0, 1, 0));
    u.delete_post(pid(0, 0, 0));
    u.delete_post(pid(0, 0, 0));
    assert!(u.get_10_post_ids().is_empty());
}

#[test]
fn follow_requests_are_answered_once() {
    let me = uid(0, 0);
    let other = uid(0, 1);
    let mut u = User::new(me);
    assert_eq!(u.accept_follow_request(other), None);
    u.follow_request(other);
    u.follow_request(other);
    assert_eq!(u.accept_follow_request(other), Some(me));
    assert_eq!(u.followers(), vec![other]);
    assert_eq!(u.accept_follow_request(other), None);
    u.follow_request(uid(0, 2));
    assert_eq!(u.deny_follow_request(uid(0, 2)), Some(me));
    assert_eq!(u.deny_follow_request(uid(0, 2)), None);
    assert_eq!(u.answer_follow_request(uid(0, 2)), None);
    assert_eq!(u.followers(), vec![other]);
}

#[test]
fn pending_follow_resolves_on_answer() {
    let me = uid(0, 0);
    let mut u = User::new(me);
    u.request_follow(uid(0, 1));
    u.request_follow(uid(0, 2));
    u.follow_request_accepted(uid(0, 1));
    u.follow_request_denied(uid(0, 2));
    // following uid(0, 1): its posts are taken
    assert!(u.new_post(pid(0, 0, 1), uid(0, 1), &vec![]));
    assert!(!u.new_post(pid(0, 1, 1), uid(0, 2), &vec![]));
    u.blocked_by(uid(0, 3));
    assert_eq!(u.blocklist(), vec![uid(0, 3)]);
}

#[test]
fn can_speak_needs_no_block_either_way() {
    let (a, b, c) = (uid(0, 0), uid(0, 1), uid(0, 2));
    let mut bl = Blocklists::new();
    assert!(bl.can_interact(a, b));
    bl.block_user(a, b);
    assert!(!bl.can_interact(a, b));
    assert!(!bl.can_interact(b, a));
    assert!(bl.can_interact(a, c));
    bl.unblock_user(a, b);
    assert!(bl.can_interact(b, a));
    let mut d = Blocklists::default();
    d.block_user(c, a);
    assert!(!d.can_interact(a, c));
}

#[test]
fn blocklists_index_both_ways() {
    let (a, b, c) = (uid(0, 0), uid(0, 1), uid(0, 2));
    let mut bl = Blocklists::new();
    bl.block_user(a, b);
    bl.block_user(a, c);
    bl.block_user(c, b);
    bl.block_user(a, b);
    assert_eq!(sorted_users(bl.get_blocked_users(a)), vec![b, c]);
    assert_eq!(sorted_users(bl.is_blocked_by(b)), vec![a, c]);
    assert!(bl.get_blocked_users(b).is_empty());
    bl.unblock_user(a, b);
    bl.unblock_user(a, c);
    assert!(bl.get_blocked_users(a).is_empty());
    assert_eq!(bl.is_blocked_by(b), vec![c]);
    assert!(bl.is_blocked_by(c).is_empty());
    bl.unblock_user(a, b);
    assert_eq!(bl.backfill(0).1.len(), 1);
}

#[test]
fn blocklist_messages_and_announces() {
    let (a, b) = (uid(0, 0), uid(0, 1));
    let mut home = Blocklists::new();
    let mut peer = Blocklists::new();
    let (r, bc) = home.handle_message(Block(a, b));
    assert_eq!(r, Ok(()));
    let bc = bc.unwrap();
    assert_eq!((bc.0, bc.1), (a, b));
    assert_eq!(peer.handle_announce(bc), Ok(()));
    assert_eq!(peer.handle_announce(bc), Ok(()));
    assert_eq!(peer.handle_message(CanSpeak(b, a)).0, Ok(false));
    assert_eq!(peer.handle_message(GetBlocklist(a)).0, Ok(vec![b]));
    assert_eq!(peer.handle_message(GetBlockedBy(b)).0, Ok(vec![a]));
    let (_, ub) = home.handle_message(Unblock(a, b));
    peer.handle_announce(ub.unwrap()).unwrap();
    assert_eq!(peer.handle_message(CanSpeak(a, b)).0, Ok(true));
    assert_eq!(home.handle_message(CanSpeak(a, b)), (Ok(true), None));
}

#[test]
fn blocklists_backfill_pages_of_ten() {
    let mut leader = Blocklists::new();
    for i in 0..25 {
        leader.block_user(uid(0, i), uid(1, i));
    }
    let mut fresh = Blocklists::new();
    let mut req = fresh.backfill_init();
    let mut rounds = 0;
    loop {
        rounds += 1;
        let page = leader.backfill(req);
        match fresh.handle_backfill(page) {
            Some(next) => req = next,
            None => break,
        }
    }
    assert_eq!(rounds, 3);
    for i in 0..25 {
        assert!(!fresh.can_interact(uid(1, i), uid(0, i)));
        assert_eq!(fresh.is_blocked_by(uid(1, i)), vec![uid(0, i)]);
    }
}

#[test]
fn posts_issue_ids_and_answer_queries() {
    let author = uid(0, 0);
    let mut p = Posts::new(Id(3));
    let (id0, post0) = p.new_post(author, vec![uid(0, 1)], 40);
    assert_eq!((id0.0, id0.1, id0.2), (Id(3), Id(0), 40));
    assert_eq!(post0.author, author);
    assert_eq!(post0.mentions, vec![uid(0, 1)]);
    let (r, bc) = p.handle_message(NewPost(author, vec![], 41));
    let id1 = r.unwrap();
    assert_eq!(id1.1, Id(1));
    assert!(bc.unwrap().0 == id1);
    assert_eq!(p.size(), 2);
    assert_eq!(p.handle_message(PostSize).0, Ok(2));

    let unknown = pid(3, 7, 0);
    let (found, missing) = p.handle_message(GetPostsByIds(vec![id1, unknown, id0])).0.unwrap();
    assert_eq!(found.len(), 2);
    assert!(found[0].post_id == id1);
    assert!(found[1].post_id == id0);
    assert_eq!(missing.len(), 1);
    assert!(missing[0] == unknown);

    let (r, bc) = p.handle_message(DeletePost(id0));
    assert_eq!(r, Ok(()));
    assert!(bc.unwrap().0 == id0);
    assert_eq!(p.size(), 1);
    p.delete_post(id0);
    assert_eq!(p.size(), 1);
}

#[test]
fn posts_announces_are_idempotent() {
    let post = Post { post_id: pid(0, 0, 1), author: uid(0, 0), mentions: vec![] };
    let mut p = Posts::new(Id(1));
    p.handle_announce(NewPostFull(post.post_id, post.clone())).unwrap();
    p.handle_announce(NewPostFull(post.post_id, post.clone())).unwrap();
    assert_eq!(p.size(), 1);
    p.handle_announce(DeletePost(post.post_id)).unwrap();
    p.handle_announce(DeletePost(post.post_id)).unwrap();
    assert_eq!(p.size(), 0);
    p.add_post(post.post_id, post);
    assert_eq!(p.size(), 1);
}

#[test]
fn posts_backfill_stops_on_a_short_page() {
    let mut leader = Posts::new(Id(0));
    for i in 0..230 {
        leader.new_post(uid(0, 0), vec![], i);
    }
    let mut fresh = Posts::new(Id(1));
    let mut req = fresh.backfill_init();
    assert_eq!(req, 0);
    let mut rounds = 0;
    loop {
        rounds += 1;
        let page = leader.backfill(req);
        assert_eq!(page.0, req);
        match fresh.handle_backfill(page) {
            Some(next) => req = next,
            None => break,
        }
    }
    assert_eq!(rounds, 3);
    assert_eq!(fresh.size(), 230);

    let mut exact = Posts::new(Id(0));
    for i in 0..200 {
        exact.new_post(uid(0, 0), vec![], i);
    }
    let mut copy = Posts::new(Id(1));
    assert_eq!(copy.handle_backfill(exact.backfill(0)), Some(100));
    assert_eq!(copy.handle_backfill(exact.backfill(100)), Some(200));
    assert_eq!(copy.handle_backfill(exact.backfill(200)), None);
    assert_eq!(copy.size(), 200);
}

#[test]
fn users_lookup_and_not_found() {
    let mut u = Users::new(Id(2), PeerAddr(7));
    assert_eq!(u.posts(), PeerAddr(7));
    let (r, bc) = u.handle_message(NewUser(PeerAddr(1), PeerAddr(2)));
    let id = r.unwrap();
    assert_eq!(id, uid(2, 0));
    let bc = bc.unwrap();
    assert_eq!(bc.0, id);
    let addr = u.handle_message(Lookup(id)).0.unwrap();
    assert_eq!(*addr.inbox(), ActorAddr::Inbox(id));
    assert_eq!(*addr.outbox(), ActorAddr::Outbox(id));
    assert_eq!(*addr.user(), ActorAddr::User(id));
    assert_eq!(u.handle_message(Lookup(uid(2, 5))).0, Err(()));
    let (found, missing) = u.handle_message(LookupMany(vec![uid(2, 5), id])).0.unwrap();
    assert_eq!(found, vec![addr]);
    assert_eq!(missing, vec![uid(2, 5)]);

    let mut peer = Users::new(Id(3), PeerAddr(8));
    peer.handle_announce(bc).unwrap();
    peer.handle_announce(NewUserFull(bc.0, bc.1)).unwrap();
    assert_eq!(peer.size(), 1);
    assert_eq!(peer.get_user(id), Some(UserAddress::new(id)));
    let (_, del) = u.handle_message(DeleteUser(id));
    peer.handle_announce(del.unwrap()).unwrap();
    assert_eq!(peer.size(), 0);
    assert_eq!(u.get_user(id), None);
}

#[test]
fn users_ids_count_up() {
    let mut u = Users::new(Id(0), PeerAddr(0));
    let (a, _) = u.new_user();
    let (b, addr) = u.new_user();
    assert_eq!(a, uid(0, 0));
    assert_eq!(b, uid(0, 1));
    assert_eq!(addr, UserAddress::new(b));
    u.delete_user(a);
    assert_eq!(u.get_users(vec![a, b]), (vec![addr], vec![a]));
    u.add_user(a, UserAddress::new(a));
    assert_eq!(u.size(), 2);
}

#[test]
fn peered_protocol_messages() {
    let mut leader = Peered::new(Posts::new(Id(0)));
    assert_eq!(leader.started(PeerAddr(0)).is_none(), true);
    let joiner = Peered::new(Posts::new(Id(1))).add_peer(PeerAddr(0)).add_peer(PeerAddr(0));
    assert_eq!(joiner.peer_size(), 1);
    let (first, rp, rb) = joiner.started(PeerAddr(1)).unwrap();
    assert_eq!(first, PeerAddr(0));
    assert_eq!(rp, RequestPeers(PeerAddr(1)));
    assert_eq!((rb.0, rb.1), (PeerAddr(1), 0));

    leader.announce_peer(AnnouncePeer(PeerAddr(5)));
    let (to, reply) = leader.request_peers(rp);
    assert_eq!(to, PeerAddr(1));
    assert_eq!(reply.0, vec![PeerAddr(5)]);
    assert_eq!(leader.peers(), &vec![PeerAddr(5), PeerAddr(1)]);

    let mut joiner = joiner;
    let out = joiner.reply_peers(PeerAddr(1), ReplyPeers(vec![PeerAddr(5), PeerAddr(0)]));
    assert_eq!(out.len(), 2);
    assert_eq!(out[0], (PeerAddr(5), AnnouncePeer(PeerAddr(1))));
    assert_eq!(joiner.peers(), &vec![PeerAddr(0), PeerAddr(5)]);

    let (to, page) = leader.request_backfill(rb);
    assert_eq!(to, PeerAddr(1));
    assert!(joiner.reply_backfill(PeerAddr(1), page).is_none());

    let (r, out) = leader.handle_message(Message::new(NewPost(uid(0, 0), vec![], 3)));
    let id = r.unwrap();
    let (peers, announce) = out.unwrap();
    assert_eq!(peers, vec![PeerAddr(5), PeerAddr(1)]);
    assert_eq!(joiner.handle_announce(announce), Ok(()));
    assert_eq!(joiner.inner().size(), 1);
    let (r, out) = leader.handle_message(Message::new(PostSize));
    assert_eq!(r, Ok(1));
    assert!(out.is_none());
    let _ = joiner.handle_announce(Announce::new(DeletePost(id)));
    assert_eq!(joiner.inner().size(), 0);
}

#[test]
fn reply_backfill_asks_first_peer_for_more() {
    let mut leader = Posts::new(Id(0));
    for i in 0..100 {
        leader.new_post(uid(0, 0), vec![], i);
    }
    let mut joiner = Peered::new(Posts::new(Id(1))).add_peer(PeerAddr(4));
    let next = joiner.reply_backfill(PeerAddr(9), ReplyBackfill(leader.backfill(0))).unwrap();
    assert_eq!(next.0, PeerAddr(4));
    assert_eq!((next.1 .0, next.1 .1), (PeerAddr(9), 100));
    let mut lonely = Peered::new(Posts::new(Id(2)));
    assert!(lonely.reply_backfill(PeerAddr(9), ReplyBackfill(leader.backfill(0))).is_none());
    assert_eq!(lonely.inner().size(), 100);
}

#[test]
fn dispatch_filters_blocked_recipients() {
    let (a, b, c, d) = (uid(0, 0), uid(0, 1), uid(0, 2), uid(0, 3));
    let kept = Dispatch::announce_recipients(&vec![a, b, c, d], &vec![b], &vec![d]);
    assert_eq!(kept, vec![a, c]);
    let dispatch = Dispatch::new(PeerAddr(1), PeerAddr(2));
    let ((to, l), (to2, cs)) = dispatch.message_queries(a, b);
    assert_eq!((to, l.0, to2, cs), (PeerAddr(1), b, PeerAddr(2), CanSpeak(a, b)));
    let ((t1, g1), (t2, g2)) = dispatch.announce_queries(a);
    assert_eq!((t1, g1, t2, g2), (PeerAddr(2), GetBlocklist(a), PeerAddr(2), GetBlockedBy(a)));
    let (to, lm) = dispatch.announce_lookup(&vec![a, b], Ok(vec![b]), Ok(vec![])).unwrap();
    assert_eq!((to, lm.0), (PeerAddr(1), vec![a]));
    assert!(dispatch.announce_lookup(&vec![a], Err(()), Ok(vec![])).is_none());
}

#[test]
fn dispatch_delivers_only_when_allowed() {
    let b = uid(0, 1);
    let addr = UserAddress::new(b);
    assert_eq!(Dispatch::message_delivery(Ok(addr), Ok(true)), Some(ActorAddr::Inbox(b)));
    assert_eq!(Dispatch::message_delivery(Ok(addr), Ok(false)), None);
    assert_eq!(Dispatch::message_delivery(Err(()), Ok(true)), None);
    assert_eq!(Dispatch::message_delivery(Ok(addr), Err(())), None);
    let inboxes = Dispatch::announce_delivery(Ok((vec![addr, UserAddress::new(uid(0, 2))], vec![])));
    assert_eq!(inboxes, vec![ActorAddr::Inbox(b), ActorAddr::Inbox(uid(0, 2))]);
    assert!(Dispatch::announce_delivery(Err(())).is_empty());
}

#[test]
fn outbox_commands() {
    let me = uid(0, 0);
    let other = uid(0, 1);
    let o = Outbox::new(me);
    assert_eq!(o.user_id(), me);
    assert!(o.request_follow(RequestFollow(me)).is_none());
    let (rf, dm) = o.request_follow(RequestFollow(other)).unwrap();
    assert_eq!(rf, RequestFollow(other));
    assert_eq!((dm.0, dm.1, dm.2), (FollowRequest(me), me, other));
    assert!(o.follow_request_accepted(AcceptFollowRequest(other), None).is_none());
    let acc = o.follow_request_accepted(AcceptFollowRequest(other), Some(me)).unwrap();
    assert_eq!((acc.0, acc.1, acc.2), (FollowRequestAccepted(me), me, other));
    assert!(o.follow_request_denied(DenyFollowRequest(other), None).is_none());
    assert!(o.follow_request_denied(DenyFollowRequest(other), Some(me)).is_some());
    assert!(o.block_user(BlockUser(me)).is_none());
    let (bu, notice, block) = o.block_user(BlockUser(other)).unwrap();
    assert_eq!(bu, BlockUser(other));
    assert_eq!((notice.0, notice.1, notice.2), (Blocked(me), me, other));
    assert_eq!(block, Block(me, other));
    let (to_user, to_posts) = o.delete_post(DeletePost(pid(0, 4, 0)));
    assert!(to_user.0 == pid(0, 4, 0) && to_posts.0 == pid(0, 4, 0));
    let _unused: Option<DispatchMessage<Blocked>> = None;
}

#[test]
fn outbox_announces_to_followers_and_mentions() {
    let me = uid(0, 0);
    let o = Outbox::new(me);
    let (np, _) = o.new_post_out(&NewPostOut(vec![uid(0, 3)]), 77);
    assert_eq!((np.0, np.1.clone(), np.2), (me, vec![uid(0, 3)], 77));
    let id = pid(0, 0, 77);
    let (own, da) = o
        .post_created(&vec![uid(0, 3), uid(0, 1)], Ok(id), Ok(vec![uid(0, 1), uid(0, 2)]))
        .unwrap();
    assert!(own.0 == id);
    assert_eq!(own.1, me);
    assert_eq!(da.1, me);
    assert_eq!(sorted_users(da.2), vec![uid(0, 1), uid(0, 2), uid(0, 3)]);
    assert!(o.post_created(&vec![], Err(()), Ok(vec![])).is_none());
    assert!(o.post_created(&vec![], Ok(id), Err(())).is_none());
}

#[test]
fn inbox_cascade_steps() {
    let me = uid(0, 0);
    let blocker = uid(0, 1);
    let inbox = Inbox::new(PeerAddr(3));
    let (fwd, (to, lookup)) = inbox.blocked(Blocked(blocker));
    assert_eq!(fwd, Blocked(blocker));
    assert_eq!((to, lookup.0), (PeerAddr(3), blocker));
    let (user, _) = Inbox::blocker_found(Ok(UserAddress::new(blocker))).unwrap();
    assert_eq!(user, ActorAddr::User(blocker));
    assert!(Inbox::blocker_found(Err(())).is_none());
    let deletions = Inbox::blocker_posts(Ok(vec![pid(0, 1, 1), pid(0, 2, 2)]));
    assert_eq!(deletions.len(), 2);
    assert!(deletions[1].0 == pid(0, 2, 2));
    assert!(Inbox::blocker_posts(Err(())).is_empty());
    let _ = me;
}
