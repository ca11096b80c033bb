//! The private state of one user, and the messages its actors exchange.
use vstd::prelude::*;

use crate::ids::{PostId, UserId};
use crate::post_set::{has_key, is_newest, PostIdSet};
use crate::user_set::{contains_user, copy_users, insert_user, remove_user, set_of};

verus! {

/// How many post ids a listing returns.
pub const PAGE_OF_POSTS: usize = 10;

/// A post reaches a user: its id, its author, the users it mentions.
#[derive(Clone, Debug)]
pub struct NewPostIn(pub PostId, pub UserId, pub Vec<UserId>);

/// A user asks to write a post mentioning these users.
#[derive(Clone, Debug)]
pub struct NewPostOut(pub Vec<UserId>);

/// Asks for the newest ids among the user's own and received posts.
#[derive(Clone, Copy, Debug, PartialEq, Eq, Structural)]
pub struct GetPostIds;

/// Asks for the newest ids among the user's own posts.
#[derive(Clone, Copy, Debug, PartialEq, Eq, Structural)]
pub struct GetUserPostIds;

/// Asks a user for the Posts shard it writes to.
#[derive(Clone, Copy, Debug, PartialEq, Eq, Structural)]
pub struct GetPosts;

/// Asks for the users that follow a user.
#[derive(Clone, Copy, Debug, PartialEq, Eq, Structural)]
pub struct GetFollowers;

/// The named user asks to follow the recipient.
#[derive(Clone, Copy, Debug, PartialEq, Eq, Structural)]
pub struct FollowRequest(pub UserId);

/// The recipient accepts the named user's follow request.
#[derive(Clone, Copy, Debug, PartialEq, Eq, Structural)]
pub struct AcceptFollowRequest(pub UserId);

/// The recipient turns down the named user's follow request.
#[derive(Clone, Copy, Debug, PartialEq, Eq, Structural)]
pub struct DenyFollowRequest(pub UserId);

/// The recipient asks to follow the named user.
#[derive(Clone, Copy, Debug, PartialEq, Eq, Structural)]
pub struct RequestFollow(pub UserId);

/// The named user accepted the recipient's follow request.
#[derive(Clone, Copy, Debug, PartialEq, Eq, Structural)]
pub struct FollowRequestAccepted(pub UserId);

/// The named user turned down the recipient's follow request.
#[derive(Clone, Copy, Debug, PartialEq, Eq, Structural)]
pub struct FollowRequestDenied(pub UserId);

/// The recipient blocks the named user.
#[derive(Clone, Copy, Debug, PartialEq, Eq, Structural)]
pub struct BlockUser(pub UserId);

/// The named user has blocked the recipient.
#[derive(Clone, Copy, Debug, PartialEq, Eq, Structural)]
pub struct Blocked(pub UserId);

/// `s` with `p` added, unless it already holds that post.
pub open spec fn add_post(s: Set<PostId>, p: PostId) -> Set<PostId> {
    if exists|q: PostId| #[trigger] s.contains(q) && q.key() == p.key() {
        s
    } else {
        s.insert(p)
    }
}

/// `s` without the post that `p` names.
pub open spec fn drop_post(s: Set<PostId>, p: PostId) -> Set<PostId> {
    s.filter(|q: PostId| q.key() != p.key())
}

/// Whether a user takes another author's post: it follows the author, or the
/// post mentions it and it does not block the author.
pub open spec fn takes_post(u: UserView, author: UserId, mentions: Set<UserId>) -> bool {
    u.following.contains(author) || (mentions.contains(u.user_id) && !u.blocklist.contains(author))
}

/// What a user's state holds, as sets.
pub struct UserView {
    pub user_id: UserId,
    /// Posts this user wrote.
    pub my_posts: Set<PostId>,
    /// Posts received from followed or mentioning users.
    pub feed_posts: Set<PostId>,
    pub followers: Set<UserId>,
    pub following: Set<UserId>,
    /// Users waiting for this user's answer.
    pub follow_requests: Set<UserId>,
    /// Users this user asked to follow, still unanswered.
    pub pending_follows: Set<UserId>,
    /// Users whose posts this user no longer takes.
    pub blocklist: Set<UserId>,
}

pub struct User {
    user_id: UserId,
    posts: PostIdSet,
    my_posts: PostIdSet,
    followers: Vec<UserId>,
    following: Vec<UserId>,
    follow_requests: Vec<UserId>,
    pending_follows: Vec<UserId>,
    blocklist: Vec<UserId>,
}

impl View for User {
    type V = UserView;

    closed spec fn view(&self) -> UserView {
        UserView {
            user_id: self.user_id,
            my_posts: self.my_posts@.to_set(),
            feed_posts: self.posts@.to_set(),
            followers: set_of(self.followers@),
            following: set_of(self.following@),
            follow_requests: set_of(self.follow_requests@),
            pending_follows: set_of(self.pending_follows@),
            blocklist: set_of(self.blocklist@),
        }
    }
}

proof fn lemma_set_add(s: Seq<PostId>, t: Seq<PostId>, p: PostId)
    requires
        has_key(s, p) ==> t == s,
        !has_key(s, p) ==> forall|q: PostId| #[trigger] t.contains(q) <==> s.contains(q) || q == p,
    ensures
        t.to_set() == add_post(s.to_set(), p),
{
    if has_key(s, p) {
        let i = choose|i: int| 0 <= i < s.len() && (#[trigger] s[i]).key() == p.key();
        assert(s.to_set().contains(s[i]));
    } else {
        assert forall|q: PostId| #[trigger] s.to_set().contains(q) implies q.key() != p.key() by {
            let i = choose|i: int| 0 <= i < s.len() && s[i] == q;
        }
        assert(t.to_set() =~= s.to_set().insert(p));
    }
}

proof fn lemma_set_drop(s: Seq<PostId>, t: Seq<PostId>, p: PostId)
    requires
        forall|q: PostId| #[trigger] t.contains(q) <==> s.contains(q) && q.key() != p.key(),
    ensures
        t.to_set() == drop_post(s.to_set(), p),
{
    assert(t.to_set() =~= drop_post(s.to_set(), p));
}

impl User {
    pub closed spec fn wf(&self) -> bool {
        &&& self.posts.wf()
        &&& self.my_posts.wf()
        &&& self.followers@.no_duplicates()
        &&& self.following@.no_duplicates()
        &&& self.follow_requests@.no_duplicates()
        &&& self.pending_follows@.no_duplicates()
        &&& self.blocklist@.no_duplicates()
    }

    pub fn new(user_id: UserId) -> (r: Self)
        ensures
            r.wf(),
            r@ == (UserView {
                user_id,
                my_posts: Set::empty(),
                feed_posts: Set::empty(),
                followers: Set::empty(),
                following: Set::empty(),
                follow_requests: Set::empty(),
                pending_follows: Set::empty(),
                blocklist: Set::empty(),
            }),
    {
        let r = User {
            user_id: user_id,
            posts: PostIdSet::new(),
            my_posts: PostIdSet::new(),
            followers: Vec::new(),
            following: Vec::new(),
            follow_requests: Vec::new(),
            pending_follows: Vec::new(),
            blocklist: Vec::new(),
        };
        assert(r@.my_posts =~= Set::empty());
        assert(r@.feed_posts =~= Set::empty());
        assert(r@.followers =~= Set::empty());
        assert(r@.following =~= Set::empty());
        assert(r@.follow_requests =~= Set::empty());
        assert(r@.pending_follows =~= Set::empty());
        assert(r@.blocklist =~= Set::empty());
        r
    }

    pub fn user_id(&self) -> (r: UserId)
        ensures
            r == self@.user_id,
    {
        self.user_id
    }

    /// The (at most ten) newest posts this user wrote, newest first.
    pub fn get_10_user_post_ids(&self) -> (r: Vec<PostId>)
        requires
            self.wf(),
        ensures
            is_newest(r@, self@.my_posts, PAGE_OF_POSTS as nat),
    {
        self.my_posts.newest(PAGE_OF_POSTS)
    }

    /// The (at most ten) newest posts among those this user wrote and those it
    /// received, newest first: a merge of the two ordered sets from their ends.
    pub fn get_10_post_ids(&self) -> (r: Vec<PostId>)
        requires
            self.wf(),
        ensures
            is_newest(r@, self@.my_posts.union(self@.feed_posts), PAGE_OF_POSTS as nat),
    {
        let a = &self.posts;
        let b = &self.my_posts;
        let ghost pool = self@.my_posts.union(self@.feed_posts);
        let mut ia: usize = a.len();
        let mut ib: usize = b.len();
        let mut r: Vec<PostId> = Vec::new();
        while r.len() < PAGE_OF_POSTS && (ia > 0 || ib > 0)
            invariant
                a.wf(),
                b.wf(),
                pool == b@.to_set().union(a@.to_set()),
                ia <= a@.len(),
                ib <= b@.len(),
                r.len() <= PAGE_OF_POSTS,
                forall|i: int, j: int| 0 <= i < j < r.len() ==> (#[trigger] r@[j]).precedes(#[trigger] r@[i]),
                forall|i: int| 0 <= i < r.len() ==> pool.contains(#[trigger] r@[i]),
                forall|k: int| ia <= k < a@.len() ==> r@.contains(#[trigger] a@[k]),
                forall|k: int| ib <= k < b@.len() ==> r@.contains(#[trigger] b@[k]),
                forall|k: int, i: int|
                    0 <= k < ia && 0 <= i < r.len() ==> (#[trigger] a@[k]).precedes(#[trigger] r@[i]),
                forall|k: int, i: int|
                    0 <= k < ib && 0 <= i < r.len() ==> (#[trigger] b@[k]).precedes(#[trigger] r@[i]),
            decreases ia + ib,
        {
            let ghost old_r = r@;
            let take_a: bool;
            let take_b: bool;
            if ia > 0 && ib > 0 {
                let x = a.at(ia - 1);
                let y = b.at(ib - 1);
                if y.is_before(&x) {
                    take_a = true;
                    take_b = false;
                } else if x.is_before(&y) {
                    take_a = false;
                    take_b = true;
                } else {
                    take_a = true;
                    take_b = true;
                }
            } else {
                take_a = ia > 0;
                take_b = ia == 0;
            }
            let e = if take_a { a.at(ia - 1) } else { b.at(ib - 1) };
            proof {
                if take_a {
                    assert(a@.to_set().contains(a@[ia - 1]));
                } else {
                    assert(b@.to_set().contains(b@[ib - 1]));
                }
                if take_a && take_b {
                    assert(a@[ia - 1] == b@[ib - 1]);
                }
            }
            r.push(e);
            proof {
                assert(r@[old_r.len() as int] == e);
                assert forall|k: int| 0 <= k < old_r.len() implies r@[k] == old_r[k] by {}
                let ghost na: int = if take_a { ia - 1 } else { ia as int };
                let ghost nb: int = if take_b { ib - 1 } else { ib as int };
                assert forall|k: int| na <= k < a@.len() implies r@.contains(#[trigger] a@[k]) by {
                    if k == na && take_a {
                        assert(r@[old_r.len() as int] == a@[k]);
                    } else {
                        let j = choose|j: int| 0 <= j < old_r.len() && old_r[j] == a@[k];
                        assert(r@[j] == a@[k]);
                    }
                }
                assert forall|k: int| nb <= k < b@.len() implies r@.contains(#[trigger] b@[k]) by {
                    if k == nb && take_b {
                        assert(r@[old_r.len() as int] == b@[k]);
                    } else {
                        let j = choose|j: int| 0 <= j < old_r.len() && old_r[j] == b@[k];
                        assert(r@[j] == b@[k]);
                    }
                }
                assert forall|k: int, i: int| 0 <= k < na && 0 <= i < r.len() implies (#[trigger] a@[k]).precedes(
                    #[trigger] r@[i],
                ) by {
                    if i == old_r.len() {
                        if take_a {
                            assert(a@[k].precedes(a@[ia - 1]));
                        } else {
                            assert(a@[k].precedes(a@[ia - 1]) || k == ia - 1);
                        }
                    }
                }
                assert forall|k: int, i: int| 0 <= k < nb && 0 <= i < r.len() implies (#[trigger] b@[k]).precedes(
                    #[trigger] r@[i],
                ) by {
                    if i == old_r.len() {
                        if take_b {
                            assert(b@[k].precedes(b@[ib - 1]));
                        } else {
                            assert(b@[k].precedes(b@[ib - 1]) || k == ib - 1);
                        }
                    }
                }
            }
            if take_a {
                ia = ia - 1;
            }
            if take_b {
                ib = ib - 1;
            }
        }
        proof {
            assert forall|x: PostId| #[trigger] pool.contains(x) && !r@.contains(x) implies r@.len()
                == PAGE_OF_POSTS && (r@.len() > 0 ==> x.precedes(r@[r@.len() - 1])) by {
                if a@.to_set().contains(x) {
                    let m = choose|m: int| 0 <= m < a@.len() && a@[m] == x;
                    assert(m < ia);
                    if r@.len() > 0 {
                        assert(a@[m].precedes(r@[r@.len() - 1]));
                    }
                } else {
                    let m = choose|m: int| 0 <= m < b@.len() && b@[m] == x;
                    assert(m < ib);
                    if r@.len() > 0 {
                        assert(b@[m].precedes(r@[r@.len() - 1]));
                    }
                }
            }
        }
        r
    }

    /// Stores a post that reached this user: its own posts go to `my_posts`;
    /// another's go to `feed_posts` when this user follows the author, or is
    /// mentioned by an author it does not block. Any other post is dropped, and
    /// the result says whether the post was kept.
    pub fn new_post(&mut self, post_id: PostId, author: UserId, mentions: &Vec<UserId>) -> (r: bool)
        requires
            old(self).wf(),
        ensures
            final(self).wf(),
            r == (author == old(self)@.user_id || takes_post(old(self)@, author, set_of(mentions@))),
            author == old(self)@.user_id ==> final(self)@ == (UserView {
                my_posts: add_post(old(self)@.my_posts, post_id),
                ..old(self)@
            }),
            author != old(self)@.user_id && r ==> final(self)@ == (UserView {
                feed_posts: add_post(old(self)@.feed_posts, post_id),
                ..old(self)@
            }),
            !r ==> final(self)@ == old(self)@,
    {
        if author == self.user_id {
            let ghost before = self.my_posts@;
            self.my_posts.insert(post_id);
            proof {
                lemma_set_add(before, self.my_posts@, post_id);
            }
            true
        } else if contains_user(&self.following, author) || (contains_user(mentions, self.user_id)
            && !contains_user(&self.blocklist, author)) {
            proof {
                assert(set_of(mentions@).contains(self.user_id) == mentions@.contains(self.user_id));
            }
            let ghost before = self.posts@;
            self.posts.insert(post_id);
            proof {
                lemma_set_add(before, self.posts@, post_id);
            }
            true
        } else {
            false
        }
    }

    /// Forgets the post that `post_id` names, whichever set holds it.
    pub fn delete_post(&mut self, post_id: PostId)
        requires
            old(self).wf(),
        ensures
            final(self).wf(),
            final(self)@ == (UserView {
                my_posts: drop_post(old(self)@.my_posts, post_id),
                feed_posts: drop_post(old(self)@.feed_posts, post_id),
                ..old(self)@
            }),
    {
        let ghost mine = self.my_posts@;
        let ghost feed = self.posts@;
        self.my_posts.remove(&post_id);
        self.posts.remove(&post_id);
        proof {
            lemma_set_drop(mine, self.my_posts@, post_id);
            lemma_set_drop(feed, self.posts@, post_id);
        }
    }

    /// The users that follow this user.
    pub fn followers(&self) -> (r: Vec<UserId>)
        ensures
            set_of(r@) == self@.followers,
    {
        copy_users(&self.followers)
    }

    /// The users this user does not take posts from.
    pub fn blocklist(&self) -> (r: Vec<UserId>)
        ensures
            set_of(r@) == self@.blocklist,
    {
        copy_users(&self.blocklist)
    }

    /// Records that `user_id` asks to follow this user.
    pub fn follow_request(&mut self, user_id: UserId)
        requires
            old(self).wf(),
        ensures
            final(self).wf(),
            final(self)@ == (UserView {
                follow_requests: old(self)@.follow_requests.insert(user_id),
                ..old(self)@
            }),
    {
        insert_user(&mut self.follow_requests, user_id);
    }

    /// Accepts the request of `user_id`, if there is one: it becomes a
    /// follower. Returns this user's id for the answer, or `None` when no such
    /// request was waiting (and nothing changes).
    pub fn accept_follow_request(&mut self, user_id: UserId) -> (r: Option<UserId>)
        requires
            old(self).wf(),
        ensures
            final(self).wf(),
            old(self)@.follow_requests.contains(user_id) ==> r == Some(old(self)@.user_id) && final(self)@
                == (UserView {
                follow_requests: old(self)@.follow_requests.remove(user_id),
                followers: old(self)@.followers.insert(user_id),
                ..old(self)@
            }),
            !old(self)@.follow_requests.contains(user_id) ==> r is None && final(self)@ == old(self)@,
    {
        match self.answer_follow_request(user_id) {
            Some(u) => {
                insert_user(&mut self.followers, u);
                Some(self.user_id)
            },
            None => {
                assert(self@.follow_requests =~= old(self)@.follow_requests);
                None
            },
        }
    }

    /// Turns down the request of `user_id`, if there is one. Returns this
    /// user's id for the answer, or `None` when no such request was waiting.
    pub fn deny_follow_request(&mut self, user_id: UserId) -> (r: Option<UserId>)
        requires
            old(self).wf(),
        ensures
            final(self).wf(),
            old(self)@.follow_requests.contains(user_id) ==> r == Some(old(self)@.user_id),
            !old(self)@.follow_requests.contains(user_id) ==> r is None,
            final(self)@ == (UserView {
                follow_requests: old(self)@.follow_requests.remove(user_id),
                ..old(self)@
            }),
    {
        match self.answer_follow_request(user_id) {
            Some(_) => Some(self.user_id),
            None => None,
        }
    }

    /// Takes the request of `user_id` off the waiting list; returns `user_id`
    /// if it was there.
    pub fn answer_follow_request(&mut self, user_id: UserId) -> (r: Option<UserId>)
        requires
            old(self).wf(),
        ensures
            final(self).wf(),
            old(self)@.follow_requests.contains(user_id) ==> r == Some(user_id),
            !old(self)@.follow_requests.contains(user_id) ==> r is None,
            final(self)@ == (UserView {
                follow_requests: old(self)@.follow_requests.remove(user_id),
                ..old(self)@
            }),
    {
        proof {
            assert(set_of(self.follow_requests@).contains(user_id) == self.follow_requests@.contains(
                user_id,
            ));
        }
        if remove_user(&mut self.follow_requests, user_id) {
            Some(user_id)
        } else {
            None
        }
    }

    /// Records that this user asked to follow `user_id`.
    pub fn request_follow(&mut self, user_id: UserId)
        requires
            old(self).wf(),
        ensures
            final(self).wf(),
            final(self)@ == (UserView {
                pending_follows: old(self)@.pending_follows.insert(user_id),
                ..old(self)@
            }),
    {
        insert_user(&mut self.pending_follows, user_id);
    }

    /// `user_id` accepted: this user now follows it.
    pub fn follow_request_accepted(&mut self, user_id: UserId)
        requires
            old(self).wf(),
        ensures
            final(self).wf(),
            final(self)@ == (UserView {
                pending_follows: old(self)@.pending_follows.remove(user_id),
                following: old(self)@.following.insert(user_id),
                ..old(self)@
            }),
    {
        remove_user(&mut self.pending_follows, user_id);
        insert_user(&mut self.following, user_id);
    }

    /// `user_id` turned the request down.
    pub fn follow_request_denied(&mut self, user_id: UserId)
        requires
            old(self).wf(),
        ensures
            final(self).wf(),
            final(self)@ == (UserView {
                pending_follows: old(self)@.pending_follows.remove(user_id),
                ..old(self)@
            }),
    {
        remove_user(&mut self.pending_follows, user_id);
    }

    /// This user blocks `user_id`.
    pub fn block_user(&mut self, user_id: UserId)
        requires
            old(self).wf(),
        ensures
            final(self).wf(),
            final(self)@ == (UserView { blocklist: old(self)@.blocklist.insert(user_id), ..old(self)@ }),
    {
        insert_user(&mut self.blocklist, user_id);
    }

    /// `user_id` has blocked this user: its posts are no longer taken.
    pub fn blocked_by(&mut self, user_id: UserId)
        requires
            old(self).wf(),
        ensures
            final(self).wf(),
            final(self)@ == (UserView { blocklist: old(self)@.blocklist.insert(user_id), ..old(self)@ }),
    {
        insert_user(&mut self.blocklist, user_id);
    }
}

} // verus!
