//! The Posts shard: issues post ids and keeps the posts of its peer group.
use vstd::prelude::*;

use crate::ids::{Id, PostId, PostsId, Timestamp, UserId};
use crate::peered::{next_page, HandleAnnounce, HandleMessage, HandleMessageType, PeeredInner};
use crate::store::{is_store_page, stored_all, Duplicate, Key, Store};
use crate::user_set::{copy_users, set_of};

verus! {

/// How many posts one backfill page carries.
pub const BACKFILL_CHUNK_SIZE: usize = 100;

/// A post: immutable once written.
#[derive(Clone, Debug)]
pub struct Post {
    pub post_id: PostId,
    pub author: UserId,
    pub mentions: Vec<UserId>,
}

pub struct PostView {
    pub post_id: PostId,
    pub author: UserId,
    pub mentions: Set<UserId>,
}

impl View for Post {
    type V = PostView;

    open spec fn view(&self) -> PostView {
        PostView { post_id: self.post_id, author: self.author, mentions: set_of(self.mentions@) }
    }
}

impl Duplicate for Post {
    fn duplicate(&self) -> (r: Post) {
        Post { post_id: self.post_id, author: self.author, mentions: copy_users(&self.mentions) }
    }
}

/// `NewPost(author, mentions, created)`: write a post. The shard that takes
/// it in stamps `created` with its clock.
#[derive(Clone, Debug)]
pub struct NewPost(pub UserId, pub Vec<UserId>, pub Timestamp);

/// Forget a post.
#[derive(Clone, Copy, Debug)]
pub struct DeletePost(pub PostId);

/// Look up posts by id.
#[derive(Clone, Debug)]
pub struct GetPostsByIds(pub Vec<PostId>);

/// A whole post, as a peer passes it on.
#[derive(Clone, Debug)]
pub struct NewPostFull(pub PostId, pub Post);

/// Asks how many posts a replica holds.
#[derive(Clone, Copy, Debug)]
pub struct PostSize;

/// The key a post is stored under.
pub open spec fn post_key(p: PostId) -> Key {
    p.key()
}

/// The posts of `m` that `ids` name, in the order of `ids`.
pub open spec fn found_posts(m: Map<Key, PostView>, ids: Seq<PostId>) -> Seq<PostView>
    decreases ids.len(),
{
    if ids.len() == 0 {
        Seq::empty()
    } else {
        let rest = found_posts(m, ids.drop_last());
        if m.contains_key(post_key(ids.last())) {
            rest.push(m[post_key(ids.last())])
        } else {
            rest
        }
    }
}

/// The ids of `ids` that name no post of `m`, in order.
pub open spec fn missing_posts(m: Map<Key, PostView>, ids: Seq<PostId>) -> Seq<PostId>
    decreases ids.len(),
{
    if ids.len() == 0 {
        Seq::empty()
    } else {
        let rest = missing_posts(m, ids.drop_last());
        if m.contains_key(post_key(ids.last())) {
            rest
        } else {
            rest.push(ids.last())
        }
    }
}

pub struct PostsView {
    pub posts_id: PostsId,
    /// The local id the next post gets.
    pub current_id: u64,
    pub posts: Map<Key, PostView>,
}

pub struct Posts {
    posts_id: PostsId,
    current_id: u64,
    posts: Store<Post>,
}

impl View for Posts {
    type V = PostsView;

    closed spec fn view(&self) -> PostsView {
        PostsView { posts_id: self.posts_id, current_id: self.current_id, posts: self.posts@ }
    }
}

impl Posts {
    pub closed spec fn wf(&self) -> bool {
        self.posts.wf()
    }

    /// The stored entries, in the order backfill pages them.
    pub closed spec fn entries(&self) -> Seq<(Key, Post)> {
        self.posts.entries()
    }

    /// The entries spell out the map of posts.
    pub proof fn lemma_entries(&self)
        requires
            self.wf(),
        ensures
            self@.posts == crate::store::map_of(self.entries()),
            crate::store::keys_distinct(self.entries()),
    {
        self.posts.lemma_entries();
    }

    pub fn new(posts_id: PostsId) -> (r: Self)
        ensures
            r.wf(),
            r@ == (PostsView { posts_id, current_id: 0, posts: Map::empty() }),
            r.entries().len() == 0,
    {
        Posts { posts_id: posts_id, current_id: 0, posts: Store::new() }
    }

    fn generate_post_id(&mut self, created: Timestamp) -> (r: PostId)
        requires
            old(self)@.current_id < u64::MAX,
        ensures
            r == PostId(old(self)@.posts_id, Id(old(self)@.current_id), created),
            final(self)@ == (PostsView { current_id: (old(self)@.current_id + 1) as u64, ..old(self)@ }),
            final(self).posts == old(self).posts,
    {
        let post_id = Id(self.current_id);
        self.current_id = self.current_id + 1;
        PostId::new(self.posts_id, post_id, created)
    }

    /// Writes a post under the next id of this shard.
    pub fn new_post(&mut self, author: UserId, mentions: Vec<UserId>, created: Timestamp) -> (r: (PostId, Post))
        requires
            old(self).wf(),
            old(self)@.current_id < u64::MAX,
        ensures
            final(self).wf(),
            r.0 == PostId(old(self)@.posts_id, Id(old(self)@.current_id), created),
            r.1@ == (PostView { post_id: r.0, author, mentions: set_of(mentions@) }),
            final(self)@ == (PostsView {
                current_id: (old(self)@.current_id + 1) as u64,
                posts: old(self)@.posts.insert(post_key(r.0), r.1@),
                ..old(self)@
            }),
    {
        let post_id = self.generate_post_id(created);
        let post = Post { post_id, author, mentions };
        self.add_post(post_id, post.duplicate());
        (post_id, post)
    }

    /// Stores `post` under `post_id`.
    pub fn add_post(&mut self, post_id: PostId, post: Post)
        requires
            old(self).wf(),
        ensures
            final(self).wf(),
            final(self)@ == (PostsView { posts: old(self)@.posts.insert(post_key(post_id), post@), ..old(self)@ }),
    {
        self.posts.insert((post_id.0.0, post_id.1.0), post);
    }

    /// Forgets the post `post_id` names, if it is here.
    pub fn delete_post(&mut self, post_id: PostId)
        requires
            old(self).wf(),
        ensures
            final(self).wf(),
            final(self)@ == (PostsView { posts: old(self)@.posts.remove(post_key(post_id)), ..old(self)@ }),
    {
        self.posts.remove((post_id.0.0, post_id.1.0));
    }

    /// The posts that `post_ids` name, in their order, and the ids that name
    /// none.
    pub fn get_posts(&self, post_ids: Vec<PostId>) -> (r: (Vec<Post>, Vec<PostId>))
        requires
            self.wf(),
        ensures
            r.0@.map_values(|p: Post| p@) == found_posts(self@.posts, post_ids@),
            r.1@ == missing_posts(self@.posts, post_ids@),
    {
        let mut posts: Vec<Post> = Vec::new();
        let mut missing: Vec<PostId> = Vec::new();
        let mut i: usize = 0;
        while i < post_ids.len()
            invariant
                self.wf(),
                0 <= i <= post_ids.len(),
                posts@.map_values(|p: Post| p@) == found_posts(self@.posts, post_ids@.subrange(0, i as int)),
                missing@ == missing_posts(self@.posts, post_ids@.subrange(0, i as int)),
            decreases post_ids.len() - i,
        {
            let post_id = post_ids[i];
            proof {
                let sub = post_ids@.subrange(0, i as int + 1);
                assert(sub.drop_last() =~= post_ids@.subrange(0, i as int));
                assert(sub.last() == post_id);
            }
            let ghost before = posts@;
            match self.posts.get((post_id.0.0, post_id.1.0)) {
                Some(post) => {
                    posts.push(post);
                    assert(posts@.map_values(|p: Post| p@) =~= before.map_values(|p: Post| p@).push(post@));
                },
                None => missing.push(post_id),
            }
            i = i + 1;
        }
        assert(post_ids@.subrange(0, post_ids@.len() as int) =~= post_ids@);
        (posts, missing)
    }

    /// How many posts the replica holds.
    pub fn size(&self) -> (r: usize)
        requires
            self.wf(),
        ensures
            r == self@.posts.dom().len(),
    {
        self.posts.len()
    }
}

impl PeeredInner for Posts {
    /// A cursor, and copies of the entries from it on.
    type Backfill = (usize, Vec<(Key, Post)>);
    type Request = usize;

    open spec fn inv(&self) -> bool {
        self.wf()
    }

    open spec fn is_backfill(&self, req: usize, page: (usize, Vec<(Key, Post)>)) -> bool {
        page.0 == req && is_store_page(self.entries(), req, BACKFILL_CHUNK_SIZE, page.1@)
    }

    open spec fn first_request(&self) -> usize {
        0
    }

    open spec fn backfill_step(&self, page: (usize, Vec<(Key, Post)>), after: Self, next: Option<usize>) -> bool {
        &&& after@ == (PostsView { posts: stored_all(self@.posts, page.1@), ..self@ })
        &&& next == next_page(page.0, page.1@.len(), BACKFILL_CHUNK_SIZE)
    }

    fn backfill(&self, req: usize) -> (r: (usize, Vec<(Key, Post)>)) {
        (req, self.posts.page(req, BACKFILL_CHUNK_SIZE))
    }

    fn backfill_init(&self) -> (r: usize) {
        0
    }

    fn handle_backfill(&mut self, backfill: (usize, Vec<(Key, Post)>)) -> (r: Option<usize>) {
        let (offset, entries) = backfill;
        let ret = if entries.len() == BACKFILL_CHUNK_SIZE && offset <= usize::MAX - BACKFILL_CHUNK_SIZE {
            Some(offset + BACKFILL_CHUNK_SIZE)
        } else {
            None
        };
        self.posts.extend(entries);
        ret
    }
}

impl HandleMessage<NewPost> for Posts {
    type Broadcast = NewPostFull;
    type Item = PostId;
    type Error = ();

    /// A new post, unless the shard has used up its ids.
    open spec fn message_step(&self, m: NewPost, after: Self, response: Result<PostId, ()>, broadcast: Option<NewPostFull>) -> bool {
        if self@.current_id < u64::MAX {
            let id = PostId(self@.posts_id, Id(self@.current_id), m.2);
            let post = PostView { post_id: id, author: m.0, mentions: set_of(m.1@) };
            &&& response == Ok::<PostId, ()>(id)
            &&& after@ == (PostsView {
                current_id: (self@.current_id + 1) as u64,
                posts: self@.posts.insert(post_key(id), post),
                ..self@
            })
            &&& broadcast matches Some(b) && b.0 == id && b.1@ == post
        } else {
            response == Err::<PostId, ()>(()) && after == *self && broadcast is None
        }
    }

    fn handle_message(&mut self, msg: NewPost) -> (r: HandleMessageType<PostId, (), NewPostFull>) {
        if self.current_id == u64::MAX {
            return (Err(()), None);
        }
        let NewPost(author, mentions, created) = msg;
        let (post_id, post) = self.new_post(author, mentions, created);
        (Ok(post_id), Some(NewPostFull(post_id, post)))
    }
}

impl HandleMessage<DeletePost> for Posts {
    type Broadcast = DeletePost;
    type Item = ();
    type Error = ();

    open spec fn message_step(&self, m: DeletePost, after: Self, response: Result<(), ()>, broadcast: Option<DeletePost>) -> bool {
        &&& after@ == (PostsView { posts: self@.posts.remove(post_key(m.0)), ..self@ })
        &&& response == Ok::<(), ()>(())
        &&& broadcast == Some(m)
    }

    fn handle_message(&mut self, msg: DeletePost) -> (r: HandleMessageType<(), (), DeletePost>) {
        self.delete_post(msg.0);
        (Ok(()), Some(msg))
    }
}

impl HandleMessage<GetPostsByIds> for Posts {
    type Broadcast = ();
    type Item = (Vec<Post>, Vec<PostId>);
    type Error = ();

    open spec fn message_step(&self, m: GetPostsByIds, after: Self, response: Result<(Vec<Post>, Vec<PostId>), ()>, broadcast: Option<()>) -> bool {
        &&& after == *self
        &&& broadcast is None
        &&& response matches Ok(r) && r.0@.map_values(|p: Post| p@) == found_posts(self@.posts, m.0@) && r.1@
            == missing_posts(self@.posts, m.0@)
    }

    fn handle_message(&mut self, msg: GetPostsByIds) -> (r: HandleMessageType<(Vec<Post>, Vec<PostId>), (), ()>) {
        (Ok(self.get_posts(msg.0)), None)
    }
}

impl HandleMessage<PostSize> for Posts {
    type Broadcast = ();
    type Item = usize;
    type Error = ();

    open spec fn message_step(&self, m: PostSize, after: Self, response: Result<usize, ()>, broadcast: Option<()>) -> bool {
        &&& after == *self
        &&& broadcast is None
        &&& response matches Ok(n) && n == self@.posts.dom().len()
    }

    fn handle_message(&mut self, msg: PostSize) -> (r: HandleMessageType<usize, (), ()>) {
        (Ok(self.size()), None)
    }
}

impl HandleAnnounce<NewPostFull> for Posts {
    type Item = ();
    type Error = ();

    open spec fn announce_step(&self, m: NewPostFull, after: Self, response: Result<(), ()>) -> bool {
        after@ == (PostsView { posts: self@.posts.insert(post_key(m.0), m.1@), ..self@ }) && response == Ok::<
            (),
            (),
        >(())
    }

    fn handle_announce(&mut self, msg: NewPostFull) -> (r: Result<(), ()>) {
        self.add_post(msg.0, msg.1);
        Ok(())
    }
}

impl HandleAnnounce<DeletePost> for Posts {
    type Item = ();
    type Error = ();

    open spec fn announce_step(&self, m: DeletePost, after: Self, response: Result<(), ()>) -> bool {
        after@ == (PostsView { posts: self@.posts.remove(post_key(m.0)), ..self@ }) && response == Ok::<(), ()>(())
    }

    fn handle_announce(&mut self, msg: DeletePost) -> (r: Result<(), ()>) {
        self.delete_post(msg.0);
        Ok(())
    }
}

} // verus!
