//! Ordered sets of post ids: a vector kept in ascending post order, with at
//! most one entry for each post.
use vstd::prelude::*;

use crate::ids::PostId;

verus! {

/// Each entry precedes every later one.
pub open spec fn sorted(s: Seq<PostId>) -> bool {
    forall|i: int, j: int| 0 <= i < j < s.len() ==> (#[trigger] s[i]).precedes(#[trigger] s[j])
}

/// No two entries name the same post.
pub open spec fn keys_unique(s: Seq<PostId>) -> bool {
    forall|i: int, j: int|
        0 <= i < s.len() && 0 <= j < s.len() && i != j ==> (#[trigger] s[i]).key() != (#[trigger] s[j]).key()
}

/// Whether some entry names the same post as `p`.
pub open spec fn has_key(s: Seq<PostId>, p: PostId) -> bool {
    exists|i: int| 0 <= i < s.len() && (#[trigger] s[i]).key() == p.key()
}

/// `r` lists the `k` newest ids of `pool` (all of them, if there are fewer),
/// newest first.
pub open spec fn is_newest(r: Seq<PostId>, pool: Set<PostId>, k: nat) -> bool {
    &&& r.len() <= k
    &&& forall|i: int, j: int| 0 <= i < j < r.len() ==> (#[trigger] r[j]).precedes(#[trigger] r[i])
    &&& forall|i: int| 0 <= i < r.len() ==> pool.contains(#[trigger] r[i])
    &&& forall|x: PostId|
        #[trigger] pool.contains(x) && !r.contains(x) ==> r.len() == k && (r.len() > 0 ==> x.precedes(
            r[r.len() - 1],
        ))
}

pub struct PostIdSet {
    ids: Vec<PostId>,
}

impl View for PostIdSet {
    type V = Seq<PostId>;

    closed spec fn view(&self) -> Seq<PostId> {
        self.ids@
    }
}

impl PostIdSet {
    pub open spec fn wf(&self) -> bool {
        sorted(self@) && keys_unique(self@)
    }

    pub fn new() -> (r: Self)
        ensures
            r.wf(),
            r@ == Seq::<PostId>::empty(),
    {
        PostIdSet { ids: Vec::new() }
    }

    pub fn len(&self) -> (r: usize)
        ensures
            r == self@.len(),
    {
        self.ids.len()
    }

    pub fn at(&self, i: usize) -> (r: PostId)
        requires
            i < self@.len(),
        ensures
            r == self@[i as int],
    {
        self.ids[i]
    }

    /// The position of the entry for the same post as `p`, if any.
    fn find(&self, p: &PostId) -> (r: Option<usize>)
        ensures
            r is None ==> !has_key(self@, *p),
            r matches Some(i) ==> i < self@.len() && self@[i as int].key() == p.key(),
    {
        let mut i: usize = 0;
        while i < self.ids.len()
            invariant
                0 <= i <= self.ids.len(),
                forall|k: int| 0 <= k < i ==> (#[trigger] self.ids@[k]).key() != p.key(),
            decreases self.ids.len() - i,
        {
            if self.ids[i].same_post(p) {
                return Some(i);
            }
            i = i + 1;
        }
        None
    }

    pub fn contains(&self, p: &PostId) -> (r: bool)
        ensures
            r == has_key(self@, *p),
    {
        self.find(p).is_some()
    }

    /// Adds `p`, unless the set already holds that post.
    pub fn insert(&mut self, p: PostId)
        requires
            old(self).wf(),
        ensures
            final(self).wf(),
            has_key(old(self)@, p) ==> final(self)@ == old(self)@,
            !has_key(old(self)@, p) ==> forall|q: PostId|
                #[trigger] final(self)@.contains(q) <==> old(self)@.contains(q) || q == p,
            final(self)@.len() <= old(self)@.len() + 1,
    {
        if self.find(&p).is_some() {
            return;
        }
        let mut pos: usize = 0;
        while pos < self.ids.len() && !p.is_before(&self.ids[pos])
            invariant
                0 <= pos <= self.ids.len(),
                forall|k: int| 0 <= k < pos ==> !p.precedes(#[trigger] self.ids@[k]),
            decreases self.ids.len() - pos,
        {
            pos = pos + 1;
        }
        let ghost before = self.ids@;
        self.ids.insert(pos, p);
        assert(self.ids@ == before.insert(pos as int, p));
        assert forall|i: int, j: int| 0 <= i < j < self.ids@.len() implies (#[trigger] self.ids@[i]).precedes(
            #[trigger] self.ids@[j],
        ) by {
            if j < pos {
            } else if j == pos {
                assert(!p.precedes(before[i]));
                assert(before[i].key() != p.key());
            } else if i < pos {
                assert(!p.precedes(before[i]));
                assert(before[i].key() != p.key());
                assert(before[i].precedes(before[j - 1]));
            } else if i == pos {
                if j - 1 > pos {
                    assert(before[pos as int].precedes(before[j - 1]));
                }
            } else {
            }
        }
        assert forall|q: PostId| #[trigger] self.ids@.contains(q) <==> before.contains(q) || q == p by {
            if before.contains(q) {
                let k = choose|k: int| 0 <= k < before.len() && before[k] == q;
                if k < pos {
                    assert(self.ids@[k] == q);
                } else {
                    assert(self.ids@[k + 1] == q);
                }
            }
            if q == p {
                assert(self.ids@[pos as int] == p);
            }
            if self.ids@.contains(q) {
                let k = choose|k: int| 0 <= k < self.ids@.len() && self.ids@[k] == q;
                if k < pos {
                    assert(before[k] == q);
                } else if k > pos {
                    assert(before[k - 1] == q);
                }
            }
        }
    }

    /// Takes out the entry for the same post as `p`, if there is one.
    pub fn remove(&mut self, p: &PostId)
        requires
            old(self).wf(),
        ensures
            final(self).wf(),
            forall|q: PostId|
                #[trigger] final(self)@.contains(q) <==> old(self)@.contains(q) && q.key() != p.key(),
            !has_key(final(self)@, *p),
    {
        match self.find(p) {
            None => {
                assert forall|q: PostId| #[trigger] self@.contains(q) implies q.key() != p.key() by {
                    let k = choose|k: int| 0 <= k < self@.len() && self@[k] == q;
                }
            },
            Some(i) => {
                let ghost before = self.ids@;
                self.ids.remove(i);
                assert(self.ids@ == before.remove(i as int));
                assert forall|a: int, b: int| 0 <= a < b < self.ids@.len() implies (#[trigger] self.ids@[a]).precedes(
                    #[trigger] self.ids@[b],
                ) by {
                    let a1 = if a < i { a } else { a + 1 };
                    let b1 = if b < i { b } else { b + 1 };
                    assert(self.ids@[a] == before[a1] && self.ids@[b] == before[b1]);
                }
                assert forall|a: int, b: int|
                    0 <= a < self.ids@.len() && 0 <= b < self.ids@.len() && a != b implies (
                    #[trigger] self.ids@[a]).key() != (#[trigger] self.ids@[b]).key() by {
                    let a1 = if a < i { a } else { a + 1 };
                    let b1 = if b < i { b } else { b + 1 };
                    assert(self.ids@[a] == before[a1] && self.ids@[b] == before[b1]);
                }
                assert forall|q: PostId| #[trigger] self.ids@.contains(q) <==> before.contains(q) && q.key()
                    != p.key() by {
                    if before.contains(q) && q.key() != p.key() {
                        let k = choose|k: int| 0 <= k < before.len() && before[k] == q;
                        if k < i {
                            assert(self.ids@[k] == q);
                        } else {
                            assert(k != i);
                            assert(self.ids@[k - 1] == q);
                        }
                    }
                    if self.ids@.contains(q) {
                        let k = choose|k: int| 0 <= k < self.ids@.len() && self.ids@[k] == q;
                        let k1 = if k < i { k } else { k + 1 };
                        assert(before[k1] == q);
                        assert(k1 != i);
                    }
                }
                assert forall|k: int| 0 <= k < self.ids@.len() implies (#[trigger] self.ids@[k]).key() != p.key() by {
                    let k1 = if k < i { k } else { k + 1 };
                    assert(self.ids@[k] == before[k1]);
                    assert(k1 != i);
                }
            },
        }
    }

    /// The `k` newest ids, newest first.
    pub fn newest(&self, k: usize) -> (r: Vec<PostId>)
        requires
            self.wf(),
        ensures
            is_newest(r@, self@.to_set(), k as nat),
    {
        let n = self.ids.len();
        let mut r: Vec<PostId> = Vec::new();
        let mut i: usize = n;
        while i > 0 && r.len() < k
            invariant
                n == self.ids@.len(),
                sorted(self.ids@),
                0 <= i <= n,
                r.len() == n - i,
                r.len() <= k,
                forall|j: int| 0 <= j < r.len() ==> #[trigger] r@[j] == self.ids@[n - 1 - j],
            decreases i,
        {
            i = i - 1;
            r.push(self.ids[i]);
        }
        let ghost pool = self.ids@.to_set();
        assert forall|a: int, b: int| 0 <= a < b < r@.len() implies (#[trigger] r@[b]).precedes(#[trigger] r@[a]) by {
            assert(self.ids@[n - 1 - b].precedes(self.ids@[n - 1 - a]));
        }
        assert forall|j: int| 0 <= j < r@.len() implies pool.contains(#[trigger] r@[j]) by {
            assert(self.ids@.contains(self.ids@[n - 1 - j]));
        }
        assert forall|x: PostId| #[trigger] pool.contains(x) && !r@.contains(x) implies r@.len() == k && (r@.len()
            > 0 ==> x.precedes(r@[r@.len() - 1])) by {
            let m = choose|m: int| 0 <= m < n && self.ids@[m] == x;
            if m >= i {
                assert(r@[n - 1 - m] == x);
            }
            if r@.len() > 0 {
                assert(r@[r@.len() - 1] == self.ids@[n - r@.len()]);
                assert(self.ids@[m].precedes(self.ids@[i as int]));
            }
        }
        r
    }
}

} // verus!
