//! A map from two-part integer keys to values, held as a vector of entries
//! with distinct keys. Posts and Users shards keep their records in one.
use vstd::prelude::*;

verus! {

/// The key of a record: a shard id and a local id.
pub type Key = (u64, u64);

/// A value that can be copied exactly, as far as its view goes.
pub trait Duplicate: View + Sized {
    fn duplicate(&self) -> (r: Self)
        ensures
            r@ == self@,
    ;
}

/// No two entries share a key.
pub open spec fn keys_distinct<V>(s: Seq<(Key, V)>) -> bool {
    forall|i: int, j: int| 0 <= i < s.len() && 0 <= j < s.len() && i != j ==> (#[trigger] s[i]).0 != (#[trigger] s[j]).0
}

/// Some entry has key `k`.
pub open spec fn has_entry<V>(s: Seq<(Key, V)>, k: Key) -> bool {
    exists|i: int| 0 <= i < s.len() && (#[trigger] s[i]).0 == k
}

/// The map that the entries spell out.
pub open spec fn map_of<V: View>(s: Seq<(Key, V)>) -> Map<Key, V::V> {
    Map::new(|k: Key| has_entry(s, k), |k: Key| s[choose|i: int| 0 <= i < s.len() && (#[trigger] s[i]).0 == k].1@)
}

/// The keys of the entries, in order.
pub open spec fn keys_of<V>(s: Seq<(Key, V)>) -> Seq<Key> {
    s.map_values(|e: (Key, V)| e.0)
}

proof fn lemma_map_at<V: View>(s: Seq<(Key, V)>, i: int)
    requires
        keys_distinct(s),
        0 <= i < s.len(),
    ensures
        map_of(s).contains_key(s[i].0),
        map_of(s)[s[i].0] == s[i].1@,
{
    let k = s[i].0;
    assert(has_entry(s, k));
    let j = choose|j: int| 0 <= j < s.len() && (#[trigger] s[j]).0 == k;
    assert(j == i);
}

pub proof fn lemma_map_size<V: View>(s: Seq<(Key, V)>)
    requires
        keys_distinct(s),
    ensures
        map_of(s).dom().len() == s.len(),
        map_of(s).dom().finite(),
{
    let ks = keys_of(s);
    assert(ks.no_duplicates()) by {
        assert forall|i: int, j: int| 0 <= i < ks.len() && 0 <= j < ks.len() && i != j implies ks[i] != ks[j] by {
            assert(ks[i] == s[i].0 && ks[j] == s[j].0);
        }
    }
    ks.unique_seq_to_set();
    assert(map_of(s).dom() =~= ks.to_set()) by {
        assert forall|k: Key| #[trigger] map_of(s).dom().contains(k) implies ks.to_set().contains(k) by {
            let i = choose|i: int| 0 <= i < s.len() && (#[trigger] s[i]).0 == k;
            assert(ks[i] == k);
        }
        assert forall|k: Key| #[trigger] ks.to_set().contains(k) implies map_of(s).dom().contains(k) by {
            let i = choose|i: int| 0 <= i < ks.len() && ks[i] == k;
            assert(s[i].0 == k);
        }
    }
    vstd::seq_lib::seq_to_set_is_finite(ks);
}

pub struct Store<V> {
    entries: Vec<(Key, V)>,
}

impl<V: View> View for Store<V> {
    type V = Map<Key, V::V>;

    closed spec fn view(&self) -> Map<Key, V::V> {
        map_of(self.entries@)
    }
}

impl<V: Duplicate> Store<V> {
    pub closed spec fn wf(&self) -> bool {
        keys_distinct(self.entries@)
    }

    /// The entries, in storage order.
    pub closed spec fn entries(&self) -> Seq<(Key, V)> {
        self.entries@
    }

    /// The entries spell out the map.
    pub proof fn lemma_entries(&self)
        requires
            self.wf(),
        ensures
            self@ == map_of(self.entries()),
            keys_distinct(self.entries()),
    {
    }

    pub fn new() -> (r: Self)
        ensures
            r.wf(),
            r@ == Map::<Key, V::V>::empty(),
            r.entries().len() == 0,
    {
        let r = Store { entries: Vec::new() };
        assert(r@ =~= Map::<Key, V::V>::empty());
        r
    }

    /// The number of records.
    pub fn len(&self) -> (r: usize)
        requires
            self.wf(),
        ensures
            r == self@.dom().len(),
            r == self.entries().len(),
            self@.dom().finite(),
    {
        proof {
            lemma_map_size(self.entries@);
        }
        self.entries.len()
    }

    fn find(&self, k: Key) -> (r: Option<usize>)
        ensures
            r is None ==> !has_entry(self.entries@, k),
            r matches Some(i) ==> i < self.entries@.len() && self.entries@[i as int].0 == k,
    {
        let mut i: usize = 0;
        while i < self.entries.len()
            invariant
                0 <= i <= self.entries.len(),
                forall|j: int| 0 <= j < i ==> (#[trigger] self.entries@[j]).0 != k,
            decreases self.entries.len() - i,
        {
            if self.entries[i].0.0 == k.0 && self.entries[i].0.1 == k.1 {
                return Some(i);
            }
            i = i + 1;
        }
        None
    }

    /// A copy of the record under `k`.
    pub fn get(&self, k: Key) -> (r: Option<V>)
        requires
            self.wf(),
        ensures
            r is None ==> !self@.contains_key(k),
            r matches Some(v) ==> self@.contains_key(k) && v@ == self@[k],
    {
        match self.find(k) {
            Some(i) => {
                proof {
                    lemma_map_at(self.entries@, i as int);
                }
                Some(self.entries[i].1.duplicate())
            },
            None => None,
        }
    }

    /// Stores `v` under `k`, in place of any earlier record.
    pub fn insert(&mut self, k: Key, v: V)
        requires
            old(self).wf(),
        ensures
            final(self).wf(),
            final(self)@ == old(self)@.insert(k, v@),
    {
        let ghost before = self.entries@;
        let ghost vv = v@;
        match self.find(k) {
            Some(i) => {
                self.entries[i] = (k, v);
                proof {
                    let s = self.entries@;
                    assert forall|j: int| 0 <= j < s.len() && j != i implies s[j] == before[j] by {}
                    assert(keys_distinct(s)) by {
                        assert forall|a: int, b: int| 0 <= a < s.len() && 0 <= b < s.len() && a != b implies (#[trigger] s[a]).0 != (#[trigger] s[b]).0 by {
                            assert(s[a].0 == before[a].0 && s[b].0 == before[b].0);
                        }
                    }
                    lemma_map_at(s, i as int);
                    assert forall|key: Key| #[trigger] map_of(s).contains_key(key) <==> map_of(before).insert(k, vv).contains_key(key) by {
                        if has_entry(s, key) {
                            let j = choose|j: int| 0 <= j < s.len() && (#[trigger] s[j]).0 == key;
                            if j != i {
                                assert(before[j].0 == key);
                            }
                        }
                        if has_entry(before, key) {
                            let j = choose|j: int| 0 <= j < before.len() && (#[trigger] before[j]).0 == key;
                            assert(s[j].0 == key);
                        }
                    }
                    assert forall|key: Key| #[trigger] map_of(s).contains_key(key) && key != k implies map_of(s)[key] == map_of(before)[key] by {
                        let j = choose|j: int| 0 <= j < s.len() && (#[trigger] s[j]).0 == key;
                        assert(j != i);
                        lemma_map_at(s, j);
                        lemma_map_at(before, j);
                    }
                    assert(map_of(s) =~= map_of(before).insert(k, vv));
                }
            },
            None => {
                self.entries.push((k, v));
                proof {
                    let s = self.entries@;
                    let n = before.len() as int;
                    assert forall|j: int| 0 <= j < n implies s[j] == before[j] by {}
                    assert(keys_distinct(s)) by {
                        assert forall|a: int, b: int| 0 <= a < s.len() && 0 <= b < s.len() && a != b implies (#[trigger] s[a]).0 != (#[trigger] s[b]).0 by {
                            if a == n {
                                assert(!(0 <= b < before.len() && before[b].0 == k));
                            } else if b == n {
                                assert(!(0 <= a < before.len() && before[a].0 == k));
                            }
                        }
                    }
                    lemma_map_at(s, n);
                    assert forall|key: Key| #[trigger] map_of(s).contains_key(key) <==> map_of(before).insert(k, vv).contains_key(key) by {
                        if has_entry(s, key) {
                            let j = choose|j: int| 0 <= j < s.len() && (#[trigger] s[j]).0 == key;
                            if j != n {
                                assert(before[j].0 == key);
                            }
                        }
                        if has_entry(before, key) {
                            let j = choose|j: int| 0 <= j < before.len() && (#[trigger] before[j]).0 == key;
                            assert(s[j].0 == key);
                        }
                    }
                    assert forall|key: Key| #[trigger] map_of(s).contains_key(key) && key != k implies map_of(s)[key] == map_of(before)[key] by {
                        let j = choose|j: int| 0 <= j < s.len() && (#[trigger] s[j]).0 == key;
                        assert(j != n);
                        lemma_map_at(s, j);
                        lemma_map_at(before, j);
                    }
                    assert(map_of(s) =~= map_of(before).insert(k, vv));
                }
            },
        }
    }

    /// Drops the record under `k`, if any.
    pub fn remove(&mut self, k: Key)
        requires
            old(self).wf(),
        ensures
            final(self).wf(),
            final(self)@ == old(self)@.remove(k),
    {
        let ghost before = self.entries@;
        match self.find(k) {
            Some(i) => {
                self.entries.remove(i);
                proof {
                    let s = self.entries@;
                    assert(s == before.remove(i as int));
                    assert(keys_distinct(s)) by {
                        assert forall|a: int, b: int| 0 <= a < s.len() && 0 <= b < s.len() && a != b implies (#[trigger] s[a]).0 != (#[trigger] s[b]).0 by {
                            let a1 = if a < i { a } else { a + 1 };
                            let b1 = if b < i { b } else { b + 1 };
                            assert(s[a] == before[a1] && s[b] == before[b1]);
                        }
                    }
                    assert forall|key: Key| #[trigger] map_of(s).contains_key(key) <==> map_of(before).remove(k).contains_key(key) by {
                        if has_entry(s, key) {
                            let j = choose|j: int| 0 <= j < s.len() && (#[trigger] s[j]).0 == key;
                            let j1 = if j < i { j } else { j + 1 };
                            assert(before[j1].0 == key);
                            assert(j1 != i);
                        }
                        if has_entry(before, key) && key != k {
                            let j = choose|j: int| 0 <= j < before.len() && (#[trigger] before[j]).0 == key;
                            if j < i {
                                assert(s[j].0 == key);
                            } else {
                                assert(j != i);
                                assert(s[j - 1].0 == key);
                            }
                        }
                    }
                    assert forall|key: Key| #[trigger] map_of(s).contains_key(key) implies map_of(s)[key] == map_of(before)[key] by {
                        let j = choose|j: int| 0 <= j < s.len() && (#[trigger] s[j]).0 == key;
                        let j1 = if j < i { j } else { j + 1 };
                        assert(s[j] == before[j1]);
                        lemma_map_at(s, j);
                        lemma_map_at(before, j1);
                    }
                    assert(map_of(s) =~= map_of(before).remove(k));
                }
            },
            None => {
                assert(map_of(before) =~= map_of(before).remove(k));
            },
        }
    }

    /// Copies of at most `count` entries, starting at entry `offset`.
    pub fn page(&self, offset: usize, count: usize) -> (r: Vec<(Key, V)>)
        ensures
            is_store_page(self.entries(), offset, count, r@),
    {
        let mut r: Vec<(Key, V)> = Vec::new();
        let mut i: usize = offset;
        while i < self.entries.len() && r.len() < count
            invariant
                offset <= i,
                i <= self.entries.len() || i == offset,
                r@.len() == i - offset,
                r@.len() <= count,
                forall|k: int|
                    0 <= k < r@.len() ==> (#[trigger] r@[k]).0 == self.entries@[offset + k].0 && r@[k].1@
                        == self.entries@[offset + k].1@,
            decreases self.entries.len() - i,
        {
            let e = &self.entries[i];
            r.push((e.0, e.1.duplicate()));
            i = i + 1;
        }
        r
    }

    /// Stores every entry of `entries`, in order.
    pub fn extend(&mut self, entries: Vec<(Key, V)>)
        requires
            old(self).wf(),
        ensures
            final(self).wf(),
            final(self)@ == stored_all(old(self)@, entries@),
    {
        let mut i: usize = 0;
        let ghost all = entries@;
        while i < entries.len()
            invariant
                self.wf(),
                i <= all.len(),
                all == entries@,
                self@ == stored_all(old(self)@, all.subrange(0, i as int)),
            decreases entries.len() - i,
        {
            let e = &entries[i];
            proof {
                let sub = all.subrange(0, i as int + 1);
                assert(sub.drop_last() =~= all.subrange(0, i as int));
            }
            self.insert(e.0, e.1.duplicate());
            i = i + 1;
        }
        assert(all.subrange(0, all.len() as int) =~= all);
    }
}

/// `page` holds copies of the entries of `s` from `offset` on, at most
/// `count` of them.
pub open spec fn is_store_page<V: View>(s: Seq<(Key, V)>, offset: usize, count: usize, page: Seq<(Key, V)>) -> bool {
    &&& page.len() == if offset >= s.len() { 0 } else { vstd::math::min(count as int, s.len() - offset) }
    &&& forall|k: int| 0 <= k < page.len() ==> (#[trigger] page[k]).0 == s[offset + k].0 && page[k].1@ == s[offset + k].1@
}

/// `m` after storing each of the entries in turn.
pub open spec fn stored_all<V: View>(m: Map<Key, V::V>, entries: Seq<(Key, V)>) -> Map<Key, V::V>
    decreases entries.len(),
{
    if entries.len() == 0 {
        m
    } else {
        stored_all(m, entries.drop_last()).insert(entries.last().0, entries.last().1@)
    }
}

/// Appending an entry with a new key adds it to the map.
proof fn lemma_map_push<V: View>(t: Seq<(Key, V)>, e: (Key, V))
    requires
        keys_distinct(t.push(e)),
    ensures
        map_of(t.push(e)) == map_of(t).insert(e.0, e.1@),
{
    let s = t.push(e);
    let n = t.len() as int;
    assert(keys_distinct(t)) by {
        assert forall|a: int, b: int| 0 <= a < t.len() && 0 <= b < t.len() && a != b implies (#[trigger] t[a]).0 != (#[trigger] t[b]).0 by {
            assert(s[a] == t[a] && s[b] == t[b]);
        }
    }
    lemma_map_at(s, n);
    assert forall|key: Key| #[trigger] map_of(s).contains_key(key) <==> map_of(t).insert(e.0, e.1@).contains_key(key) by {
        if has_entry(s, key) {
            let j = choose|j: int| 0 <= j < s.len() && (#[trigger] s[j]).0 == key;
            if j != n {
                assert(t[j].0 == key);
            }
        }
        if has_entry(t, key) {
            let j = choose|j: int| 0 <= j < t.len() && (#[trigger] t[j]).0 == key;
            assert(s[j].0 == key);
        }
    }
    assert forall|key: Key| #[trigger] map_of(s).contains_key(key) && key != e.0 implies map_of(s)[key] == map_of(t)[key] by {
        let j = choose|j: int| 0 <= j < s.len() && (#[trigger] s[j]).0 == key;
        assert(j != n);
        lemma_map_at(s, j);
        lemma_map_at(t, j);
    }
    assert(map_of(s) =~= map_of(t).insert(e.0, e.1@));
}

/// Storing a page of `s` into the map of the entries before it gives the map
/// of the entries up to the page's end.
pub proof fn lemma_store_page<V: View>(s: Seq<(Key, V)>, offset: int, page: Seq<(Key, V)>)
    requires
        keys_distinct(s),
        0 <= offset,
        offset + page.len() <= s.len(),
        forall|k: int| 0 <= k < page.len() ==> (#[trigger] page[k]).0 == s[offset + k].0 && page[k].1@ == s[offset + k].1@,
    ensures
        stored_all(map_of(s.subrange(0, offset)), page) == map_of(s.subrange(0, offset + page.len())),
    decreases page.len(),
{
    if page.len() == 0 {
    } else {
        let last = page.len() - 1;
        lemma_store_page(s, offset, page.drop_last());
        let t = s.subrange(0, offset + last);
        let u = s.subrange(0, offset + page.len());
        assert(u =~= t.push(s[offset + last]));
        assert(keys_distinct(u)) by {
            assert forall|a: int, b: int| 0 <= a < u.len() && 0 <= b < u.len() && a != b implies (#[trigger] u[a]).0 != (#[trigger] u[b]).0 by {
                assert(u[a] == s[a] && u[b] == s[b]);
            }
        }
        lemma_map_push(t, s[offset + last]);
        assert(page.last() == page[last]);
    }
}

/// The pages before page `j` were full, and brought the replica the entries
/// before `offsets[j]`.
proof fn lemma_paged_prefix<V: View>(
    s: Seq<(Key, V)>,
    page_size: usize,
    maps: Seq<Map<Key, V::V>>,
    offsets: Seq<usize>,
    pages: Seq<Seq<(Key, V)>>,
    nexts: Seq<Option<usize>>,
    j: int,
)
    requires
        keys_distinct(s),
        page_size > 0,
        s.len() + page_size <= usize::MAX,
        pages.len() > 0,
        0 <= j < pages.len(),
        maps.len() == pages.len() + 1,
        offsets.len() == pages.len(),
        nexts.len() == pages.len(),
        maps[0] == Map::<Key, V::V>::empty(),
        offsets[0] == 0,
        forall|i: int| 0 <= i < pages.len() ==> is_store_page(s, #[trigger] offsets[i], page_size, pages[i]),
        forall|i: int| 0 <= i < pages.len() ==> #[trigger] maps[i + 1] == stored_all(maps[i], pages[i]),
        forall|i: int| 0 <= i < pages.len() ==> #[trigger] nexts[i] == crate::peered::next_page(offsets[i], pages[i].len(), page_size),
        forall|i: int| 0 <= i < pages.len() - 1 ==> #[trigger] nexts[i] == Some(offsets[i + 1]),
    ensures
        offsets[j] == j * page_size,
        j * page_size <= s.len(),
        maps[j] == map_of(s.subrange(0, offsets[j] as int)),
    decreases j,
{
    let p = page_size as int;
    if j == 0 {
        assert(s.subrange(0, 0) =~= Seq::<(Key, V)>::empty());
        assert(map_of(Seq::<(Key, V)>::empty()) =~= Map::<Key, V::V>::empty());
    } else {
        let i = j - 1;
        lemma_paged_prefix(s, page_size, maps, offsets, pages, nexts, i);
        assert(nexts[i] == Some(offsets[i + 1]));
        assert(pages[i].len() == p);
        lemma_store_page(s, offsets[i] as int, pages[i]);
        assert((i + 1) * p == i * p + p) by (nonlinear_arith);
    }
}

/// A fresh replica that takes in, one after another, the pages of a store
/// from its first cursor on, until the protocol stops, ends up with the same
/// map; it takes `len / page_size + 1` pages.
pub proof fn lemma_paged_fill<V: View>(
    s: Seq<(Key, V)>,
    page_size: usize,
    maps: Seq<Map<Key, V::V>>,
    offsets: Seq<usize>,
    pages: Seq<Seq<(Key, V)>>,
    nexts: Seq<Option<usize>>,
)
    requires
        keys_distinct(s),
        page_size > 0,
        s.len() + page_size <= usize::MAX,
        pages.len() > 0,
        maps.len() == pages.len() + 1,
        offsets.len() == pages.len(),
        nexts.len() == pages.len(),
        maps[0] == Map::<Key, V::V>::empty(),
        offsets[0] == 0,
        forall|j: int| 0 <= j < pages.len() ==> is_store_page(s, #[trigger] offsets[j], page_size, pages[j]),
        forall|j: int| 0 <= j < pages.len() ==> #[trigger] maps[j + 1] == stored_all(maps[j], pages[j]),
        forall|j: int| 0 <= j < pages.len() ==> #[trigger] nexts[j] == crate::peered::next_page(offsets[j], pages[j].len(), page_size),
        forall|j: int| 0 <= j < pages.len() - 1 ==> #[trigger] nexts[j] == Some(offsets[j + 1]),
        nexts[pages.len() - 1] is None,
    ensures
        maps[pages.len() as int] == map_of(s),
        pages.len() == s.len() / (page_size as nat) + 1,
{
    let p = page_size as int;
    let n = s.len() as int;
    let k = pages.len() - 1;
    lemma_paged_prefix(s, page_size, maps, offsets, pages, nexts, k);
    assert(nexts[k] is None);
    lemma_store_page(s, offsets[k] as int, pages[k]);
    assert(pages[k].len() == n - k * p);
    assert(maps[k + 1] == stored_all(maps[k], pages[k]));
    assert(offsets[k] + pages[k].len() == n);
    assert(s.subrange(0, n) =~= s);
    assert(n / p == k) by (nonlinear_arith)
        requires
            k * p <= n,
            n < k * p + p,
            p > 0,
    ;
}

} // verus!
