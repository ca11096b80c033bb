//! Finite sets of users, held in a vector without duplicates.
use vstd::prelude::*;

use crate::ids::UserId;

verus! {

/// The users a vector holds, as a set.
pub open spec fn set_of(v: Seq<UserId>) -> Set<UserId> {
    v.to_set()
}

pub fn contains_user(v: &Vec<UserId>, u: UserId) -> (r: bool)
    ensures
        r == v@.contains(u),
{
    let mut i: usize = 0;
    while i < v.len()
        invariant
            0 <= i <= v.len(),
            forall|k: int| 0 <= k < i ==> v@[k] != u,
        decreases v.len() - i,
    {
        if v[i] == u {
            return true;
        }
        i = i + 1;
    }
    false
}

/// Adds `u` unless it is already there.
pub fn insert_user(v: &mut Vec<UserId>, u: UserId)
    requires
        old(v)@.no_duplicates(),
    ensures
        final(v)@.no_duplicates(),
        set_of(final(v)@) == set_of(old(v)@).insert(u),
        old(v)@.contains(u) ==> final(v)@ == old(v)@,
{
    if !contains_user(v, u) {
        v.push(u);
        assert(set_of(v@) =~= set_of(old(v)@).insert(u)) by {
            assert(v@.last() == u);
            assert forall|x: UserId| old(v)@.contains(x) implies v@.contains(x) by {
                let k = choose|k: int| 0 <= k < old(v)@.len() && old(v)@[k] == x;
                assert(v@[k] == x);
            }
        }
    } else {
        assert(set_of(v@) =~= set_of(old(v)@).insert(u));
    }
}

/// Takes `u` out, if it is there; returns whether it was.
pub fn remove_user(v: &mut Vec<UserId>, u: UserId) -> (r: bool)
    requires
        old(v)@.no_duplicates(),
    ensures
        final(v)@.no_duplicates(),
        r == old(v)@.contains(u),
        set_of(final(v)@) == set_of(old(v)@).remove(u),
        !r ==> final(v)@ == old(v)@,
        r ==> final(v)@.len() + 1 == old(v)@.len(),
{
    let mut i: usize = 0;
    while i < v.len()
        invariant
            0 <= i <= v.len(),
            v@ == old(v)@,
            old(v)@.no_duplicates(),
            forall|k: int| 0 <= k < i ==> v@[k] != u,
        decreases v.len() - i,
    {
        if v[i] == u {
            let ghost before = v@;
            v.remove(i);
            assert(v@ == before.remove(i as int));
            assert forall|a: int, b: int| 0 <= a < b < v@.len() implies v@[a] != v@[b] by {
                let a1 = if a < i { a } else { a + 1 };
                let b1 = if b < i { b } else { b + 1 };
                assert(v@[a] == before[a1] && v@[b] == before[b1]);
                assert(before.no_duplicates());
                assert(a1 != b1);
            }
            assert(set_of(v@) =~= set_of(before).remove(u)) by {
                assert forall|x: UserId| #[trigger] before.contains(x) && x != u implies v@.contains(x) by {
                    let k = choose|k: int| 0 <= k < before.len() && before[k] == x;
                    if k < i {
                        assert(v@[k] == x);
                    } else {
                        assert(k != i);
                        assert(v@[k - 1] == x);
                    }
                }
                assert forall|x: UserId| #[trigger] v@.contains(x) implies before.contains(x) && x != u by {
                    let k = choose|k: int| 0 <= k < v@.len() && v@[k] == x;
                    let k1 = if k < i { k } else { k + 1 };
                    assert(before[k1] == x);
                    assert(before[i as int] == u);
                    assert(before.no_duplicates());
                    assert(k1 != i);
                }
            }
            return true;
        }
        i = i + 1;
    }
    assert(set_of(v@) =~= set_of(old(v)@).remove(u));
    false
}

/// A copy of the vector.
pub fn copy_users(v: &Vec<UserId>) -> (r: Vec<UserId>)
    ensures
        r@ == v@,
{
    let mut r: Vec<UserId> = Vec::new();
    let mut i: usize = 0;
    while i < v.len()
        invariant
            0 <= i <= v.len(),
            r@ == v@.subrange(0, i as int),
        decreases v.len() - i,
    {
        r.push(v[i]);
        i = i + 1;
    }
    assert(r@ =~= v@);
    r
}

} // verus!
