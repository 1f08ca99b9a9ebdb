use vstd::prelude::*;

verus! {

/// Exchanges `v[a]` and `v[b]`; the multiset of entries is unchanged.
pub fn swap_entries<T: Copy>(v: &mut Vec<T>, a: usize, b: usize)
    requires
        a < old(v)@.len(),
        b < old(v)@.len(),
    ensures
        final(v)@ == old(v)@.update(a as int, old(v)@[b as int]).update(b as int, old(v)@[a as int]),
        final(v)@.to_multiset() == old(v)@.to_multiset(),
{
    let ghost s = v@;
    let x = v[a];
    let y = v[b];
    v.set(a, y);
    v.set(b, x);
    proof {
        broadcast use vstd::multiset::group_multiset_axioms;
        broadcast use vstd::seq_lib::group_to_multiset_ensures;

        let s1 = s.update(a as int, y);
        vstd::seq_lib::to_multiset_update(s, a as int, y);
        vstd::seq_lib::to_multiset_update(s1, b as int, x);
        assert(s.to_multiset().contains(x));
        assert(s.to_multiset().insert(y).remove(x).contains(y));
        assert(v@.to_multiset() =~= s.to_multiset());
    }
}

} // verus!
