use crate::reorder::swap_entries;
use crate::rtweekend::random_i32;
use vstd::arithmetic::div_mod::{lemma_add_mod_noop, lemma_small_mod};
use vstd::prelude::*;

verus! {

/// Number of lattice cells along each axis before the noise repeats.
pub const POINT_COUNT: usize = 256;

/// `p` holds `n` distinct values, each in `[0, n)`: an arrangement of `0..n`.
pub open spec fn is_permutation(p: Seq<i32>, n: nat) -> bool {
    &&& p.len() == n
    &&& p.no_duplicates()
    &&& forall|k: int| 0 <= k < p.len() ==> 0 <= #[trigger] p[k] < n
}

/// The sequence `0, 1, ..., n - 1`.
pub open spec fn identity(n: nat) -> Seq<i32> {
    Seq::new(n, |k: int| k as i32)
}

/// The lattice cell that coordinate `c` falls in once shifted by `d`.
pub open spec fn wrap(c: int, d: int) -> int {
    (c + d) % (POINT_COUNT as int)
}

proof fn lemma_identity_is_permutation(n: nat)
    requires
        n <= i32::MAX,
    ensures
        is_permutation(identity(n), n),
{
}

/// A sequence with the same multiset as `0..n` is an arrangement of `0..n`.
proof fn lemma_same_multiset_is_permutation(p: Seq<i32>, n: nat)
    requires
        n <= i32::MAX,
        p.to_multiset() == identity(n).to_multiset(),
    ensures
        is_permutation(p, n),
{
    broadcast use vstd::seq_lib::group_to_multiset_ensures;

    let id = identity(n);
    lemma_identity_is_permutation(n);
    id.lemma_multiset_has_no_duplicates();
    assert(p.len() == id.len()) by {
        p.to_multiset_ensures();
        id.to_multiset_ensures();
    }
    assert forall|x: i32| p.to_multiset().contains(x) implies p.to_multiset().count(x) == 1 by {
        assert(id.to_multiset().contains(x));
    }
    p.lemma_multiset_has_no_duplicates_conv();
    assert forall|k: int| 0 <= k < p.len() implies 0 <= #[trigger] p[k] < n by {
        assert(p.to_multiset().contains(p[k]));
        assert(id.contains(p[k]));
        let j = choose|j: int| 0 <= j < id.len() && id[j] == p[k];
    }
}

/// `s` with entries `i` and `j` exchanged.
pub open spec fn swapped(s: Seq<i32>, i: int, j: int) -> Seq<i32> {
    s.update(i, s[j]).update(j, s[i])
}

/// Swap targets for a shuffle of `n` entries: position `i`, for `1 <= i < n`, is swapped
/// with a strictly lower position `t[i]`.
pub open spec fn valid_targets(t: Seq<usize>, n: nat) -> bool {
    &&& t.len() == n
    &&& forall|i: int| 1 <= i < n ==> #[trigger] t[i] < i
}

/// `p` after positions `n - 1` down to `i` have each been swapped with their target.
pub open spec fn shuffled(p: Seq<i32>, t: Seq<usize>, n: int, i: int) -> Seq<i32>
    decreases n - i,
{
    if i >= n || i < 1 {
        p
    } else {
        let before = shuffled(p, t, n, i + 1);
        swapped(before, i, t[i] as int)
    }
}

/// Swaps, for `i` from `n - 1` down to `1`, `p[i]` with `p[targets[i]]`.
pub fn permute_with(p: &mut Vec<i32>, n: usize, targets: &Vec<usize>)
    requires
        n <= old(p)@.len(),
        valid_targets(targets@, n as nat),
    ensures
        final(p)@ == shuffled(old(p)@, targets@, n as int, 1),
        final(p)@.len() == old(p)@.len(),
        final(p)@.to_multiset() == old(p)@.to_multiset(),
        forall|k: int| n <= k < old(p)@.len() ==> final(p)@[k] == old(p)@[k],
{
    let ghost orig = p@;
    let mut i: usize = n;
    while i > 1
        invariant
            1 <= i <= n || (i == n && n <= 1),
            n <= orig.len(),
            valid_targets(targets@, n as nat),
            p@ == shuffled(orig, targets@, n as int, i as int),
            p@.len() == orig.len(),
            p@.to_multiset() == orig.to_multiset(),
            forall|k: int| n <= k < orig.len() ==> p@[k] == orig[k],
        decreases i,
    {
        i = i - 1;
        let target = targets[i];
        swap_entries(p, i, target);
    }
}

/// Shuffles `p[0..n]` in place: for `i` from `n - 1` down to `1`, swaps `p[i]` with a
/// randomly drawn lower position. Whatever is drawn, the result is that shuffle for
/// some valid choice of targets, and the contents are only rearranged.
pub fn permute(p: &mut Vec<i32>, n: usize)
    requires
        n <= old(p)@.len(),
        n <= i32::MAX,
    ensures
        exists|t: Seq<usize>|
            valid_targets(t, n as nat) && final(p)@ == shuffled(old(p)@, t, n as int, 1),
        final(p)@.len() == old(p)@.len(),
        final(p)@.to_multiset() == old(p)@.to_multiset(),
        forall|k: int| n <= k < old(p)@.len() ==> final(p)@[k] == old(p)@[k],
{
    let mut targets: Vec<usize> = Vec::new();
    let mut i: usize = 0;
    while i < n
        invariant
            i <= n,
            n <= i32::MAX,
            targets@.len() == i,
            forall|k: int| 1 <= k < i ==> #[trigger] targets@[k] < k,
        decreases n - i,
    {
        let t = if i == 0 {
            0
        } else {
            random_i32(0, i as i32) as usize
        };
        targets.push(t);
        i = i + 1;
    }
    permute_with(p, n, &targets);
}

/// `p` is `0..POINT_COUNT` shuffled by some valid choice of swap targets.
pub open spec fn is_shuffled_table(p: Seq<i32>) -> bool {
    exists|t: Seq<usize>|
        valid_targets(t, POINT_COUNT as nat) && p == shuffled(
            identity(POINT_COUNT as nat),
            t,
            POINT_COUNT as int,
            1,
        )
}

/// A fresh random arrangement of `0..POINT_COUNT`: the table `0..POINT_COUNT` shuffled
/// by `permute`.
pub fn perlin_generate_perm() -> (r: Vec<i32>)
    ensures
        is_permutation(r@, POINT_COUNT as nat),
        is_shuffled_table(r@),
{
    let mut p: Vec<i32> = Vec::new();
    let mut i: usize = 0;
    while i < POINT_COUNT
        invariant
            i <= POINT_COUNT,
            p@ == identity(i as nat),
        decreases POINT_COUNT - i,
    {
        p.push(i as i32);
        i = i + 1;
        assert(p@ =~= identity(i as nat));
    }
    permute(&mut p, POINT_COUNT);
    proof {
        lemma_same_multiset_is_permutation(p@, POINT_COUNT as nat);
    }
    p
}

/// The cell index `(c + d) mod POINT_COUNT`, always in `[0, POINT_COUNT)`.
fn lattice_cell(c: i32, d: usize) -> (r: usize)
    requires
        d <= 1,
    ensures
        r < POINT_COUNT,
        r as int == wrap(c as int, d as int),
{
    let m: i32 = match c.checked_rem_euclid(256) {
        Some(m) => m,
        None => 0,
    };
    let r = (m as usize + d) % POINT_COUNT;
    proof {
        lemma_small_mod(d as nat, 256);
        lemma_add_mod_noop(c as int, d as int, 256);
    }
    r
}

/// The three permutation tables that hash an integer lattice corner to one of
/// `POINT_COUNT` gradient slots.
pub struct PerlinLattice {
    pub perm_x: Vec<i32>,
    pub perm_y: Vec<i32>,
    pub perm_z: Vec<i32>,
}

impl PerlinLattice {
    /// Each table is an arrangement of `0..POINT_COUNT`.
    pub open spec fn wf(&self) -> bool {
        &&& is_permutation(self.perm_x@, POINT_COUNT as nat)
        &&& is_permutation(self.perm_y@, POINT_COUNT as nat)
        &&& is_permutation(self.perm_z@, POINT_COUNT as nat)
    }

    /// The gradient slot of lattice corner `(i + di, j + dj, k + dk)`: the exclusive or of
    /// the three tables, each read at its coordinate wrapped to the table.
    pub open spec fn corner_spec(&self, i: int, j: int, k: int, di: int, dj: int, dk: int) -> int {
        (self.perm_x@[wrap(i, di)] ^ self.perm_y@[wrap(j, dj)] ^ self.perm_z@[wrap(k, dk)]) as int
    }

    /// Three freshly shuffled tables.
    pub fn new() -> (r: Self)
        ensures
            r.wf(),
            is_shuffled_table(r.perm_x@),
            is_shuffled_table(r.perm_y@),
            is_shuffled_table(r.perm_z@),
    {
        let perm_x = perlin_generate_perm();
        let perm_y = perlin_generate_perm();
        let perm_z = perlin_generate_perm();
        PerlinLattice { perm_x, perm_y, perm_z }
    }

    /// The gradient slot of the corner `(i + di, j + dj, k + dk)` of the cell whose
    /// lowest corner is `(i, j, k)`.
    pub fn corner(&self, i: i32, j: i32, k: i32, di: usize, dj: usize, dk: usize) -> (r: usize)
        requires
            self.wf(),
            di <= 1,
            dj <= 1,
            dk <= 1,
        ensures
            r < POINT_COUNT,
            r as int == self.corner_spec(i as int, j as int, k as int, di as int, dj as int, dk as int),
    {
        let a = self.perm_x[lattice_cell(i, di)];
        let b = self.perm_y[lattice_cell(j, dj)];
        let c = self.perm_z[lattice_cell(k, dk)];
        let h = a ^ b ^ c;
        assert(0 <= h < 256) by (bit_vector)
            requires
                h == a ^ b ^ c,
                0 <= a < 256,
                0 <= b < 256,
                0 <= c < 256,
        ;
        h as usize
    }
}

} // verus!
