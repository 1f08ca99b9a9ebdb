use crate::reorder::swap_entries;
use crate::rtweekend::random_i32;
use vstd::prelude::*;

verus! {

/// The sort key of object `i` on `axis`: where its bounding box starts on that axis,
/// as an integer that orders as the coordinates do.
pub open spec fn key(keys: Seq<[i64; 3]>, i: usize, axis: usize) -> i64 {
    keys[i as int][axis as int]
}

/// Every entry of `items` names an object that has keys.
pub open spec fn all_keyed(keys: Seq<[i64; 3]>, items: Seq<usize>) -> bool {
    forall|k: int| 0 <= k < items.len() ==> #[trigger] items[k] < keys.len()
}

/// `items` is in nondecreasing order of key on `axis`.
pub open spec fn sorted_on(keys: Seq<[i64; 3]>, items: Seq<usize>, axis: usize) -> bool {
    forall|p: int, q: int|
        0 <= p < q < items.len() ==> key(keys, #[trigger] items[p], axis) <= key(
            keys,
            #[trigger] items[q],
            axis,
        )
}

/// `out` is `inp` rearranged: `out[k] == inp[pos[k]]`, with `pos` an arrangement of the
/// positions of `inp`.
pub open spec fn rearranged_by(inp: Seq<usize>, out: Seq<usize>, pos: Seq<int>) -> bool {
    &&& out.len() == inp.len()
    &&& pos.len() == inp.len()
    &&& pos.no_duplicates()
    &&& forall|k: int|
        0 <= k < pos.len() ==> 0 <= #[trigger] pos[k] < inp.len() && out[k] == inp[pos[k]]
}

/// Entries of `out` with equal keys on `axis` came from positions in the same order.
pub open spec fn stable_on(keys: Seq<[i64; 3]>, out: Seq<usize>, pos: Seq<int>, axis: usize) -> bool {
    forall|p: int, q: int|
        0 <= p < q < out.len() && key(keys, #[trigger] out[p], axis) == key(
            keys,
            #[trigger] out[q],
            axis,
        ) ==> pos[p] < pos[q]
}

/// `out` is `inp` sorted on `axis`, with entries of equal key in the order they had.
pub open spec fn stably_sorted(keys: Seq<[i64; 3]>, inp: Seq<usize>, out: Seq<usize>, axis: usize) -> bool {
    &&& sorted_on(keys, out, axis)
    &&& exists|pos: Seq<int>| rearranged_by(inp, out, pos) && stable_on(keys, out, pos, axis)
}

/// Sorts `items` by key on `axis`, stably, by insertion: entries with equal keys keep
/// their order.
pub fn sort_on_axis(keys: &Vec<[i64; 3]>, items: &mut Vec<usize>, axis: usize)
    requires
        axis < 3,
        all_keyed(keys@, old(items)@),
    ensures
        final(items)@.len() == old(items)@.len(),
        final(items)@.to_multiset() == old(items)@.to_multiset(),
        sorted_on(keys@, final(items)@, axis),
        exists|pos: Seq<int>|
            rearranged_by(old(items)@, final(items)@, pos) && stable_on(
                keys@,
                final(items)@,
                pos,
                axis,
            ),
        all_keyed(keys@, final(items)@),
{
    broadcast use vstd::seq_lib::group_to_multiset_ensures;

    let ghost orig = items@;
    let n = items.len();
    let ghost mut pos: Seq<int> = Seq::new(n as nat, |k: int| k);
    assert(rearranged_by(orig, items@, pos));
    let mut i: usize = 1;
    if n == 0 {
        return;
    }
    while i < n
        invariant
            1 <= i <= n,
            n == items@.len(),
            axis < 3,
            items@.to_multiset() == orig.to_multiset(),
            all_keyed(keys@, items@),
            sorted_on(keys@, items@.subrange(0, i as int), axis),
            rearranged_by(orig, items@, pos),
            stable_on(keys@, items@, pos, axis),
        decreases n - i,
    {
        let mut j: usize = i;
        assert forall|p: int, q: int| 0 <= p < q < j implies key(keys@, #[trigger] items@[p], axis)
            <= key(keys@, #[trigger] items@[q], axis) by {
            assert(items@.subrange(0, i as int)[p] == items@[p]);
            assert(items@.subrange(0, i as int)[q] == items@[q]);
        }
        while j > 0 && keys[items[j - 1]][axis] > keys[items[j]][axis]
            invariant
                j <= i < n,
                n == items@.len(),
                axis < 3,
                items@.to_multiset() == orig.to_multiset(),
                all_keyed(keys@, items@),
                rearranged_by(orig, items@, pos),
                stable_on(keys@, items@, pos, axis),
                forall|p: int, q: int|
                    0 <= p < q < j ==> key(keys@, #[trigger] items@[p], axis) <= key(
                        keys@,
                        #[trigger] items@[q],
                        axis,
                    ),
                forall|p: int, q: int|
                    j <= p < q <= i ==> key(keys@, #[trigger] items@[p], axis) <= key(
                        keys@,
                        #[trigger] items@[q],
                        axis,
                    ),
                forall|p: int, q: int|
                    0 <= p < j && j < q <= i ==> key(keys@, #[trigger] items@[p], axis) <= key(
                        keys@,
                        #[trigger] items@[q],
                        axis,
                    ),
            decreases j,
        {
            let ghost before = items@;
            let ghost pos_before = pos;
            swap_entries(items, j - 1, j);
            proof {
                pos = pos_before.update(j - 1, pos_before[j as int]).update(
                    j as int,
                    pos_before[j - 1],
                );
                assert(pos =~= pos_before.update(j - 1, pos_before[j as int]).update(
                    j as int,
                    pos_before[j - 1],
                ));
                assert forall|a: int, b: int|
                    0 <= a < b < pos.len() implies #[trigger] pos[a] != #[trigger] pos[b] by {
                    let sa = if a == j - 1 {
                        j as int
                    } else if a == j {
                        j - 1
                    } else {
                        a
                    };
                    let sb = if b == j - 1 {
                        j as int
                    } else if b == j {
                        j - 1
                    } else {
                        b
                    };
                    assert(pos[a] == pos_before[sa]);
                    assert(pos[b] == pos_before[sb]);
                }
                assert forall|p: int, q: int|
                    0 <= p < q < items@.len() && key(keys@, #[trigger] items@[p], axis) == key(
                        keys@,
                        #[trigger] items@[q],
                        axis,
                    ) implies pos[p] < pos[q] by {
                    let sp = if p == j - 1 {
                        j as int
                    } else if p == j {
                        j - 1
                    } else {
                        p
                    };
                    let sq = if q == j - 1 {
                        j as int
                    } else if q == j {
                        j - 1
                    } else {
                        q
                    };
                    assert(items@[p] == before[sp]);
                    assert(items@[q] == before[sq]);
                    if sp < sq {
                        assert(key(keys@, before[sp], axis) == key(keys@, before[sq], axis));
                    } else {
                        assert(p == j - 1 && q == j);
                    }
                }
            }
            j = j - 1;
        }
        proof {
            assert forall|p: int, q: int|
                0 <= p < q < i + 1 implies key(
                keys@,
                #[trigger] items@.subrange(0, i + 1)[p],
                axis,
            ) <= key(keys@, #[trigger] items@.subrange(0, i + 1)[q], axis) by {
                if p < j && q == j && j > 0 {
                    assert(key(keys@, items@[p], axis) <= key(keys@, items@[j - 1], axis) || p
                        == j - 1);
                }
            }
        }
        i = i + 1;
    }
    assert(items@.subrange(0, n as int) =~= items@);
}

/// The shape of a bounding-volume hierarchy over objects named by index.
pub enum BvhTree {
    /// A node over a single object, which it holds as both of its children.
    Leaf(usize),
    /// A node over two objects, one on each side, the left one first on `axis`.
    Pair { axis: usize, first: usize, second: usize },
    /// A node that splits its objects, sorted on `axis`, at their midpoint.
    Node { axis: usize, left: Box<BvhTree>, right: Box<BvhTree> },
}

impl BvhTree {
    /// The objects under this node, left to right, each as often as it was placed.
    pub open spec fn objects(&self) -> Seq<usize>
        decreases self,
    {
        match self {
            BvhTree::Leaf(i) => seq![*i],
            BvhTree::Pair { first, second, .. } => seq![*first, *second],
            BvhTree::Node { left, right, .. } => left.objects() + right.objects(),
        }
    }

    /// At every node, each object on the left starts no later on the node's axis than
    /// each object on the right.
    pub open spec fn ordered(&self, keys: Seq<[i64; 3]>) -> bool
        decreases self,
    {
        match self {
            BvhTree::Leaf(_) => true,
            BvhTree::Pair { axis, first, second } => *axis < 3 && key(keys, *first, *axis) <= key(
                keys,
                *second,
                *axis,
            ),
            BvhTree::Node { axis, left, right } => {
                &&& *axis < 3
                &&& left.ordered(keys)
                &&& right.ordered(keys)
                &&& forall|a: usize, b: usize|
                    left.objects().contains(a) && right.objects().contains(b) ==> key(
                        keys,
                        a,
                        *axis,
                    ) <= key(keys, b, *axis)
            },
        }
    }

    /// Every split node holds at least three objects and puts the smaller half,
    /// `n / 2` of its `n` objects, on the left.
    pub open spec fn balanced(&self) -> bool
        decreases self,
    {
        match self {
            BvhTree::Node { left, right, .. } => {
                let n = left.objects().len() + right.objects().len();
                &&& n >= 3
                &&& left.objects().len() == n / 2
                &&& left.balanced()
                &&& right.balanced()
            },
            _ => true,
        }
    }

    /// The axis this node was split on; a leaf records none.
    pub open spec fn split_axis(&self) -> usize {
        match self {
            BvhTree::Leaf(_) => 0,
            BvhTree::Pair { axis, .. } => *axis,
            BvhTree::Node { axis, .. } => *axis,
        }
    }

    /// This node's children come from `sorted`: a pair holds its first two entries in
    /// order, and a split node holds its first `n / 2` entries on the left and the rest
    /// on the right.
    pub open spec fn children_from(&self, sorted: Seq<usize>) -> bool {
        match self {
            BvhTree::Leaf(i) => sorted == seq![*i],
            BvhTree::Pair { first, second, .. } => sorted == seq![*first, *second],
            BvhTree::Node { left, right, .. } => {
                &&& left.objects().to_multiset() == sorted.subrange(
                    0,
                    sorted.len() as int / 2,
                ).to_multiset()
                &&& right.objects().to_multiset() == sorted.subrange(
                    sorted.len() as int / 2,
                    sorted.len() as int,
                ).to_multiset()
            },
        }
    }

    /// Builds the hierarchy over `items`: draws an axis, sorts the items on it, and
    /// makes a leaf of one object, a pair of two, or splits more at the midpoint and
    /// builds each half in turn. Whatever axes are drawn, every item is placed exactly
    /// once, every node is ordered on its axis, and every split is at the midpoint of
    /// the stable sort on that axis, so items with equal keys keep their given order.
    pub fn build(keys: &Vec<[i64; 3]>, items: Vec<usize>) -> (r: BvhTree)
        requires
            items@.len() >= 1,
            all_keyed(keys@, items@),
        ensures
            r.objects().to_multiset() == items@.to_multiset(),
            r.ordered(keys@),
            r.balanced(),
            r is Leaf || exists|sorted: Seq<usize>|
                stably_sorted(keys@, items@, sorted, r.split_axis()) && r.children_from(sorted),
        decreases items@.len(),
    {
        broadcast use vstd::seq_lib::group_to_multiset_ensures;

        let ghost given = items@;
        let mut objects = items;
        let axis = random_i32(0, 3) as usize;
        sort_on_axis(keys, &mut objects, axis);
        assert(stably_sorted(keys@, given, objects@, axis));
        let n = objects.len();
        if n == 1 {
            let r = BvhTree::Leaf(objects[0]);
            assert(objects@ =~= r.objects());
            r
        } else if n == 2 {
            let r = BvhTree::Pair { axis, first: objects[0], second: objects[1] };
            assert(objects@ =~= r.objects());
            assert(r.children_from(objects@));
            r
        } else {
            let ghost sorted = objects@;
            let upper = objects.split_off(n / 2);
            assert(sorted =~= objects@ + upper@);
            assert(all_keyed(keys@, objects@)) by {
                assert forall|k: int| 0 <= k < objects@.len() implies #[trigger] objects@[k]
                    < keys@.len() by {
                    assert(objects@[k] == sorted[k]);
                }
            }
            assert(all_keyed(keys@, upper@)) by {
                assert forall|k: int| 0 <= k < upper@.len() implies #[trigger] upper@[k]
                    < keys@.len() by {
                    assert(upper@[k] == sorted[k + n / 2]);
                }
            }
            assert(objects@ =~= sorted.subrange(0, n as int / 2));
            assert(upper@ =~= sorted.subrange(n as int / 2, n as int));
            let ghost lower_items = objects@;
            let ghost upper_items = upper@;
            let left = BvhTree::build(keys, objects);
            let right = BvhTree::build(keys, upper);
            proof {
                vstd::seq_lib::lemma_multiset_commutative(left.objects(), right.objects());
                vstd::seq_lib::lemma_multiset_commutative(lower_items, upper_items);
                vstd::seq_lib::to_multiset_len(left.objects());
                vstd::seq_lib::to_multiset_len(lower_items);
                vstd::seq_lib::to_multiset_len(right.objects());
                vstd::seq_lib::to_multiset_len(upper_items);
                assert forall|a: usize, b: usize|
                    left.objects().contains(a) && right.objects().contains(b) implies key(
                    keys@,
                    a,
                    axis,
                ) <= key(keys@, b, axis) by {
                    assert(left.objects().to_multiset().contains(a));
                    assert(lower_items.contains(a));
                    let p = choose|p: int| 0 <= p < lower_items.len() && lower_items[p] == a;
                    assert(right.objects().to_multiset().contains(b));
                    assert(upper_items.contains(b));
                    let q = choose|q: int| 0 <= q < upper_items.len() && upper_items[q] == b;
                    assert(sorted[p] == a);
                    assert(sorted[q + n / 2] == b);
                }
            }
            let r = BvhTree::Node { axis, left: Box::new(left), right: Box::new(right) };
            assert(r.children_from(sorted));
            r
        }
    }

    /// The hierarchy over all objects `0..n` of a scene, where `keys[i]` is where the
    /// bounding box of object `i` starts on each axis. Each object sits in exactly one
    /// place, so the root covers the whole scene.
    pub fn new(keys: &Vec<[i64; 3]>) -> (r: BvhTree)
        requires
            keys@.len() >= 1,
        ensures
            r.objects().len() == keys@.len(),
            forall|i: usize| i < keys@.len() ==> r.objects().to_multiset().count(i) == 1,
            forall|k: int| 0 <= k < r.objects().len() ==> #[trigger] r.objects()[k] < keys@.len(),
            r.ordered(keys@),
            r.balanced(),
            r is Leaf || exists|sorted: Seq<usize>|
                stably_sorted(
                    keys@,
                    Seq::new(keys@.len(), |k: int| k as usize),
                    sorted,
                    r.split_axis(),
                ) && r.children_from(sorted),
    {
        broadcast use vstd::seq_lib::group_to_multiset_ensures;

        let n = keys.len();
        let mut items: Vec<usize> = Vec::new();
        let mut i: usize = 0;
        while i < n
            invariant
                i <= n,
                n == keys@.len(),
                items@ == Seq::new(i as nat, |k: int| k as usize),
            decreases n - i,
        {
            items.push(i);
            i = i + 1;
            assert(items@ =~= Seq::new(i as nat, |k: int| k as usize));
        }
        let ghost ids = items@;
        let r = BvhTree::build(keys, items);
        proof {
            ids.lemma_multiset_has_no_duplicates();
            vstd::seq_lib::to_multiset_len(r.objects());
            vstd::seq_lib::to_multiset_len(ids);
            assert forall|i: usize| i < keys@.len() implies r.objects().to_multiset().count(i)
                == 1 by {
                assert(ids[i as int] == i);
                assert(ids.contains(i));
            }
            assert forall|k: int| 0 <= k < r.objects().len() implies #[trigger] r.objects()[k]
                < keys@.len() by {
                assert(r.objects().to_multiset().contains(r.objects()[k]));
                assert(ids.contains(r.objects()[k]));
            }
        }
        r
    }
}

} // verus!
