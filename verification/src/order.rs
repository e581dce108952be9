//! Stable ordering by an integer key.

use vstd::prelude::*;

verus! {

/// Whether position `p` comes before position `q`: by key, and by position among
/// equal keys.
pub open spec fn comes_before(keys: Seq<i32>, p: int, q: int) -> bool {
    keys[p] < keys[q] || (keys[p] == keys[q] && p < q)
}

/// Whether `order` lists every position of `keys` once, by key, equal keys in
/// the order they stand in.
pub open spec fn is_stable_order(keys: Seq<i32>, order: Seq<usize>) -> bool {
    &&& order.len() == keys.len()
    &&& forall|i: int| 0 <= i < order.len() ==> (#[trigger] order[i]) < keys.len()
    &&& forall|a: int, b: int|
        0 <= a < b < order.len() ==> comes_before(
            keys,
            #[trigger] order[a] as int,
            #[trigger] order[b] as int,
        )
}

/// The stable order of `keys`.
pub open spec fn stable_order_of(keys: Seq<i32>) -> Seq<usize> {
    choose|order: Seq<usize>| is_stable_order(keys, order)
}

/// The items of `s` in the order that `order` lists their positions.
pub open spec fn arranged<T>(s: Seq<T>, order: Seq<usize>) -> Seq<T> {
    Seq::new(order.len(), |i: int| s[order[i] as int])
}

/// A stable order reaches every position.
pub proof fn lemma_order_reaches(keys: Seq<i32>, order: Seq<usize>, p: int)
    requires
        is_stable_order(keys, order),
        0 <= p < keys.len(),
    ensures
        exists|i: int| 0 <= i < order.len() && #[trigger] order[i] == p,
{
    let ints = Seq::new(order.len(), |i: int| order[i] as int);
    assert(ints.no_duplicates()) by {
        assert forall|a: int, b: int| 0 <= a < ints.len() && 0 <= b < ints.len() && a != b implies
            ints[a] != ints[b] by {
            if a < b {
                assert(comes_before(keys, order[a] as int, order[b] as int));
            } else {
                assert(comes_before(keys, order[b] as int, order[a] as int));
            }
        }
    }
    ints.unique_seq_to_set();
    let range = vstd::set_lib::set_int_range(0, keys.len() as int);
    vstd::set_lib::lemma_int_range(0, keys.len() as int);
    assert(ints.to_set().subset_of(range));
    vstd::seq_lib::seq_to_set_is_finite(ints);
    vstd::set_lib::lemma_subset_equality(ints.to_set(), range);
    assert(range.contains(p));
    assert(ints.contains(p));
    let i = choose|i: int| 0 <= i < ints.len() && ints[i] == p;
    assert(order[i] == p);
}

/// Keys have only one stable order.
pub proof fn lemma_stable_order_unique(keys: Seq<i32>, left: Seq<usize>, right: Seq<usize>)
    requires
        is_stable_order(keys, left),
        is_stable_order(keys, right),
    ensures
        left == right,
{
    assert forall|n: int| 0 <= n <= left.len() implies left.take(n) == right.take(n) by {
        lemma_stable_order_agrees(keys, left, right, n as nat);
    }
    assert(left.take(left.len() as int) == left);
    assert(right.take(left.len() as int) == right);
}

proof fn lemma_stable_order_agrees(
    keys: Seq<i32>,
    left: Seq<usize>,
    right: Seq<usize>,
    n: nat,
)
    requires
        is_stable_order(keys, left),
        is_stable_order(keys, right),
        n <= left.len(),
    ensures
        left.take(n as int) == right.take(n as int),
    decreases n,
{
    if n > 0 {
        let i = n - 1;
        lemma_stable_order_agrees(keys, left, right, i as nat);
        assert forall|k: int| 0 <= k < i implies left[k] == right[k] by {
            assert(left.take(i)[k] == right.take(i)[k]);
        }
        let p = left[i];
        let q = right[i];
        lemma_order_reaches(keys, right, p as int);
        lemma_order_reaches(keys, left, q as int);
        let j = choose|j: int| 0 <= j < right.len() && #[trigger] right[j] == p;
        let k = choose|k: int| 0 <= k < left.len() && #[trigger] left[k] == q;
        if j < i {
            assert(left[j] == p);
            assert(comes_before(keys, left[j] as int, left[i] as int));
        }
        if k < i {
            assert(right[k] == q);
            assert(comes_before(keys, right[k] as int, right[i] as int));
        }
        if j > i {
            assert(comes_before(keys, right[i] as int, right[j] as int));
        }
        if k > i {
            assert(comes_before(keys, left[i] as int, left[k] as int));
        }
        assert(p == q);
        assert(left.take(n as int) =~= right.take(n as int));
    }
}

/// Every sequence of keys has a stable order.
pub proof fn lemma_stable_order_exists(keys: Seq<i32>)
    requires
        keys.len() <= usize::MAX,
    ensures
        is_stable_order(keys, stable_order_of(keys)),
    decreases keys.len(),
{
    if keys.len() == 0 {
        assert(is_stable_order(keys, Seq::<usize>::empty()));
    } else {
        let shorter = keys.drop_last();
        let last = keys.len() - 1;
        lemma_stable_order_exists(shorter);
        let before = stable_order_of(shorter);
        let slot = lemma_insertion_slot(keys, before, last, last as nat);
        let order = before.insert(slot, last as usize);
        assert forall|a: int, b: int| 0 <= a < b < order.len() implies comes_before(
            keys,
            #[trigger] order[a] as int,
            #[trigger] order[b] as int,
        ) by {
            let olda = if a < slot { a } else { a - 1 };
            let oldb = if b < slot { b } else { b - 1 };
            if a == slot {
                assert(order[b] == before[oldb]);
            } else if b == slot {
                assert(order[a] == before[olda]);
            } else {
                assert(order[a] == before[olda]);
                assert(order[b] == before[oldb]);
                assert(comes_before(shorter, before[olda] as int, before[oldb] as int));
            }
        }
        assert forall|i: int| 0 <= i < order.len() implies (#[trigger] order[i]) < keys.len() by {
            if i != slot {
                let oldi = if i < slot { i } else { i - 1 };
                assert(order[i] == before[oldi]);
            }
        }
        assert(is_stable_order(keys, order));
    }
}

/// Where a position with the greatest number goes in an order of the others:
/// behind every key that is not greater, before every key that is.
proof fn lemma_insertion_slot(keys: Seq<i32>, order: Seq<usize>, last: int, n: nat) -> (slot: int)
    requires
        n <= order.len(),
        is_stable_order(keys.drop_last(), order),
        last == keys.len() - 1,
        0 <= last,
        forall|i: int| n <= i < order.len() ==> keys[#[trigger] order[i] as int] > keys[last],
    ensures
        0 <= slot <= n,
        forall|i: int| 0 <= i < slot ==> keys[#[trigger] order[i] as int] <= keys[last],
        forall|i: int| slot <= i < order.len() ==> keys[#[trigger] order[i] as int] > keys[last],
    decreases n,
{
    if n == 0 {
        0
    } else if keys[order[n - 1] as int] > keys[last] {
        lemma_insertion_slot(keys, order, last, (n - 1) as nat)
    } else {
        assert forall|i: int| 0 <= i < n implies keys[#[trigger] order[i] as int] <= keys[last] by {
            if i < n - 1 {
                assert(comes_before(keys.drop_last(), order[i] as int, order[n - 1] as int));
            }
        }
        n as int
    }
}

/// The positions of `keys` by key, equal keys in the order they stand in.
pub fn stable_order(keys: &Vec<i32>) -> (order: Vec<usize>)
    ensures
        is_stable_order(keys@, order@),
        order@ == stable_order_of(keys@),
        order@.len() == keys@.len(),
        forall|i: int| 0 <= i < order@.len() ==> (#[trigger] order@[i]) < keys@.len(),
        forall|i: int, j: int|
            0 <= i < j < order@.len() ==> {
                let p = #[trigger] order@[i] as int;
                let q = #[trigger] order@[j] as int;
                keys@[p] < keys@[q] || (keys@[p] == keys@[q] && p < q)
            },
{
    let mut order: Vec<usize> = Vec::new();
    let mut i: usize = 0;
    while i < keys.len()
        invariant
            i <= keys@.len(),
            order@.len() == i,
            forall|a: int| 0 <= a < i ==> (#[trigger] order@[a]) < i,
            forall|a: int, b: int|
                0 <= a < b < i ==> comes_before(
                    keys@,
                    #[trigger] order@[a] as int,
                    #[trigger] order@[b] as int,
                ),
        decreases keys@.len() - i,
    {
        let mut j: usize = i;
        while j > 0 && keys[order[j - 1]] > keys[i]
            invariant
                i < keys@.len(),
                j <= i,
                order@.len() == i,
                forall|a: int| 0 <= a < i ==> (#[trigger] order@[a]) < i,
                forall|a: int, b: int|
                    0 <= a < b < i ==> comes_before(
                        keys@,
                        #[trigger] order@[a] as int,
                        #[trigger] order@[b] as int,
                    ),
                forall|a: int| j <= a < i ==> keys@[#[trigger] order@[a] as int] > keys@[i as int],
            decreases j,
        {
            j -= 1;
        }
        let ghost before = order@;
        order.insert(j, i);
        proof {
            assert forall|a: int, b: int| 0 <= a < b < i + 1 implies comes_before(
                keys@,
                #[trigger] order@[a] as int,
                #[trigger] order@[b] as int,
            ) by {
                let olda = if a < j { a } else { a - 1 };
                let oldb = if b < j { b } else { b - 1 };
                if a == j {
                    assert(order@[b] == before[oldb]);
                } else if b == j {
                    assert(order@[a] == before[olda]);
                    if j > 0 {
                        assert(keys@[before[j - 1] as int] <= keys@[i as int]);
                        if olda < j - 1 {
                            assert(comes_before(keys@, before[olda] as int, before[j - 1] as int));
                        }
                    }
                } else {
                    assert(order@[a] == before[olda]);
                    assert(order@[b] == before[oldb]);
                    assert(comes_before(keys@, before[olda] as int, before[oldb] as int));
                }
            }
            assert forall|a: int| 0 <= a < i + 1 implies (#[trigger] order@[a]) < i + 1 by {
                if a != j {
                    let olda = if a < j { a } else { a - 1 };
                    assert(order@[a] == before[olda]);
                }
            }
        }
        i += 1;
    }
    proof {
        assert(is_stable_order(keys@, order@));
        lemma_stable_order_unique(keys@, order@, stable_order_of(keys@));
    }
    order
}

/// A stable order goes up by the keys and leaves equal keys as they stood; each place is
/// in it once.
pub proof fn law_order_goes_up_and_keeps_ties(
    keys: Seq<i32>,
    order: Seq<usize>,
    i: int,
    j: int,
    p: int,
)
    requires
        is_stable_order(keys, order),
    ensures
        order.len() == keys.len(),
        0 <= i < j < order.len() ==> keys[order[i] as int] <= keys[order[j] as int],
        0 <= i < j < order.len() && keys[order[i] as int] == keys[order[j] as int] ==> order[i]
            < order[j],
        0 <= i < j < order.len() ==> order[i] != order[j],
        0 <= p < keys.len() ==> exists|k: int| 0 <= k < order.len() && #[trigger] order[k] == p,
{
    if 0 <= i < j < order.len() {
        assert(comes_before(keys, order[i] as int, order[j] as int));
    }
    if 0 <= p < keys.len() {
        lemma_order_reaches(keys, order, p);
    }
}

/// What is arranged is what stood at the places of the order.
pub proof fn law_arranging_follows_the_order<T>(s: Seq<T>, order: Seq<usize>, i: int)
    ensures
        arranged(s, order).len() == order.len(),
        0 <= i < order.len() ==> arranged(s, order)[i] == s[order[i] as int],
{
}

} // verus!
