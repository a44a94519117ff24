use vstd::prelude::*;

verus! {

/// Whether place `p` comes before place `q` in the order of the keys: its key
/// is less, or the keys are equal and `p` is the earlier place.
pub open spec fn comes_before(keys: Seq<i128>, p: int, q: int) -> bool {
    keys[p] < keys[q] || (keys[p] == keys[q] && p < q)
}

/// Whether the places of `order` stand in the order of their keys.
pub open spec fn in_order(keys: Seq<i128>, order: Seq<usize>) -> bool {
    forall|i: int, j: int|
        0 <= i < j < order.len() ==> comes_before(keys, #[trigger] order[i] as int, #[trigger] order[j] as int)
}

/// Whether the place `p` stands in `order`.
pub open spec fn holds_place(order: Seq<usize>, p: int) -> bool {
    exists|k: int| 0 <= k < order.len() && #[trigger] order[k] == p
}

/// Whether `order` holds the places from `lo` up to `hi`, each once, in the
/// order of their keys, places of one key in their own order. There is one such
/// order and no other.
pub open spec fn orders_range(keys: Seq<i128>, order: Seq<usize>, lo: int, hi: int) -> bool {
    &&& order.len() == hi - lo
    &&& forall|k: int| 0 <= k < order.len() ==> lo <= #[trigger] order[k] < hi
    &&& in_order(keys, order)
    &&& forall|p: int| lo <= p < hi ==> #[trigger] holds_place(order, p)
}

/// Whether `order` holds all the places of `keys` in the order of their keys.
pub open spec fn orders_all(keys: Seq<i128>, order: Seq<usize>) -> bool {
    orders_range(keys, order, 0, keys.len() as int)
}

/// Merges the places from `lo` to `mid` and those from `mid` to `hi`, each
/// lot in the order of the keys, into one.
fn merge(keys: &Vec<i128>, left: &Vec<usize>, right: &Vec<usize>, lo: usize, mid: usize, hi: usize) -> (out:
    Vec<usize>)
    requires
        lo <= mid <= hi <= keys@.len(),
        orders_range(keys@, left@, lo as int, mid as int),
        orders_range(keys@, right@, mid as int, hi as int),
    ensures
        orders_range(keys@, out@, lo as int, hi as int),
{
    let mut out: Vec<usize> = Vec::new();
    let mut i: usize = 0;
    let mut j: usize = 0;
    while i < left.len() || j < right.len()
        invariant
            lo <= mid <= hi <= keys@.len(),
            orders_range(keys@, left@, lo as int, mid as int),
            orders_range(keys@, right@, mid as int, hi as int),
            i <= left@.len(),
            j <= right@.len(),
            out@.len() == i + j,
            forall|k: int| 0 <= k < out@.len() ==> lo <= #[trigger] out@[k] < hi,
            in_order(keys@, out@),
            forall|k: int, a: int|
                0 <= k < out@.len() && i <= a < left@.len() ==> comes_before(
                    keys@,
                    #[trigger] out@[k] as int,
                    #[trigger] left@[a] as int,
                ),
            forall|k: int, b: int|
                0 <= k < out@.len() && j <= b < right@.len() ==> comes_before(
                    keys@,
                    #[trigger] out@[k] as int,
                    #[trigger] right@[b] as int,
                ),
            forall|a: int| 0 <= a < i ==> holds_place(out@, #[trigger] left@[a] as int),
            forall|b: int| 0 <= b < j ==> holds_place(out@, #[trigger] right@[b] as int),
        decreases left@.len() - i + right@.len() - j,
    {
        let ghost before = out@;
        let from_left = j >= right.len() || (i < left.len() && keys[left[i]] <= keys[right[j]]);
        if from_left {
            let x = left[i];
            out.push(x);
            proof {
                assert forall|k: int, a: int|
                    0 <= k < out@.len() && i + 1 <= a < left@.len() implies comes_before(
                    keys@,
                    #[trigger] out@[k] as int,
                    #[trigger] left@[a] as int,
                ) by {
                    if k == out@.len() - 1 {
                        assert(comes_before(keys@, left@[i as int] as int, left@[a] as int));
                    } else {
                        assert(out@[k] == before[k]);
                    }
                }
                assert forall|k: int, b: int|
                    0 <= k < out@.len() && j <= b < right@.len() implies comes_before(
                    keys@,
                    #[trigger] out@[k] as int,
                    #[trigger] right@[b] as int,
                ) by {
                    if k == out@.len() - 1 {
                        assert(left@[i as int] < mid <= right@[b]);
                        if b > j {
                            assert(comes_before(keys@, right@[j as int] as int, right@[b] as int));
                        }
                    } else {
                        assert(out@[k] == before[k]);
                    }
                }
            }
            i += 1;
        } else {
            let x = right[j];
            out.push(x);
            proof {
                assert forall|k: int, a: int|
                    0 <= k < out@.len() && i <= a < left@.len() implies comes_before(
                    keys@,
                    #[trigger] out@[k] as int,
                    #[trigger] left@[a] as int,
                ) by {
                    if k == out@.len() - 1 {
                        if a > i {
                            assert(comes_before(keys@, left@[i as int] as int, left@[a] as int));
                        }
                    } else {
                        assert(out@[k] == before[k]);
                    }
                }
                assert forall|k: int, b: int|
                    0 <= k < out@.len() && j + 1 <= b < right@.len() implies comes_before(
                    keys@,
                    #[trigger] out@[k] as int,
                    #[trigger] right@[b] as int,
                ) by {
                    if k == out@.len() - 1 {
                        assert(comes_before(keys@, right@[j as int] as int, right@[b] as int));
                    } else {
                        assert(out@[k] == before[k]);
                    }
                }
            }
            j += 1;
        }
        proof {
            assert forall|k: int, l: int| 0 <= k < l < out@.len() implies comes_before(
                keys@,
                #[trigger] out@[k] as int,
                #[trigger] out@[l] as int,
            ) by {
                if l < out@.len() - 1 {
                    assert(out@[k] == before[k] && out@[l] == before[l]);
                } else {
                    assert(out@[k] == before[k]);
                }
            }
            assert forall|a: int| 0 <= a < i implies holds_place(out@, #[trigger] left@[a] as int) by {
                if from_left && a == i - 1 {
                    assert(out@[out@.len() - 1] == left@[a]);
                } else {
                    assert(holds_place(before, left@[a] as int));
                    let k = choose|k: int| 0 <= k < before.len() && #[trigger] before[k] == left@[a];
                    assert(out@[k] == left@[a]);
                }
            }
            assert forall|b: int| 0 <= b < j implies holds_place(out@, #[trigger] right@[b] as int) by {
                if !from_left && b == j - 1 {
                    assert(out@[out@.len() - 1] == right@[b]);
                } else {
                    assert(holds_place(before, right@[b] as int));
                    let k = choose|k: int| 0 <= k < before.len() && #[trigger] before[k] == right@[b];
                    assert(out@[k] == right@[b]);
                }
            }
        }
    }
    proof {
        assert forall|p: int| lo <= p < hi implies #[trigger] holds_place(out@, p) by {
            if p < mid {
                assert(holds_place(left@, p));
                let a = choose|a: int| 0 <= a < left@.len() && #[trigger] left@[a] == p;
                assert(holds_place(out@, left@[a] as int));
            } else {
                assert(holds_place(right@, p));
                let b = choose|b: int| 0 <= b < right@.len() && #[trigger] right@[b] == p;
                assert(holds_place(out@, right@[b] as int));
            }
        }
    }
    out
}

/// The places from `lo` up to `hi` in the order of their keys.
fn sort_range(keys: &Vec<i128>, lo: usize, hi: usize) -> (order: Vec<usize>)
    requires
        lo <= hi <= keys@.len(),
    ensures
        orders_range(keys@, order@, lo as int, hi as int),
    decreases hi - lo,
{
    let mut order: Vec<usize> = Vec::new();
    if hi - lo == 0 {
        return order;
    }
    if hi - lo == 1 {
        order.push(lo);
        assert(order@[0] == lo);
        assert(holds_place(order@, lo as int));
        return order;
    }
    let mid = lo + (hi - lo) / 2;
    let left = sort_range(keys, lo, mid);
    let right = sort_range(keys, mid, hi);
    merge(keys, &left, &right, lo, mid, hi)
}

/// The places of `keys` in the order of their keys, the least first, places of
/// one key in their own order.
pub fn sort_order(keys: &Vec<i128>) -> (order: Vec<usize>)
    ensures
        orders_all(keys@, order@),
{
    sort_range(keys, 0, keys.len())
}

} // verus!
