//! A stable sort of positions by a key.

use vstd::prelude::*;

verus! {

/// What items are ordered by: `major` first, `minor` among equals, then `tie`.
#[derive(Clone, Copy, Debug, PartialEq, Eq, Structural)]
pub struct SortKey {
    pub major: i128,
    pub minor: i128,
    pub tie: u128,
}

/// `a` comes strictly before `b`.
pub open spec fn key_lt(a: SortKey, b: SortKey) -> bool {
    ||| a.major < b.major
    ||| a.major == b.major && a.minor < b.minor
    ||| a.major == b.major && a.minor == b.minor && a.tie < b.tie
}

/// Whether `a` comes strictly before `b`.
pub fn key_before(a: &SortKey, b: &SortKey) -> (r: bool)
    ensures
        r == key_lt(*a, *b),
{
    a.major < b.major || (a.major == b.major && (a.minor < b.minor || (a.minor == b.minor && a.tie
        < b.tie)))
}

/// Position `i` goes before position `j`: by key, and among equal keys the
/// earlier position first.
pub open spec fn goes_before(keys: Seq<SortKey>, i: int, j: int) -> bool {
    key_lt(keys[i], keys[j]) || (keys[i] == keys[j] && i < j)
}

/// `order` lists the position `i`.
pub open spec fn listed(order: Seq<usize>, i: int) -> bool {
    exists|a: int| 0 <= a < order.len() && #[trigger] order[a] == i
}

/// `order` lists every position of `keys` once, in stable sorted order.
pub open spec fn stable_order(keys: Seq<SortKey>, order: Seq<usize>) -> bool {
    &&& order.len() == keys.len()
    &&& forall|a: int| 0 <= a < order.len() ==> #[trigger] order[a] < keys.len()
    &&& forall|i: int| 0 <= i < keys.len() ==> #[trigger] listed(order, i)
    &&& forall|a: int, b: int|
        0 <= a < b < order.len() ==> goes_before(keys, #[trigger] order[a] as int, #[trigger] order[b] as int)
}

/// The positions of `keys` in stable sorted order.
pub fn sort_positions(keys: &Vec<SortKey>) -> (order: Vec<usize>)
    ensures
        stable_order(keys@, order@),
{
    let mut order: Vec<usize> = Vec::new();
    let mut k: usize = 0;
    while k < keys.len()
        invariant
            k <= keys@.len(),
            order@.len() == k,
            stable_order(keys@.take(k as int), order@),
        decreases keys.len() - k,
    {
        let ghost before = order@;
        let ghost part = keys@.take(k as int);
        let ghost grown = keys@.take(k + 1);
        let mut p: usize = order.len();
        while p > 0 && key_before(&keys[k], &keys[order[p - 1]])
            invariant
                p <= k,
                k < keys@.len(),
                order@ == before,
                before.len() == k,
                part == keys@.take(k as int),
                stable_order(part, before),
                forall|a: int|
                    p <= a < k ==> key_lt(keys@[k as int], keys@[#[trigger] before[a] as int]),
            decreases p,
        {
            p -= 1;
        }
        order.insert(p, k);
        proof {
            let now = order@;
            assert(now =~= before.insert(p as int, k));
            assert forall|a: int| 0 <= a < p implies !key_lt(
                keys@[k as int],
                keys@[#[trigger] before[a] as int],
            ) by {
                if a < p - 1 {
                    assert(goes_before(part, before[a] as int, before[p - 1] as int));
                }
            }
            assert forall|i: int| 0 <= i < grown.len() implies #[trigger] listed(now, i) by {
                if i == k {
                    assert(now[p as int] == i);
                } else {
                    assert(listed(before, i));
                    let a = choose|a: int| 0 <= a < before.len() && #[trigger] before[a] == i;
                    if a < p {
                        assert(now[a] == i);
                    } else {
                        assert(now[a + 1] == i);
                    }
                }
            }
            assert forall|a: int, b: int| 0 <= a < b < now.len() implies goes_before(
                grown,
                #[trigger] now[a] as int,
                #[trigger] now[b] as int,
            ) by {
                let x: int = if a < p { a } else { a - 1 };
                let y: int = if b < p { b } else { b - 1 };
                if a != p && b != p {
                    assert(goes_before(part, before[x] as int, before[y] as int));
                } else if a == p {
                    assert(before[y] < part.len());
                } else {
                    assert(before[x] < part.len());
                }
            }
            assert forall|a: int| 0 <= a < now.len() implies #[trigger] now[a] < grown.len() by {
                if a != p {
                    let x: int = if a < p { a } else { a - 1 };
                    assert(before[x] < part.len());
                }
            }
        }
        k += 1;
    }
    proof {
        assert(keys@.take(keys@.len() as int) =~= keys@);
    }
    order
}

} // verus!
