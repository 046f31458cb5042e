//! Stable sorting of selected items by a key.
use vstd::prelude::*;
use crate::device::{PciAddress, PciDevice, address_key};

verus! {

/// Whether item `i` comes before item `j`: by key, and for equal keys in
/// the order in which they come.
pub open spec fn key_precedes(keys: Seq<u64>, i: int, j: int) -> bool {
    ||| keys[i] < keys[j]
    ||| keys[i] == keys[j] && i < j
}

/// Whether `x` occurs in `order`.
pub open spec fn listed(order: Seq<usize>, x: int) -> bool {
    exists|i: int| 0 <= i < order.len() && #[trigger] order[i] == x
}

/// Whether `order` lists every selected item once, and nothing else, in
/// the order of their keys (a stable sort of the selected items).
pub open spec fn is_key_order(keys: Seq<u64>, selected: Seq<bool>, order: Seq<usize>) -> bool {
    &&& selected.len() == keys.len()
    &&& forall|i: int| 0 <= i < order.len() ==> (#[trigger] order[i]) < keys.len() && selected[order[i] as int]
    &&& forall|i: int, j: int| 0 <= i < j < order.len() ==> key_precedes(keys, #[trigger] order[i] as int, #[trigger] order[j] as int)
    &&& forall|x: int| 0 <= x < keys.len() && selected[x] ==> #[trigger] listed(order, x)
}

/// The stable sort of the selected items by key.
pub open spec fn key_order(keys: Seq<u64>, selected: Seq<bool>) -> Seq<usize> {
    choose|order: Seq<usize>| is_key_order(keys, selected, order)
}

/// The indices of the selected items, stably sorted by key.
pub fn sorted_selection(keys: &Vec<u64>, selected: &Vec<bool>) -> (r: Vec<usize>)
    requires
        selected@.len() == keys@.len(),
    ensures
        is_key_order(keys@, selected@, r@),
        r@ == key_order(keys@, selected@),
{
    let mut order: Vec<usize> = Vec::new();
    let mut idx: usize = 0;
    while idx < keys.len()
        invariant
            selected@.len() == keys@.len(),
            idx <= keys@.len(),
            forall|i: int| 0 <= i < order@.len() ==> (#[trigger] order@[i]) < idx && selected@[order@[i] as int],
            forall|i: int, j: int| 0 <= i < j < order@.len() ==> key_precedes(keys@, #[trigger] order@[i] as int, #[trigger] order@[j] as int),
            forall|x: int| 0 <= x < idx && selected@[x] ==> #[trigger] listed(order@, x),
        decreases keys@.len() - idx,
    {
        if selected[idx] {
            let k = keys[idx];
            let mut p: usize = 0;
            while p < order.len() && keys[order[p]] <= k
                invariant
                    selected@.len() == keys@.len(),
                    idx < keys@.len(),
                    k == keys@[idx as int],
                    p <= order@.len(),
                    forall|i: int| 0 <= i < order@.len() ==> (#[trigger] order@[i]) < idx,
                    forall|q: int| 0 <= q < p ==> keys@[(#[trigger] order@[q]) as int] <= k,
                decreases order@.len() - p,
            {
                p = p + 1;
            }
            let ghost before = order@;
            proof {
                assert forall|q: int| p <= q < before.len() implies keys@[(#[trigger] before[q]) as int] > k by {
                    if q > p {
                        assert(key_precedes(keys@, before[p as int] as int, before[q] as int));
                    }
                }
            }
            order.insert(p, idx);
            proof {
                let after = order@;
                assert(after == before.insert(p as int, idx));
                assert forall|i: int, j: int| 0 <= i < j < after.len() implies key_precedes(keys@, #[trigger] after[i] as int, #[trigger] after[j] as int) by {
                    if j < p {
                        assert(after[i] == before[i] && after[j] == before[j]);
                    } else if j == p {
                        assert(after[i] == before[i]);
                    } else if i == p {
                        assert(after[j] == before[j - 1]);
                    } else if i < p {
                        assert(after[i] == before[i] && after[j] == before[j - 1]);
                    } else {
                        assert(after[i] == before[i - 1] && after[j] == before[j - 1]);
                    }
                }
                assert forall|x: int| 0 <= x < idx + 1 && selected@[x] implies #[trigger] listed(after, x) by {
                    if x == idx {
                        assert(after[p as int] == x);
                    } else {
                        assert(listed(before, x));
                        let i = choose|i: int| 0 <= i < before.len() && #[trigger] before[i] == x;
                        if i < p {
                            assert(after[i] == x);
                        } else {
                            assert(after[i + 1] == x);
                        }
                    }
                }
                assert forall|i: int| 0 <= i < after.len() implies (#[trigger] after[i]) < idx + 1 && selected@[after[i] as int] by {
                    if i < p {
                        assert(after[i] == before[i]);
                    } else if i > p {
                        assert(after[i] == before[i - 1]);
                    }
                }
            }
        }
        idx = idx + 1;
    }
    proof {
        lemma_key_order_unique(keys@, selected@, order@, key_order(keys@, selected@));
    }
    order
}

/// The selection of the items before `n`.
pub open spec fn selected_before(selected: Seq<bool>, n: int) -> Seq<bool> {
    Seq::new(selected.len(), |i: int| i < n && selected[i])
}

/// The first position from `k` on whose item has a key above `key`.
pub open spec fn first_above(keys: Seq<u64>, order: Seq<usize>, key: u64, k: int) -> int
    decreases order.len() - k,
{
    if k < 0 || k >= order.len() || keys[order[k] as int] > key {
        k
    } else {
        first_above(keys, order, key, k + 1)
    }
}

proof fn lemma_first_above(keys: Seq<u64>, order: Seq<usize>, key: u64, k: int)
    requires
        0 <= k <= order.len(),
    ensures
        k <= first_above(keys, order, key, k) <= order.len(),
        forall|q: int| k <= q < first_above(keys, order, key, k) ==> keys[#[trigger] order[q] as int] <= key,
        first_above(keys, order, key, k) < order.len() ==> keys[order[first_above(keys, order, key, k)] as int] > key,
    decreases order.len() - k,
{
    if k < order.len() && keys[order[k] as int] <= key {
        lemma_first_above(keys, order, key, k + 1);
    }
}

/// The selected items before `n` have a stable order by key.
proof fn lemma_key_order_before(keys: Seq<u64>, selected: Seq<bool>, n: int) -> (o: Seq<usize>)
    requires
        selected.len() == keys.len(),
        keys.len() <= usize::MAX,
        0 <= n <= keys.len(),
    ensures
        is_key_order(keys, selected_before(selected, n), o),
        forall|i: int| 0 <= i < o.len() ==> #[trigger] o[i] < n,
    decreases n,
{
    if n == 0 {
        Seq::empty()
    } else {
        let o = lemma_key_order_before(keys, selected, n - 1);
        let s0 = selected_before(selected, n - 1);
        let s1 = selected_before(selected, n);
        if !selected[n - 1] {
            assert(s1 =~= s0);
            o
        } else {
            let x = (n - 1) as usize;
            lemma_first_above(keys, o, keys[n - 1], 0);
            let p = first_above(keys, o, keys[n - 1], 0);
            let o2 = o.take(p) + seq![x] + o.skip(p);
            assert(o2.len() == o.len() + 1);
            assert forall|i: int| 0 <= i < o2.len() implies #[trigger] o2[i] == if i < p { o[i] } else if i == p { x } else { o[i - 1] } by {
                if i < p {
                    assert(o2[i] == o.take(p)[i]);
                } else if i == p {
                } else {
                    assert(o2[i] == o.skip(p)[i - p - 1]);
                }
            }
            // keys after position p lie above the new key
            assert forall|q: int| p <= q < o.len() implies keys[#[trigger] o[q] as int] > keys[n - 1] by {
                if q > p {
                    assert(key_precedes(keys, o[p] as int, o[q] as int));
                }
            }
            assert forall|i: int| 0 <= i < o2.len() implies (#[trigger] o2[i]) < keys.len() && s1[o2[i] as int] by {
                if i != p {
                    let q = if i < p { i } else { i - 1 };
                    assert(o2[i] == o[q]);
                    assert(s0[o[q] as int]);
                }
            }
            assert forall|i: int, j: int| 0 <= i < j < o2.len() implies key_precedes(keys, #[trigger] o2[i] as int, #[trigger] o2[j] as int) by {
                let qi = if i < p { i } else { i - 1 };
                let qj = if j < p { j } else { j - 1 };
                if i != p && j != p {
                    assert(o2[i] == o[qi] && o2[j] == o[qj]);
                    assert(key_precedes(keys, o[qi] as int, o[qj] as int));
                } else if i == p {
                    assert(o2[j] == o[qj]);
                    assert(keys[o[qj] as int] > keys[n - 1]);
                } else {
                    assert(o2[i] == o[qi]);
                    assert(keys[o[qi] as int] <= keys[n - 1]);
                    assert(o[qi] < n - 1);
                }
            }
            assert forall|y: int| 0 <= y < keys.len() && s1[y] implies #[trigger] listed(o2, y) by {
                if y == n - 1 {
                    assert(o2[p] == x);
                } else {
                    assert(s0[y]);
                    assert(listed(o, y));
                    let q = choose|q: int| 0 <= q < o.len() && #[trigger] o[q] == y;
                    if q < p {
                        assert(o2[q] == o[q]);
                    } else {
                        assert(o2[q + 1] == o[q]);
                    }
                }
            }
            assert forall|i: int| 0 <= i < o2.len() implies #[trigger] o2[i] < n by {
                if i != p {
                    let q = if i < p { i } else { i - 1 };
                    assert(o2[i] == o[q]);
                }
            }
            o2
        }
    }
}

/// Every selection has a stable order by key, and `key_order` is it.
pub proof fn lemma_key_order_exists(keys: Seq<u64>, selected: Seq<bool>)
    requires
        selected.len() == keys.len(),
        keys.len() <= usize::MAX,
    ensures
        is_key_order(keys, selected, key_order(keys, selected)),
{
    let o = lemma_key_order_before(keys, selected, keys.len() as int);
    assert(selected_before(selected, keys.len() as int) =~= selected);
    assert(is_key_order(keys, selected, o));
}

/// The stable sort is unique: two orders of the same selection by the
/// same keys are equal; so `key_order` is that order.
pub proof fn lemma_key_order_unique(keys: Seq<u64>, selected: Seq<bool>, o1: Seq<usize>, o2: Seq<usize>)
    requires
        is_key_order(keys, selected, o1),
        o2 == key_order(keys, selected) || is_key_order(keys, selected, o2),
    ensures
        is_key_order(keys, selected, o2),
        o1 == o2,
{
    assert(is_key_order(keys, selected, o2));
    assert(o1.len() == o2.len()) by {
        lemma_orders_agree_below(keys, selected, o1, o2, if o1.len() <= o2.len() { o1.len() as int } else { o2.len() as int });
        if o1.len() < o2.len() {
            let x = o2[o1.len() as int];
            assert(listed(o1, x as int));
            let m = choose|i: int| 0 <= i < o1.len() && #[trigger] o1[i] == x as int;
            assert(o2[m] == o1[m]);
            assert(key_precedes(keys, o2[m] as int, o2[o1.len() as int] as int));
        } else if o2.len() < o1.len() {
            let x = o1[o2.len() as int];
            assert(listed(o2, x as int));
            let m = choose|i: int| 0 <= i < o2.len() && #[trigger] o2[i] == x as int;
            assert(o2[m] == o1[m]);
            assert(key_precedes(keys, o1[m] as int, o1[o2.len() as int] as int));
        }
    }
    lemma_orders_agree_below(keys, selected, o1, o2, o1.len() as int);
    assert(o1 =~= o2);
}

proof fn lemma_orders_agree_below(keys: Seq<u64>, selected: Seq<bool>, o1: Seq<usize>, o2: Seq<usize>, k: int)
    requires
        is_key_order(keys, selected, o1),
        is_key_order(keys, selected, o2),
        0 <= k <= o1.len(),
        k <= o2.len(),
    ensures
        forall|i: int| 0 <= i < k ==> o1[i] == o2[i],
    decreases k,
{
    if k > 0 {
        lemma_orders_agree_below(keys, selected, o1, o2, k - 1);
        let c = k - 1;
        let a = o1[c];
        let b = o2[c];
        if a != b {
            assert(listed(o2, a as int));
            assert(listed(o1, b as int));
            let m = choose|i: int| 0 <= i < o2.len() && #[trigger] o2[i] == a as int;
            let n = choose|i: int| 0 <= i < o1.len() && #[trigger] o1[i] == b as int;
            if m < c {
                assert(o1[m] == a);
                assert(key_precedes(keys, o1[m] as int, o1[c] as int));
            }
            if n < c {
                assert(o2[n] == b);
                assert(key_precedes(keys, o2[n] as int, o2[c] as int));
            }
            if m > c && n > c {
                assert(key_precedes(keys, o2[c] as int, o2[m] as int));
                assert(key_precedes(keys, o1[c] as int, o1[n] as int));
            }
        }
    }
}

/// The sort keys of devices by address.
pub open spec fn address_keys(devs: Seq<PciDevice>) -> Seq<u64> {
    Seq::new(devs.len(), |i: int| address_key(devs[i].address) as u64)
}

/// Every item selected.
pub open spec fn all_selected(n: nat) -> Seq<bool> {
    Seq::new(n, |i: int| true)
}

/// Whether `order` lists every device once, in address order (a stable
/// sort by domain, bus, slot and function).
pub open spec fn is_address_order(devs: Seq<PciDevice>, order: Seq<usize>) -> bool {
    is_key_order(address_keys(devs), all_selected(devs.len()), order)
}

/// Whether address `a` comes no later than `b`: by domain, then bus, then
/// slot, then function.
pub open spec fn address_le(a: PciAddress, b: PciAddress) -> bool {
    ||| a.domain < b.domain
    ||| a.domain == b.domain && a.bus < b.bus
    ||| a.domain == b.domain && a.bus == b.bus && a.slot < b.slot
    ||| a.domain == b.domain && a.bus == b.bus && a.slot == b.slot && a.function <= b.function
}

/// In address order, an earlier device has an address no later than a
/// later one's: by domain, then bus, then slot, then function.
pub proof fn lemma_address_order_sorted(devs: Seq<PciDevice>, order: Seq<usize>, i: int, j: int)
    requires
        is_address_order(devs, order),
        0 <= i < j < order.len(),
    ensures
        address_le(devs[order[i] as int].address, devs[order[j] as int].address),
{
    let a = devs[order[i] as int].address;
    let b = devs[order[j] as int].address;
    assert(key_precedes(address_keys(devs), order[i] as int, order[j] as int));
    assert(address_keys(devs)[order[i] as int] == address_key(a) as u64);
    assert(address_keys(devs)[order[j] as int] == address_key(b) as u64);
    assert(address_key(a) <= address_key(b));
}

/// The key by which addresses are ordered.
pub fn address_key_of(a: PciAddress) -> (k: u64)
    ensures
        k == address_key(a),
{
    a.domain as u64 * 0x1000000 + a.bus as u64 * 0x10000 + a.slot as u64 * 0x100 + a.function as u64
}

/// The indices of the devices in address order.
pub fn address_order(devices: &[PciDevice]) -> (r: Vec<usize>)
    ensures
        is_address_order(devices@, r@),
{
    let mut keys: Vec<u64> = Vec::new();
    let mut selected: Vec<bool> = Vec::new();
    let mut i: usize = 0;
    while i < devices.len()
        invariant
            i <= devices@.len(),
            keys@ == address_keys(devices@).subrange(0, i as int),
            selected@ == all_selected(devices@.len()).subrange(0, i as int),
        decreases devices@.len() - i,
    {
        keys.push(address_key_of(devices[i].address));
        selected.push(true);
        proof {
            assert(keys@ =~= address_keys(devices@).subrange(0, i + 1));
            assert(selected@ =~= all_selected(devices@.len()).subrange(0, i + 1));
        }
        i = i + 1;
    }
    proof {
        assert(keys@ =~= address_keys(devices@));
        assert(selected@ =~= all_selected(devices@.len()));
    }
    sorted_selection(&keys, &selected)
}

} // verus!
