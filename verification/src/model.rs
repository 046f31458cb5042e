//! The device tree of the interactive browser: rows, folding and filtering.
use vstd::prelude::*;
use vstd::string::{StrSliceExecFns, StringExecFns};
use std::collections::HashSet;
use crate::device::{PciAddress, PciDevice, PciSnapshot};
use crate::order::{is_key_order, key_order, sorted_selection};
use crate::text::{dec_min, hex_padded, push_dec, push_hex};
use crate::tree::{BridgeWindow, bus_covered, slot_keys, window_from, window_of};

verus! {

broadcast use vstd::std_specs::hash::group_hash_axioms;

/// One row of the tree: a bus at the top level, or a device below it.
pub struct Row {
    pub depth: usize,
    pub parent: Option<usize>,
    pub label: String,
    pub address: Option<PciAddress>,
    pub expandable: bool,
}

/// The rows of the tree, the filter typed so far, and the folded-open rows.
pub struct TreeModel {
    pub rows: Vec<Row>,
    pub filter: String,
    expanded: HashSet<usize>,
}

/// A row as plain values: depth, parent, label, address, whether it can be expanded.
pub open spec fn row_model(r: Row) -> (int, Option<int>, Seq<char>, Option<PciAddress>, bool) {
    (
        r.depth as int,
        match r.parent { Some(p) => Some(p as int), None => None },
        r.label@,
        r.address,
        r.expandable,
    )
}

/// Rows as plain values.
pub open spec fn rows_model(rows: Seq<Row>) -> Seq<(int, Option<int>, Seq<char>, Option<PciAddress>, bool)> {
    Seq::new(rows.len(), |i: int| row_model(rows[i]))
}

/// The label of a device's row: `bb:ss.f vendor device`, and the window
/// of a bridge.
pub open spec fn device_label(d: PciDevice, w: Option<BridgeWindow>) -> Seq<char> {
    hex_padded(d.address.bus as nat, 2) + ":"@ + hex_padded(d.address.slot as nat, 2) + "."@
        + dec_min(d.address.function as nat) + " "@ + d.vendor_name@ + " "@ + d.device_name@
        + match w {
            Some(w) => " -["@ + hex_padded(w.secondary as nat, 2) + "-"@ + hex_padded(w.subordinate as nat, 2) + "]"@,
            None => Seq::empty(),
        }
}

/// The devices on a bus, by slot and function.
pub open spec fn bus_device_order(devs: Seq<PciDevice>, bus: int) -> Seq<usize> {
    key_order(slot_keys(devs), on_bus(devs, bus))
}

/// Which devices stand on a bus.
pub open spec fn on_bus(devs: Seq<PciDevice>, bus: int) -> Seq<bool> {
    Seq::new(devs.len(), |i: int| devs[i].address.bus == bus)
}

/// The rows of the devices on a bus, under the row at `parent`, the first
/// of them at index `base`; below each bridge, the rows of its secondary bus,
/// down to `fuel` levels of bridges. (With as many levels as there are
/// devices, the whole tree is built wherever it ends; see
/// `model_ends_within`.)
pub open spec fn model_bus_rows(devs: Seq<PciDevice>, ws: Seq<(PciAddress, BridgeWindow)>, bus: int, depth: int,
    parent: int, base: int, fuel: nat) -> Seq<(int, Option<int>, Seq<char>, Option<PciAddress>, bool)>
    decreases fuel, 2int, 0int,
{
    model_device_rows(devs, ws, bus, depth, parent, bus_device_order(devs, bus), 0, base, fuel)
}

/// The rows of the devices `order[k..]` of a bus, the first at index `base`.
pub open spec fn model_device_rows(devs: Seq<PciDevice>, ws: Seq<(PciAddress, BridgeWindow)>, bus: int, depth: int,
    parent: int, order: Seq<usize>, k: int, base: int, fuel: nat) -> Seq<(int, Option<int>, Seq<char>, Option<PciAddress>, bool)>
    decreases fuel, 1int, order.len() - k,
{
    if k < 0 || k >= order.len() || !(0 <= order[k] < devs.len()) {
        Seq::empty()
    } else {
        let d = devs[order[k] as int];
        let w = window_from(ws, d.address, 0);
        let row = (depth, Some(parent), device_label(d, w), Some(d.address), w is Some);
        let below = match w {
            Some(w) => if fuel > 0 {
                model_bus_rows(devs, ws, w.secondary as int, depth + 1, base, base + 1, (fuel - 1) as nat)
            } else {
                Seq::empty()
            },
            None => Seq::empty(),
        };
        seq![row] + below + model_device_rows(devs, ws, bus, depth, parent, order, k + 1, base + 1 + below.len(), fuel)
    }
}

/// The key of a device's bus: domain, then bus.
pub open spec fn bus_keys(devs: Seq<PciDevice>) -> Seq<u64> {
    Seq::new(devs.len(), |i: int| (devs[i].address.domain * 0x100 + devs[i].address.bus) as u64)
}

/// The devices of a bus in the tree stand on that bus, in order of slot,
/// and for equal slots in order of function.
pub proof fn lemma_bus_device_order_by_slot_function(devs: Seq<PciDevice>, bus: int, i: int, j: int)
    requires
        devs.len() <= usize::MAX,
        0 <= i < j < bus_device_order(devs, bus).len(),
    ensures
        ({
            let order = bus_device_order(devs, bus);
            let a = devs[order[i] as int].address;
            let b = devs[order[j] as int].address;
            &&& a.bus == bus
            &&& b.bus == bus
            &&& a.slot < b.slot || (a.slot == b.slot && a.function <= b.function)
        }),
{
    let keys = slot_keys(devs);
    let selected = on_bus(devs, bus);
    crate::order::lemma_key_order_exists(keys, selected);
    let order = bus_device_order(devs, bus);
    assert(crate::order::key_precedes(keys, order[i] as int, order[j] as int));
    assert(selected[order[i] as int] && selected[order[j] as int]);
}

/// The buses of the tree come in order of domain, and for equal domains
/// in order of bus, each once.
pub proof fn lemma_top_order_by_domain_bus(devs: Seq<PciDevice>, i: int, j: int)
    requires
        devs.len() <= usize::MAX,
        0 <= i < j < top_order(devs).len(),
    ensures
        ({
            let order = top_order(devs);
            let a = devs[order[i] as int].address;
            let b = devs[order[j] as int].address;
            a.domain < b.domain || (a.domain == b.domain && a.bus < b.bus)
        }),
{
    let keys = bus_keys(devs);
    let selected = first_on_bus(devs);
    crate::order::lemma_key_order_exists(keys, selected);
    let order = top_order(devs);
    let x = order[i] as int;
    let y = order[j] as int;
    assert(crate::order::key_precedes(keys, x, y));
    assert(selected[x] && selected[y]);
    if keys[x] == keys[y] {
        if x < y {
            assert(bus_keys(devs)[x] != bus_keys(devs)[y]);
        }
    }
}

/// The first device of each bus: no earlier device stands on the same bus of the same domain.
pub open spec fn first_on_bus(devs: Seq<PciDevice>) -> Seq<bool> {
    Seq::new(devs.len(), |i: int| forall|j: int| 0 <= j < i ==> #[trigger] bus_keys(devs)[j] != bus_keys(devs)[i])
}

/// One device of each bus, by domain and bus.
pub open spec fn top_order(devs: Seq<PciDevice>) -> Seq<usize> {
    key_order(bus_keys(devs), first_on_bus(devs))
}

/// The rows of the buses `order[k..]` that no window holds, each followed
/// by the rows of its devices; the first at index `base`.
pub open spec fn model_top_rows(devs: Seq<PciDevice>, ws: Seq<(PciAddress, BridgeWindow)>, order: Seq<usize>, k: int, base: int)
    -> Seq<(int, Option<int>, Seq<char>, Option<PciAddress>, bool)>
    decreases order.len() - k,
{
    if k < 0 || k >= order.len() || !(0 <= order[k] < devs.len()) {
        Seq::empty()
    } else {
        let a = devs[order[k] as int].address;
        if bus_covered(ws, a.bus as int) {
            model_top_rows(devs, ws, order, k + 1, base)
        } else {
            let top = (0int, None::<int>, hex_padded(a.domain as nat, 4) + ":"@ + hex_padded(a.bus as nat, 2), None::<PciAddress>, true);
            let below = model_bus_rows(devs, ws, a.bus as int, 1, base, base + 1, devs.len() as nat);
            seq![top] + below + model_top_rows(devs, ws, order, k + 1, base + 1 + below.len())
        }
    }
}

/// The rows of the whole tree.
pub open spec fn model_rows(devs: Seq<PciDevice>, ws: Seq<(PciAddress, BridgeWindow)>)
    -> Seq<(int, Option<int>, Seq<char>, Option<PciAddress>, bool)> {
    model_top_rows(devs, ws, top_order(devs), 0, 0)
}

/// Whether every row of a modelled tree, the first at index `base`, has a
/// parent before it, or none.
pub open spec fn model_parents_precede(rows: Seq<(int, Option<int>, Seq<char>, Option<PciAddress>, bool)>, base: int) -> bool {
    forall|i: int| 0 <= i < rows.len() ==> ((#[trigger] rows[i]).1 matches Some(p) ==> 0 <= p < base + i)
}

/// The rows of a bus all have a parent before them.
pub proof fn lemma_bus_rows_parents(devs: Seq<PciDevice>, ws: Seq<(PciAddress, BridgeWindow)>, bus: int, depth: int,
    parent: int, base: int, fuel: nat)
    requires
        0 <= parent < base,
    ensures
        model_parents_precede(model_bus_rows(devs, ws, bus, depth, parent, base, fuel), base),
    decreases fuel, 2int, 0int,
{
    lemma_device_rows_parents(devs, ws, bus, depth, parent, bus_device_order(devs, bus), 0, base, fuel);
}

/// The rows of the devices `order[k..]` of a bus all have a parent before them.
pub proof fn lemma_device_rows_parents(devs: Seq<PciDevice>, ws: Seq<(PciAddress, BridgeWindow)>, bus: int, depth: int,
    parent: int, order: Seq<usize>, k: int, base: int, fuel: nat)
    requires
        0 <= parent < base,
    ensures
        model_parents_precede(model_device_rows(devs, ws, bus, depth, parent, order, k, base, fuel), base),
    decreases fuel, 1int, order.len() - k,
{
    if !(k < 0 || k >= order.len() || !(0 <= order[k] < devs.len())) {
        let d = devs[order[k] as int];
        let w = window_from(ws, d.address, 0);
        let row = (depth, Some(parent), device_label(d, w), Some(d.address), w is Some);
        let below = match w {
            Some(w) => if fuel > 0 {
                model_bus_rows(devs, ws, w.secondary as int, depth + 1, base, base + 1, (fuel - 1) as nat)
            } else {
                Seq::empty()
            },
            None => Seq::empty(),
        };
        if let Some(w) = w {
            if fuel > 0 {
                lemma_bus_rows_parents(devs, ws, w.secondary as int, depth + 1, base, base + 1, (fuel - 1) as nat);
            }
        }
        let rest_base = base + 1 + below.len();
        lemma_device_rows_parents(devs, ws, bus, depth, parent, order, k + 1, rest_base, fuel);
        let rest = model_device_rows(devs, ws, bus, depth, parent, order, k + 1, rest_base, fuel);
        let all = seq![row] + below + rest;
        assert(model_device_rows(devs, ws, bus, depth, parent, order, k, base, fuel) == all);
        assert forall|i: int| 0 <= i < all.len() implies ((#[trigger] all[i]).1 matches Some(p) ==> 0 <= p < base + i) by {
            if i == 0 {
            } else if i < 1 + below.len() {
                assert(all[i] == below[i - 1]);
            } else {
                assert(all[i] == rest[i - 1 - below.len()]);
            }
        }
    }
}

/// The rows of the top-level buses `order[k..]` and below all have a
/// parent before them, or none.
pub proof fn lemma_top_rows_parents(devs: Seq<PciDevice>, ws: Seq<(PciAddress, BridgeWindow)>, order: Seq<usize>, k: int, base: int)
    requires
        0 <= base,
    ensures
        model_parents_precede(model_top_rows(devs, ws, order, k, base), base),
    decreases order.len() - k,
{
    if !(k < 0 || k >= order.len() || !(0 <= order[k] < devs.len())) {
        let a = devs[order[k] as int].address;
        if bus_covered(ws, a.bus as int) {
            lemma_top_rows_parents(devs, ws, order, k + 1, base);
        } else {
            let top = (0int, None::<int>, hex_padded(a.domain as nat, 4) + ":"@ + hex_padded(a.bus as nat, 2), None::<PciAddress>, true);
            let below = model_bus_rows(devs, ws, a.bus as int, 1, base, base + 1, devs.len() as nat);
            lemma_bus_rows_parents(devs, ws, a.bus as int, 1, base, base + 1, devs.len() as nat);
            let rest_base = base + 1 + below.len();
            lemma_top_rows_parents(devs, ws, order, k + 1, rest_base);
            let rest = model_top_rows(devs, ws, order, k + 1, rest_base);
            let all = seq![top] + below + rest;
            assert(model_top_rows(devs, ws, order, k, base) == all);
            assert forall|i: int| 0 <= i < all.len() implies ((#[trigger] all[i]).1 matches Some(p) ==> 0 <= p < base + i) by {
                if i == 0 {
                } else if i < 1 + below.len() {
                    assert(all[i] == below[i - 1]);
                } else {
                    assert(all[i] == rest[i - 1 - below.len()]);
                }
            }
        }
    }
}

/// Whether a block of rows, the first at index `base`, hangs below the row
/// at `parent` from `depth` down: its rows at `depth` have that parent, and
/// every deeper row has a parent in the block, one level up, with only
/// deeper rows between them; every row is a device row.
pub open spec fn block_shaped(rows: Seq<(int, Option<int>, Seq<char>, Option<PciAddress>, bool)>, depth: int, parent: int,
    base: int) -> bool {
    forall|i: int| 0 <= i < rows.len() ==> {
        &&& (#[trigger] rows[i]).0 >= depth
        &&& rows[i].3 is Some
        &&& rows[i].0 == depth ==> rows[i].1 == Some(parent)
        &&& rows[i].0 > depth ==> (rows[i].1 matches Some(p) && base <= p < base + i
            && rows[p - base].0 + 1 == rows[i].0 && rows[p - base].4
            && forall|k: int| p - base < k < i ==> #[trigger] rows[k].0 > rows[p - base].0)
    }
}

/// Whether rows, the first at index `base`, form whole trees: top-level
/// rows have no parent and no device; every other row has a parent in the
/// rows, one level up, with only deeper rows between them.
pub open spec fn top_shaped(rows: Seq<(int, Option<int>, Seq<char>, Option<PciAddress>, bool)>, base: int) -> bool {
    forall|i: int| 0 <= i < rows.len() ==> {
        &&& (#[trigger] rows[i]).0 >= 0
        &&& rows[i].0 == 0 ==> rows[i].1 is None && rows[i].3 is None
        &&& rows[i].0 > 0 ==> (rows[i].1 matches Some(p) && base <= p < base + i
            && rows[p - base].0 + 1 == rows[i].0 && rows[p - base].4
            && forall|k: int| p - base < k < i ==> #[trigger] rows[k].0 > rows[p - base].0)
    }
}

proof fn lemma_bus_rows_shaped(devs: Seq<PciDevice>, ws: Seq<(PciAddress, BridgeWindow)>, bus: int, depth: int,
    parent: int, base: int, fuel: nat)
    ensures
        block_shaped(model_bus_rows(devs, ws, bus, depth, parent, base, fuel), depth, parent, base),
    decreases fuel, 2int, 0int,
{
    lemma_device_rows_shaped(devs, ws, bus, depth, parent, bus_device_order(devs, bus), 0, base, fuel);
}

#[verifier::spinoff_prover]
#[verifier::rlimit(40)]
proof fn lemma_device_rows_shaped(devs: Seq<PciDevice>, ws: Seq<(PciAddress, BridgeWindow)>, bus: int, depth: int,
    parent: int, order: Seq<usize>, k: int, base: int, fuel: nat)
    ensures
        block_shaped(model_device_rows(devs, ws, bus, depth, parent, order, k, base, fuel), depth, parent, base),
    decreases fuel, 1int, order.len() - k,
{
    if !(k < 0 || k >= order.len() || !(0 <= order[k] < devs.len())) {
        let d = devs[order[k] as int];
        let w = window_from(ws, d.address, 0);
        let row = (depth, Some(parent), device_label(d, w), Some(d.address), w is Some);
        let below = match w {
            Some(w) => if fuel > 0 {
                model_bus_rows(devs, ws, w.secondary as int, depth + 1, base, base + 1, (fuel - 1) as nat)
            } else {
                Seq::empty()
            },
            None => Seq::empty(),
        };
        if let Some(w) = w {
            if fuel > 0 {
                lemma_bus_rows_shaped(devs, ws, w.secondary as int, depth + 1, base, base + 1, (fuel - 1) as nat);
            }
        }
        let rest_base = base + 1 + below.len();
        lemma_device_rows_shaped(devs, ws, bus, depth, parent, order, k + 1, rest_base, fuel);
        let rest = model_device_rows(devs, ws, bus, depth, parent, order, k + 1, rest_base, fuel);
        let all = seq![row] + below + rest;
        assert(model_device_rows(devs, ws, bus, depth, parent, order, k, base, fuel) == all);
        assert forall|i: int| 0 <= i < all.len() implies {
            &&& (#[trigger] all[i]).0 >= depth
            &&& all[i].3 is Some
            &&& all[i].0 == depth ==> all[i].1 == Some(parent)
            &&& all[i].0 > depth ==> (all[i].1 matches Some(p) && base <= p < base + i
                && all[p - base].0 + 1 == all[i].0 && all[p - base].4
                && forall|q: int| p - base < q < i ==> #[trigger] all[q].0 > all[p - base].0)
        } by {
            if i == 0 {
            } else if i < 1 + below.len() {
                assert(all[i] == below[i - 1]);
                assert(below.len() > 0);
                assert(w is Some);
                let r = below[i - 1];
                assert(r.0 >= depth + 1);
                if r.0 == depth + 1 {
                    assert(r.1 == Some(base));
                    assert forall|q: int| 0 < q < i implies #[trigger] all[q].0 > all[0].0 by {
                        assert(all[q] == below[q - 1]);
                    }
                } else {
                    let p = r.1->Some_0;
                    assert(all[p - base] == below[p - (base + 1)]);
                    assert forall|q: int| p - base < q < i implies #[trigger] all[q].0 > all[p - base].0 by {
                        assert(all[q] == below[q - 1]);
                    }
                }
            } else {
                let ri = i - 1 - below.len();
                assert(all[i] == rest[ri]);
                let r = rest[ri];
                if r.0 > depth {
                    let p = r.1->Some_0;
                    assert(all[p - base] == rest[p - rest_base]);
                    assert forall|q: int| p - base < q < i implies #[trigger] all[q].0 > all[p - base].0 by {
                        assert(all[q] == rest[q - 1 - below.len()]);
                    }
                }
            }
        }
    }
}

#[verifier::spinoff_prover]
#[verifier::rlimit(40)]
proof fn lemma_top_rows_shaped(devs: Seq<PciDevice>, ws: Seq<(PciAddress, BridgeWindow)>, order: Seq<usize>, k: int, base: int)
    ensures
        top_shaped(model_top_rows(devs, ws, order, k, base), base),
    decreases order.len() - k,
{
    if !(k < 0 || k >= order.len() || !(0 <= order[k] < devs.len())) {
        let a = devs[order[k] as int].address;
        if bus_covered(ws, a.bus as int) {
            lemma_top_rows_shaped(devs, ws, order, k + 1, base);
        } else {
            let top = (0int, None::<int>, hex_padded(a.domain as nat, 4) + ":"@ + hex_padded(a.bus as nat, 2), None::<PciAddress>, true);
            let below = model_bus_rows(devs, ws, a.bus as int, 1, base, base + 1, devs.len() as nat);
            lemma_bus_rows_shaped(devs, ws, a.bus as int, 1, base, base + 1, devs.len() as nat);
            let rest_base = base + 1 + below.len();
            lemma_top_rows_shaped(devs, ws, order, k + 1, rest_base);
            let rest = model_top_rows(devs, ws, order, k + 1, rest_base);
            let all = seq![top] + below + rest;
            assert(model_top_rows(devs, ws, order, k, base) == all);
            assert forall|i: int| 0 <= i < all.len() implies {
                &&& (#[trigger] all[i]).0 >= 0
                &&& all[i].0 == 0 ==> all[i].1 is None && all[i].3 is None
                &&& all[i].0 > 0 ==> (all[i].1 matches Some(p) && base <= p < base + i
                    && all[p - base].0 + 1 == all[i].0 && all[p - base].4
                    && forall|q: int| p - base < q < i ==> #[trigger] all[q].0 > all[p - base].0)
            } by {
                if i == 0 {
                } else if i < 1 + below.len() {
                    assert(all[i] == below[i - 1]);
                    let r = below[i - 1];
                    if r.0 == 1 {
                        assert(r.1 == Some(base));
                        assert forall|q: int| 0 < q < i implies #[trigger] all[q].0 > all[0].0 by {
                            assert(all[q] == below[q - 1]);
                        }
                    } else {
                        let p = r.1->Some_0;
                        assert(all[p - base] == below[p - (base + 1)]);
                        assert forall|q: int| p - base < q < i implies #[trigger] all[q].0 > all[p - base].0 by {
                            assert(all[q] == below[q - 1]);
                        }
                    }
                } else {
                    let ri = i - 1 - below.len();
                    assert(all[i] == rest[ri]);
                    let r = rest[ri];
                    if r.0 > 0 {
                        let p = r.1->Some_0;
                        assert(all[p - base] == rest[p - rest_base]);
                        assert forall|q: int| p - base < q < i implies #[trigger] all[q].0 > all[p - base].0 by {
                            assert(all[q] == rest[q - 1 - below.len()]);
                        }
                    }
                }
            }
        }
    }
}

/// Appends the label of a device's row.
fn device_label_text(d: &PciDevice, w: Option<BridgeWindow>) -> (r: String)
    ensures
        r@ == device_label(*d, w),
{
    let mut label = String::new();
    push_hex(&mut label, d.address.bus as u64, 2);
    label.append(":");
    push_hex(&mut label, d.address.slot as u64, 2);
    label.append(".");
    push_dec(&mut label, d.address.function as u64);
    label.append(" ");
    label.append(d.vendor_name.as_str());
    label.append(" ");
    label.append(d.device_name.as_str());
    match w {
        Some(w) => {
            label.append(" -[");
            push_hex(&mut label, w.secondary as u64, 2);
            label.append("-");
            push_hex(&mut label, w.subordinate as u64, 2);
            label.append("]");
        },
        None => {},
    }
    proof {
        assert(label@ =~= device_label(*d, w));
    }
    label
}

/// Whether device `j` gets a row right below device `i` in the tree
/// model: `i` has a window and `j` stands on its secondary bus.
pub open spec fn model_child(devs: Seq<PciDevice>, ws: Seq<(PciAddress, BridgeWindow)>, i: int, j: int) -> bool {
    &&& window_from(ws, devs[i].address, 0) matches Some(w)
    &&& devs[j].address.bus == w.secondary
}

/// Whether the tree model below device `i` ends within `k` levels of
/// bridges. A model that never ends passes some device twice, so ending
/// within as many levels as there are devices is the same as following
/// secondary buses from bridge to bridge never coming back.
pub open spec fn model_ends_within(devs: Seq<PciDevice>, ws: Seq<(PciAddress, BridgeWindow)>, i: int, k: nat) -> bool
    decreases k,
{
    forall|j: int| 0 <= j < devs.len() && #[trigger] model_child(devs, ws, i, j)
        ==> k > 0 && model_ends_within(devs, ws, j, (k - 1) as nat)
}

/// Whether some device stands on a bus.
pub open spec fn has_on_bus(devs: Seq<PciDevice>, bus: int) -> bool {
    exists|i: int| 0 <= i < devs.len() && #[trigger] on_bus(devs, bus)[i]
}

/// Whether the model below every device on a bus ends within `k` levels.
pub open spec fn bus_model_ends(devs: Seq<PciDevice>, ws: Seq<(PciAddress, BridgeWindow)>, bus: int, k: nat) -> bool {
    forall|i: int| 0 <= i < devs.len() && #[trigger] on_bus(devs, bus)[i] ==> model_ends_within(devs, ws, i, k)
}

/// Whether the model below every device on a top-level bus (one that no
/// window holds) ends within as many levels as there are devices.
pub open spec fn model_ends(devs: Seq<PciDevice>, ws: Seq<(PciAddress, BridgeWindow)>) -> bool {
    forall|i: int| 0 <= i < devs.len() && !#[trigger] bus_covered(ws, devs[i].address.bus as int)
        ==> model_ends_within(devs, ws, i, devs.len() as nat)
}

/// Whether following secondary buses from a top-level bus never comes back
/// to a bridge: the tree model below every device on a bus that no window
/// holds ends within as many levels as there are devices. Worked out level
/// by level.
pub fn model_ends_check(devices: &[PciDevice], windows: &[(PciAddress, BridgeWindow)]) -> (r: bool)
    ensures
        r == model_ends(devices@, windows@),
{
    let ghost devs = devices@;
    let ghost ws = windows@;
    let n = devices.len();
    let mut wins: Vec<Option<BridgeWindow>> = Vec::new();
    let mut i: usize = 0;
    while i < n
        invariant
            n == devs.len(),
            devs == devices@,
            ws == windows@,
            i <= n,
            wins@.len() == i,
            forall|q: int| 0 <= q < i ==> #[trigger] wins@[q] == window_from(ws, devs[q].address, 0),
        decreases n - i,
    {
        wins.push(window_of(windows, devices[i].address));
        i = i + 1;
    }
    // ends[q] == model_ends_within(q, level)
    let mut ends: Vec<bool> = Vec::new();
    let mut done: usize = 0;
    let mut first = true;
    while first || done < n
        invariant
            n == devs.len(),
            devs == devices@,
            ws == windows@,
            wins@.len() == n,
                        forall|q: int| 0 <= q < n ==> #[trigger] wins@[q] == window_from(ws, devs[q].address, 0),
            done <= n,
            !first ==> ends@.len() == n,
            !first ==> forall|q: int| 0 <= q < n ==> #[trigger] ends@[q] == model_ends_within(devs, ws, q, done as nat),
        decreases (if first { n + 1 } else { n - done }),
    {
        let level: usize = if first { 0 } else { done + 1 };
        let mut next: Vec<bool> = Vec::new();
        let mut a: usize = 0;
        while a < n
            invariant
                n == devs.len(),
                devs == devices@,
                ws == windows@,
                wins@.len() == n,
                                forall|q: int| 0 <= q < n ==> #[trigger] wins@[q] == window_from(ws, devs[q].address, 0),
                first == (level == 0),
                !first ==> level == done + 1,
                !first ==> ends@.len() == n,
                !first ==> forall|q: int| 0 <= q < n ==> #[trigger] ends@[q] == model_ends_within(devs, ws, q, done as nat),
                a <= n,
                next@.len() == a,
                forall|q: int| 0 <= q < a ==> #[trigger] next@[q] == model_ends_within(devs, ws, q, level as nat),
            decreases n - a,
        {
            let mut ok = true;
            let mut b: usize = 0;
            while b < n
                invariant
                    n == devs.len(),
                    devs == devices@,
                    ws == windows@,
                    wins@.len() == n,
                                        forall|q: int| 0 <= q < n ==> #[trigger] wins@[q] == window_from(ws, devs[q].address, 0),
                    first == (level == 0),
                    !first ==> level == done + 1,
                    !first ==> ends@.len() == n,
                    !first ==> forall|q: int| 0 <= q < n ==> #[trigger] ends@[q] == model_ends_within(devs, ws, q, done as nat),
                    a < n,
                    b <= n,
                    ok == forall|j: int| 0 <= j < b && #[trigger] model_child(devs, ws, a as int, j)
                        ==> level > 0 && model_ends_within(devs, ws, j, (level - 1) as nat),
                decreases n - b,
            {
                proof {
                    assert(wins@[a as int] == window_from(ws, devs[a as int].address, 0));
                }
                let child = match wins[a] {
                    Some(w) => devices[b].address.bus == w.secondary,
                    None => false,
                };
                if child {
                    if first || !ends[b] {
                        ok = false;
                    }
                }
                proof {
                    assert(ok == forall|j: int| 0 <= j < b + 1 && #[trigger] model_child(devs, ws, a as int, j)
                        ==> level > 0 && model_ends_within(devs, ws, j, (level - 1) as nat)) by {
                        if !ok {
                            if !(forall|j: int| 0 <= j < b && #[trigger] model_child(devs, ws, a as int, j)
                                ==> level > 0 && model_ends_within(devs, ws, j, (level - 1) as nat)) {
                            } else {
                                assert(model_child(devs, ws, a as int, b as int));
                            }
                        }
                    }
                }
                b = b + 1;
            }
            proof {
                assert(ok == model_ends_within(devs, ws, a as int, level as nat));
            }
            next.push(ok);
            a = a + 1;
        }
        ends = next;
        first = false;
        done = level;
    }
    let mut all = true;
    let mut i: usize = 0;
    while i < n
        invariant
            n == devs.len(),
            devs == devices@,
            ws == windows@,
            ends@.len() == n,
            forall|q: int| 0 <= q < n ==> #[trigger] ends@[q] == model_ends_within(devs, ws, q, n as nat),
            i <= n,
            all == forall|q: int| 0 <= q < i && !#[trigger] bus_covered(ws, devs[q].address.bus as int)
                ==> model_ends_within(devs, ws, q, n as nat),
        decreases n - i,
    {
        let bus = devices[i].address.bus;
        let mut covered = false;
        let mut j: usize = 0;
        while j < windows.len()
            invariant
                ws == windows@,
                j <= ws.len(),
                covered == exists|q: int| 0 <= q < j && ws[q].1.secondary <= bus as int <= #[trigger] ws[q].1.subordinate,
            decreases ws.len() - j,
        {
            let w = windows[j].1;
            if w.secondary <= bus && bus <= w.subordinate {
                covered = true;
                proof {
                    assert(ws[j as int].1.secondary <= bus as int <= ws[j as int].1.subordinate);
                }
            }
            j = j + 1;
        }
        proof {
            assert(covered == bus_covered(ws, devs[i as int].address.bus as int));
        }
        if !covered && !ends[i] {
            all = false;
        }
        proof {
            assert(all == forall|q: int| 0 <= q < i + 1 && !#[trigger] bus_covered(ws, devs[q].address.bus as int)
                ==> model_ends_within(devs, ws, q, n as nat)) by {
                if !all && (forall|q: int| 0 <= q < i && !#[trigger] bus_covered(ws, devs[q].address.bus as int)
                    ==> model_ends_within(devs, ws, q, n as nat)) {
                    assert(!bus_covered(ws, devs[i as int].address.bus as int));
                }
            }
        }
        i = i + 1;
    }
    all
}

/// A bus that holds no device gets no rows.
proof fn lemma_empty_bus_rows(devs: Seq<PciDevice>, ws: Seq<(PciAddress, BridgeWindow)>, bus: int, depth: int,
    parent: int, base: int, fuel: nat)
    requires
        !has_on_bus(devs, bus),
    ensures
        model_bus_rows(devs, ws, bus, depth, parent, base, fuel).len() == 0,
{
    let keys = slot_keys(devs);
    let sel = on_bus(devs, bus);
    assert(crate::order::is_key_order(keys, sel, Seq::<usize>::empty()));
    let o = key_order(keys, sel);
    assert(crate::order::is_key_order(keys, sel, o));
    if o.len() > 0 {
        assert(sel[o[0] as int]);
    }
}

/// Building a bus's rows down to more levels than its tree needs builds the
/// same rows: once the model below each device on the bus ends within `f1`
/// levels, any `f2 >= f1` gives what `f1` gives.
pub proof fn lemma_model_rows_enough(devs: Seq<PciDevice>, ws: Seq<(PciAddress, BridgeWindow)>, bus: int, depth: int,
    parent: int, base: int, f1: nat, f2: nat)
    requires
        devs.len() <= usize::MAX,
        bus_model_ends(devs, ws, bus, f1),
        f1 <= f2,
    ensures
        model_bus_rows(devs, ws, bus, depth, parent, base, f1) == model_bus_rows(devs, ws, bus, depth, parent, base, f2),
    decreases f1, 2int, 0int,
{
    crate::order::lemma_key_order_exists(slot_keys(devs), on_bus(devs, bus));
    lemma_model_device_rows_enough(devs, ws, bus, depth, parent, bus_device_order(devs, bus), 0, base, f1, f2);
}

proof fn lemma_model_device_rows_enough(devs: Seq<PciDevice>, ws: Seq<(PciAddress, BridgeWindow)>, bus: int, depth: int,
    parent: int, order: Seq<usize>, k: int, base: int, f1: nat, f2: nat)
    requires
        devs.len() <= usize::MAX,
        bus_model_ends(devs, ws, bus, f1),
        is_key_order(slot_keys(devs), on_bus(devs, bus), order),
        f1 <= f2,
    ensures
        model_device_rows(devs, ws, bus, depth, parent, order, k, base, f1)
            == model_device_rows(devs, ws, bus, depth, parent, order, k, base, f2),
    decreases f1, 1int, order.len() - k,
{
    if !(k < 0 || k >= order.len() || !(0 <= order[k] < devs.len())) {
        let idx = order[k] as int;
        assert(on_bus(devs, bus)[idx]);
        let d = devs[idx];
        let below1 = match window_from(ws, d.address, 0) {
            Some(w) => if f1 > 0 {
                model_bus_rows(devs, ws, w.secondary as int, depth + 1, base, base + 1, (f1 - 1) as nat)
            } else {
                Seq::empty()
            },
            None => Seq::empty(),
        };
        let below2 = match window_from(ws, d.address, 0) {
            Some(w) => if f2 > 0 {
                model_bus_rows(devs, ws, w.secondary as int, depth + 1, base, base + 1, (f2 - 1) as nat)
            } else {
                Seq::empty()
            },
            None => Seq::empty(),
        };
        if let Some(w) = window_from(ws, d.address, 0) {
            if f1 > 0 {
                assert forall|j: int| 0 <= j < devs.len() && #[trigger] on_bus(devs, w.secondary as int)[j]
                    implies model_ends_within(devs, ws, j, (f1 - 1) as nat) by {
                    assert(model_child(devs, ws, idx, j));
                }
                lemma_model_rows_enough(devs, ws, w.secondary as int, depth + 1, base, base + 1, (f1 - 1) as nat, (f2 - 1) as nat);
            } else if f2 > 0 {
                assert(!has_on_bus(devs, w.secondary as int)) by {
                    if has_on_bus(devs, w.secondary as int) {
                        let j = choose|j: int| 0 <= j < devs.len() && #[trigger] on_bus(devs, w.secondary as int)[j];
                        assert(model_child(devs, ws, idx, j));
                    }
                }
                lemma_empty_bus_rows(devs, ws, w.secondary as int, depth + 1, base, base + 1, (f2 - 1) as nat);
                assert(below2 =~= below1);
            }
        }
        assert(below1 == below2);
        lemma_model_device_rows_enough(devs, ws, bus, depth, parent, order, k + 1, base + 1 + below1.len(), f1, f2);
    }
}

/// Appends the rows of the devices on a bus, under the row at `parent`,
/// when the model below each of them ends within as many levels as there
/// are devices.
pub fn push_bus_devices(rows: &mut Vec<Row>, snapshot: &PciSnapshot, windows: &[(PciAddress, BridgeWindow)],
    parent: usize, bus: u8, depth: usize)
    requires
        bus_model_ends(snapshot.spec_devices(), windows@, bus as int, snapshot.spec_devices().len() as nat),
        depth + snapshot.spec_devices().len() + 1 <= usize::MAX,
    ensures
        rows_model(final(rows)@) == rows_model(old(rows)@) + model_bus_rows(snapshot.spec_devices(), windows@,
            bus as int, depth as int, parent as int, old(rows)@.len() as int, snapshot.spec_devices().len() as nat),
{
    push_bus_within(rows, snapshot, windows, parent, bus, depth, Ghost(snapshot.spec_devices().len() as nat));
}

/// Appends the rows of the devices on a bus, down to `fuel` levels of bridges.
fn push_bus_within(rows: &mut Vec<Row>, snapshot: &PciSnapshot, windows: &[(PciAddress, BridgeWindow)],
    parent: usize, bus: u8, depth: usize, Ghost(fuel): Ghost<nat>)
    requires
        bus_model_ends(snapshot.spec_devices(), windows@, bus as int, fuel),
        has_on_bus(snapshot.spec_devices(), bus as int) ==> depth + fuel + 1 <= usize::MAX,
    ensures
        rows_model(final(rows)@) == rows_model(old(rows)@) + model_bus_rows(snapshot.spec_devices(), windows@,
            bus as int, depth as int, parent as int, old(rows)@.len() as int, fuel),
    decreases (if has_on_bus(snapshot.spec_devices(), bus as int) { 2 * fuel + 2 } else { 0 }),
{
    let devices = snapshot.devices();
    let ghost devs = devices@;
    let mut keys: Vec<u64> = Vec::new();
    let mut selected: Vec<bool> = Vec::new();
    let mut i: usize = 0;
    while i < devices.len()
        invariant
            devs == devices@,
            i <= devs.len(),
            keys@ == slot_keys(devs).subrange(0, i as int),
            selected@ == on_bus(devs, bus as int).subrange(0, i as int),
        decreases devs.len() - i,
    {
        let d = &devices[i];
        keys.push(d.address.slot as u64 * 0x100 + d.address.function as u64);
        selected.push(d.address.bus == bus);
        proof {
            assert(keys@ =~= slot_keys(devs).subrange(0, i + 1));
            assert(selected@ =~= on_bus(devs, bus as int).subrange(0, i + 1));
        }
        i = i + 1;
    }
    proof {
        assert(keys@ =~= slot_keys(devs));
        assert(selected@ =~= on_bus(devs, bus as int));
    }
    let order = sorted_selection(&keys, &selected);
    let ghost start = rows@.len() as int;
    let ghost head = rows_model(rows@);
    let mut k: usize = 0;
    while k < order.len()
        invariant
            devs == devices@,
            devs == snapshot.spec_devices(),
            bus_model_ends(devs, windows@, bus as int, fuel),
            has_on_bus(devs, bus as int) ==> depth + fuel + 1 <= usize::MAX,
            order@ == bus_device_order(devs, bus as int),
            is_key_order(slot_keys(devs), on_bus(devs, bus as int), order@),
            k <= order@.len(),
            start <= rows@.len(),
            rows_model(rows@) + model_device_rows(devs, windows@, bus as int, depth as int, parent as int, order@, k as int,
                rows@.len() as int, fuel)
                == head + model_device_rows(devs, windows@, bus as int, depth as int, parent as int, order@, 0, start, fuel),
        decreases order@.len() - k,
    {
        let ghost before = rows_model(rows@);
        let ghost base = rows@.len() as int;
        proof {
            assert(on_bus(devs, bus as int)[order@[k as int] as int]);
            assert(has_on_bus(devs, bus as int));
        }
        push_device_row(rows, snapshot, windows, parent, bus, depth, order[k], Ghost(fuel));
        proof {
            let d = devs[order@[k as int] as int];
            let below = match window_from(windows@, d.address, 0) {
                Some(w) => if fuel > 0 {
                    model_bus_rows(devs, windows@, w.secondary as int, depth + 1, base, base + 1, (fuel - 1) as nat)
                } else {
                    Seq::empty()
                },
                None => Seq::empty(),
            };
            assert(rows@.len() == base + 1 + below.len()) by {
                assert(rows_model(rows@).len() == rows@.len());
            }
            assert(rows_model(rows@) + model_device_rows(devs, windows@, bus as int, depth as int, parent as int, order@,
                k + 1, rows@.len() as int, fuel)
                =~= before + model_device_rows(devs, windows@, bus as int, depth as int, parent as int, order@, k as int, base, fuel));
        }
        k = k + 1;
    }
    proof {
        assert(rows_model(rows@) =~= rows_model(rows@) + Seq::<(int, Option<int>, Seq<char>, Option<PciAddress>, bool)>::empty());
    }
}

/// Appends the row of one device, and below a bridge the rows of its secondary bus.
#[verifier::rlimit(40)]
fn push_device_row(rows: &mut Vec<Row>, snapshot: &PciSnapshot, windows: &[(PciAddress, BridgeWindow)],
    parent: usize, bus: u8, depth: usize, index: usize, Ghost(fuel): Ghost<nat>)
    requires
        index < snapshot.spec_devices().len(),
        snapshot.spec_devices()[index as int].address.bus == bus,
        model_ends_within(snapshot.spec_devices(), windows@, index as int, fuel),
        depth + fuel + 1 <= usize::MAX,
    ensures
        ({
            let devs = snapshot.spec_devices();
            let d = devs[index as int];
            let w = window_from(windows@, d.address, 0);
            let base = old(rows)@.len() as int;
            let below = match w {
                Some(w) => if fuel > 0 {
                    model_bus_rows(devs, windows@, w.secondary as int, depth + 1, base, base + 1, (fuel - 1) as nat)
                } else {
                    Seq::empty()
                },
                None => Seq::empty(),
            };
            rows_model(final(rows)@) == rows_model(old(rows)@)
                + seq![(depth as int, Some(parent as int), device_label(d, w), Some(d.address), w is Some)] + below
        }),
    decreases 2 * fuel + 1,
{
    let devices = snapshot.devices();
    let ghost devs = devices@;
    let d = &devices[index];
    let window = window_of(windows, d.address);
    let label = device_label_text(d, window);
    let row_index = rows.len();
    let ghost before = rows@;
    rows.push(Row { depth, parent: Some(parent), label, address: Some(d.address), expandable: window.is_some() });
    proof {
        assert(rows_model(rows@) =~= rows_model(before)
            + seq![(depth as int, Some(parent as int), device_label(*d, window), Some(d.address), window is Some)]);
    }
    match window {
        Some(w) => {
            let ghost below = (fuel - 1) as nat;
            proof {
                assert forall|j: int| 0 <= j < devs.len() && #[trigger] on_bus(devs, w.secondary as int)[j]
                    implies model_ends_within(devs, windows@, j, below) by {
                    assert(model_child(devs, windows@, index as int, j));
                }
                if has_on_bus(devs, w.secondary as int) {
                    let j = choose|j: int| 0 <= j < devs.len() && #[trigger] on_bus(devs, w.secondary as int)[j];
                    assert(model_child(devs, windows@, index as int, j));
                    assert(fuel > 0);
                }
            }
            let ghost middle = rows_model(rows@);
            let ghost base = before.len() as int;
            push_bus_within(rows, snapshot, windows, row_index, w.secondary, depth + 1, Ghost(below));
            proof {
                if fuel == 0 {
                    assert(!has_on_bus(devs, w.secondary as int)) by {
                        if has_on_bus(devs, w.secondary as int) {
                            let j = choose|j: int| 0 <= j < devs.len() && #[trigger] on_bus(devs, w.secondary as int)[j];
                            assert(model_child(devs, windows@, index as int, j));
                        }
                    }
                    lemma_empty_bus_rows(devs, windows@, w.secondary as int, depth + 1, base, base + 1, below);
                    assert(rows_model(rows@) =~= middle);
                }
            }
        },
        None => {
            proof {
                assert(rows_model(rows@) =~= rows_model(rows@) + Seq::<(int, Option<int>, Seq<char>, Option<PciAddress>, bool)>::empty());
            }
        },
    }
}

/// The lowercase form of a text, as `str::to_lowercase` gives it.
pub uninterp spec fn lowercase(s: Seq<char>) -> Seq<char>;

/// `str::to_lowercase`: the text with every character in its lowercase
/// form, by Unicode's case tables. Its result is named `lowercase`, a
/// function of the text alone; the mapping itself is not stated here.
#[verifier::external_body]
fn to_lowercase(s: &str) -> (r: String)
    ensures
        r@ == lowercase(s@),
{
    s.to_lowercase()
}

/// Whether `needle` occurs in `hay`.
pub open spec fn seq_contains(hay: Seq<char>, needle: Seq<char>) -> bool {
    exists|k: int| 0 <= k && k + needle.len() <= hay.len() && #[trigger] hay.subrange(k, k + needle.len()) == needle
}

/// The characters of a text.
fn chars_of(s: &str) -> (r: Vec<char>)
    ensures
        r@ == s@,
{
    let n = s.unicode_len();
    let mut out: Vec<char> = Vec::new();
    let mut i: usize = 0;
    while i < n
        invariant
            n == s@.len(),
            i <= n,
            out@ == s@.subrange(0, i as int),
        decreases n - i,
    {
        out.push(s.get_char(i));
        proof {
            assert(out@ =~= s@.subrange(0, i + 1));
        }
        i = i + 1;
    }
    proof {
        assert(out@ =~= s@);
    }
    out
}

/// Whether `needle` occurs in `hay` at `k`.
fn matches_at(hay: &Vec<char>, needle: &Vec<char>, k: usize) -> (r: bool)
    requires
        k + needle@.len() <= hay@.len(),
    ensures
        r == (hay@.subrange(k as int, k + needle@.len()) == needle@),
{
    let n = hay.len();
    let mut j: usize = 0;
    while j < needle.len()
        invariant
            n == hay@.len(),
            k + needle@.len() <= hay@.len(),
            j <= needle@.len(),
            forall|q: int| 0 <= q < j ==> hay@[k + q] == needle@[q],
        decreases needle@.len() - j,
    {
        if hay[k + j] != needle[j] {
            proof {
                assert(hay@.subrange(k as int, k + needle@.len())[j as int] != needle@[j as int]);
            }
            return false;
        }
        j = j + 1;
    }
    proof {
        assert(hay@.subrange(k as int, k + needle@.len()) =~= needle@);
    }
    true
}

/// Whether `needle` occurs in `hay`.
fn contains_chars(hay: &Vec<char>, needle: &Vec<char>) -> (r: bool)
    ensures
        r == seq_contains(hay@, needle@),
{
    if needle.len() > hay.len() {
        return false;
    }
    let last = hay.len() - needle.len();
    let mut k: usize = 0;
    while k < last
        invariant
            needle@.len() <= hay@.len(),
            last == hay@.len() - needle@.len(),
            k <= last,
            forall|q: int| 0 <= q < k ==> #[trigger] hay@.subrange(q, q + needle@.len()) != needle@,
        decreases last - k,
    {
        if matches_at(hay, needle, k) {
            return true;
        }
        k = k + 1;
    }
    let found = matches_at(hay, needle, last);
    proof {
        if !found {
            assert forall|q: int| 0 <= q && q + needle@.len() <= hay@.len() implies #[trigger] hay@.subrange(q, q + needle@.len()) != needle@ by {
                assert(q <= last);
            }
        }
    }
    found
}

/// The index just past the subtree of row `i`: the first later row at its
/// depth or above, from `j` on.
pub open spec fn next_from(depths: Seq<int>, d: int, j: int) -> int
    decreases depths.len() - j,
{
    if j < 0 || j >= depths.len() || depths[j] <= d {
        j
    } else {
        next_from(depths, d, j + 1)
    }
}

/// The end of a subtree lies at or after where the search starts, and
/// not past the last row.
pub proof fn lemma_next_from_bounds(depths: Seq<int>, d: int, j: int)
    requires
        0 <= j <= depths.len(),
    ensures
        j <= next_from(depths, d, j) <= depths.len(),
    decreases depths.len() - j,
{
    if j < depths.len() && depths[j] > d {
        lemma_next_from_bounds(depths, d, j + 1);
    }
}

/// The index of the next row that is not below row `i`.
pub open spec fn next_sibling(depths: Seq<int>, i: int) -> int {
    next_from(depths, depths[i], i + 1)
}

/// Whether some row of `[lo, hi)` matched.
pub open spec fn any_matched(matched: Seq<bool>, lo: int, hi: int) -> bool {
    exists|j: int| lo <= j < hi && #[trigger] matched[j]
}

/// Whether row `i` or a row below it matched.
pub open spec fn subtree_match(depths: Seq<int>, matched: Seq<bool>, i: int) -> bool {
    matched[i] || any_matched(matched, i + 1, next_sibling(depths, i))
}

/// Whether row `i` is shown when the walk reaches it: always without a
/// filter, and with one when it or a row below it matches.
pub open spec fn keep_row(depths: Seq<int>, matched: Seq<bool>, filtering: bool, i: int) -> bool {
    if filtering { matched[i] || subtree_match(depths, matched, i) } else { true }
}

/// Whether the walk goes on into the rows below row `i`: without a filter
/// when it is expandable and expanded, with one when a row below it or
/// itself matches.
pub open spec fn descend_row(depths: Seq<int>, matched: Seq<bool>, expandable: Seq<bool>, expanded: Set<usize>,
    filtering: bool, i: int) -> bool {
    if filtering { subtree_match(depths, matched, i) } else { expandable[i] && expanded.contains(i as usize) }
}

/// The visible rows from row `i` on: without a filter, every row whose
/// ancestors are all expanded; with one, every row that matches or has a
/// match below it, with the rows below shown when there is a match there.
pub open spec fn visible_from(depths: Seq<int>, matched: Seq<bool>, expandable: Seq<bool>, expanded: Set<usize>,
    filtering: bool, i: int) -> Seq<usize>
    decreases depths.len() - i,
{
    if i < 0 || i >= depths.len() {
        Seq::empty()
    } else {
        let keep = keep_row(depths, matched, filtering, i);
        let descend = descend_row(depths, matched, expandable, expanded, filtering, i);
        let next = if keep && descend { i + 1 } else { next_sibling(depths, i) };
        if next <= i || next > depths.len() {
            Seq::empty()
        } else {
            (if keep { seq![i as usize] } else { Seq::empty() }) + visible_from(depths, matched, expandable, expanded, filtering, next)
        }
    }
}

/// Whether row `a` lies above row `j` in the tree: `j` comes after `a`,
/// and every row from just after `a` up to `j` lies deeper than `a`.
pub open spec fn depth_ancestor(depths: Seq<int>, a: int, j: int) -> bool {
    0 <= a < j && forall|k: int| a < k <= j ==> #[trigger] depths[k] > depths[a]
}

/// The search for the end of a subtree passes only deeper rows, and stops
/// at a row no deeper than `d` or at the end.
proof fn lemma_next_from_props(depths: Seq<int>, d: int, j: int)
    requires
        0 <= j <= depths.len(),
    ensures
        j <= next_from(depths, d, j) <= depths.len(),
        forall|k: int| j <= k < next_from(depths, d, j) ==> #[trigger] depths[k] > d,
        next_from(depths, d, j) < depths.len() ==> depths[next_from(depths, d, j)] <= d,
    decreases depths.len() - j,
{
    if j < depths.len() && depths[j] > d {
        lemma_next_from_props(depths, d, j + 1);
    }
}

/// The visible rows from `i` on lie in `[i, n)` and increase strictly.
proof fn lemma_visible_sorted_from(depths: Seq<int>, matched: Seq<bool>, expandable: Seq<bool>, expanded: Set<usize>,
    filtering: bool, i: int)
    requires
        0 <= i,
        depths.len() <= usize::MAX,
    ensures
        ({
            let v = visible_from(depths, matched, expandable, expanded, filtering, i);
            &&& forall|p: int| 0 <= p < v.len() ==> i <= #[trigger] v[p] < depths.len()
            &&& forall|p: int, q: int| 0 <= p < q < v.len() ==> #[trigger] v[p] < #[trigger] v[q]
        }),
    decreases depths.len() - i,
{
    if i < depths.len() {
        let keep = keep_row(depths, matched, filtering, i);
        let descend = descend_row(depths, matched, expandable, expanded, filtering, i);
        lemma_next_from_props(depths, depths[i], i + 1);
        let next = if keep && descend { i + 1 } else { next_sibling(depths, i) };
        lemma_visible_sorted_from(depths, matched, expandable, expanded, filtering, next);
        let head: Seq<usize> = if keep { seq![i as usize] } else { Seq::empty() };
        let rest = visible_from(depths, matched, expandable, expanded, filtering, next);
        let v = visible_from(depths, matched, expandable, expanded, filtering, i);
        assert(v == head + rest);
        assert forall|p: int| 0 <= p < v.len() implies i <= #[trigger] v[p] < depths.len() by {
            if p >= head.len() {
                assert(v[p] == rest[p - head.len()]);
            }
        }
        assert forall|p: int, q: int| 0 <= p < q < v.len() implies #[trigger] v[p] < #[trigger] v[q] by {
            if p >= head.len() {
                assert(v[p] == rest[p - head.len()]);
            }
            assert(v[q] == rest[q - head.len()]);
        }
    }
}

/// Row `j` is visible from `i` on exactly when it is shown on reaching it
/// and the walk goes into every row between `i` and `j` that lies above it.
proof fn lemma_visible_members(depths: Seq<int>, matched: Seq<bool>, expandable: Seq<bool>, expanded: Set<usize>,
    filtering: bool, i: int, j: int)
    requires
        0 <= i <= j < depths.len(),
        depths.len() <= usize::MAX,
    ensures
        visible_from(depths, matched, expandable, expanded, filtering, i).contains(j as usize) <==> {
            &&& keep_row(depths, matched, filtering, j)
            &&& forall|a: int| i <= a < j && #[trigger] depth_ancestor(depths, a, j)
                ==> descend_row(depths, matched, expandable, expanded, filtering, a)
        },
    decreases depths.len() - i,
{
    let keep = keep_row(depths, matched, filtering, i);
    let descend = descend_row(depths, matched, expandable, expanded, filtering, i);
    lemma_next_from_props(depths, depths[i], i + 1);
    let next = if keep && descend { i + 1 } else { next_sibling(depths, i) };
    let head: Seq<usize> = if keep { seq![i as usize] } else { Seq::empty() };
    let rest = visible_from(depths, matched, expandable, expanded, filtering, next);
    let v = visible_from(depths, matched, expandable, expanded, filtering, i);
    assert(v == head + rest);
    lemma_visible_sorted_from(depths, matched, expandable, expanded, filtering, next);
    assert(descend ==> keep) by {
        if filtering {
        }
    }
    if j == i {
        if v.contains(j as usize) {
            if !keep {
                let p = choose|p: int| 0 <= p < v.len() && v[p] == j as usize;
                assert(v[p] == rest[p]);
            }
        } else if keep {
            assert(v[0] == j as usize);
        }
    } else {
        // rows of [i, next) other than i are below i, and none of them lies above j >= next
        if j < next {
            assert(depth_ancestor(depths, i, j));
            assert(!(keep && descend));
            assert(!descend);
            if v.contains(j as usize) {
                let p = choose|p: int| 0 <= p < v.len() && v[p] == j as usize;
                if p >= head.len() {
                    assert(v[p] == rest[p - head.len()]);
                }
            }
        } else {
            lemma_visible_members(depths, matched, expandable, expanded, filtering, next, j);
            assert(v.contains(j as usize) <==> rest.contains(j as usize)) by {
                if v.contains(j as usize) {
                    let p = choose|p: int| 0 <= p < v.len() && v[p] == j as usize;
                    if p < head.len() {
                        assert(v[p] == i as usize);
                    } else {
                        assert(v[p] == rest[p - head.len()]);
                    }
                }
                if rest.contains(j as usize) {
                    let p = choose|p: int| 0 <= p < rest.len() && rest[p] == j as usize;
                    assert(v[p + head.len()] == rest[p]);
                }
            }
            assert forall|a: int| i <= a < next && a < j && #[trigger] depth_ancestor(depths, a, j)
                implies descend_row(depths, matched, expandable, expanded, filtering, a) by {
                if a == i {
                    assert(next == i + 1);
                } else {
                    if next < depths.len() {
                        assert(depths[next] <= depths[i]);
                        assert(depths[a] > depths[i]);
                        assert(depths[next] > depths[a]);
                    }
                }
            }
        }
    }
}

/// A row whose subtree holds a match lends that match to every row above it.
proof fn lemma_match_rises(depths: Seq<int>, matched: Seq<bool>, a: int, j: int)
    requires
        depth_ancestor(depths, a, j),
        j < depths.len(),
        subtree_match(depths, matched, j),
    ensures
        subtree_match(depths, matched, a),
{
    lemma_next_from_props(depths, depths[a], a + 1);
    lemma_next_from_props(depths, depths[j], j + 1);
    let m = if matched[j] { j } else { choose|m: int| j + 1 <= m < next_sibling(depths, j) && #[trigger] matched[m] };
    assert(matched[m] && j <= m < next_sibling(depths, j));
    if next_sibling(depths, a) <= m {
        let s = next_sibling(depths, a);
        assert(s < depths.len());
        assert(depths[s] <= depths[a]);
        if s > j {
            assert(depths[s] > depths[j]);
        }
    }
    assert(a + 1 <= m < next_sibling(depths, a));
}

/// The visible rows of a tree increase strictly and lie within its rows;
/// without a filter they hold every top-level row.
pub proof fn lemma_visible_rows_sorted(m: TreeModel)
    ensures
        forall|p: int| 0 <= p < m.spec_visible().len() ==> #[trigger] m.spec_visible()[p] < m.spec_rows().len(),
        forall|p: int, q: int| 0 <= p < q < m.spec_visible().len() ==> #[trigger] m.spec_visible()[p] < #[trigger] m.spec_visible()[q],
        m.spec_filter().len() == 0 ==> forall|i: int| 0 <= i < m.spec_rows().len() && #[trigger] m.spec_rows()[i].depth == 0
            ==> m.spec_visible().contains(i as usize),
{
    assert(m.rows.len() == m.rows@.len());
    let rows = m.spec_rows();
    let depths = row_depths(rows);
    let matched = row_matches(rows, m.spec_filter());
    let expandable = row_expandable(rows);
    let filtering = m.spec_filter().len() > 0;
    lemma_visible_sorted_from(depths, matched, expandable, m.spec_expanded(), filtering, 0);
    if !filtering {
        assert forall|i: int| 0 <= i < rows.len() && #[trigger] rows[i].depth == 0 implies m.spec_visible().contains(i as usize) by {
            lemma_visible_members(depths, matched, expandable, m.spec_expanded(), filtering, 0, i);
            assert forall|a: int| 0 <= a < i && #[trigger] depth_ancestor(depths, a, i)
                implies descend_row(depths, matched, expandable, m.spec_expanded(), filtering, a) by {
                assert(depths[i] > depths[a]);
            }
        }
    }
}

/// Without a filter, a row is visible exactly when every row above it is
/// expandable and expanded.
pub proof fn lemma_visible_rows_unfiltered(m: TreeModel, j: int)
    requires
        m.spec_filter().len() == 0,
        0 <= j < m.spec_rows().len(),
    ensures
        m.spec_visible().contains(j as usize) <==> forall|a: int| #[trigger] depth_ancestor(row_depths(m.spec_rows()), a, j)
            ==> m.spec_rows()[a].expandable && m.spec_expanded().contains(a as usize),
{
    assert(m.rows.len() == m.rows@.len());
    let rows = m.spec_rows();
    let depths = row_depths(rows);
    lemma_visible_members(depths, row_matches(rows, m.spec_filter()), row_expandable(rows), m.spec_expanded(), false, 0, j);
}

/// With a filter, a row is visible exactly when it or a row below it
/// matches the filter.
pub proof fn lemma_visible_rows_filtered(m: TreeModel, j: int)
    requires
        m.spec_filter().len() > 0,
        0 <= j < m.spec_rows().len(),
    ensures
        m.spec_visible().contains(j as usize)
            <==> subtree_match(row_depths(m.spec_rows()), row_matches(m.spec_rows(), m.spec_filter()), j),
{
    assert(m.rows.len() == m.rows@.len());
    let rows = m.spec_rows();
    let depths = row_depths(rows);
    let matched = row_matches(rows, m.spec_filter());
    lemma_visible_members(depths, matched, row_expandable(rows), m.spec_expanded(), true, 0, j);
    if subtree_match(depths, matched, j) {
        assert forall|a: int| 0 <= a < j && #[trigger] depth_ancestor(depths, a, j)
            implies descend_row(depths, matched, row_expandable(rows), m.spec_expanded(), true, a) by {
            lemma_match_rises(depths, matched, a, j);
        }
    }
}

/// Whether the rows form a tree listed in pre-order: a row has no parent
/// exactly at the top level; a parent comes before its child, one level
/// up, and every row between them lies deeper than the parent.
pub open spec fn tree_shaped(rows: Seq<Row>) -> bool {
    forall|i: int| 0 <= i < rows.len() ==> {
        &&& (#[trigger] rows[i].parent is None <==> rows[i].depth == 0)
        &&& rows[i].parent matches Some(p) ==> {
            &&& 0 <= p < i
            &&& rows[p as int].depth + 1 == rows[i].depth
            &&& forall|k: int| p < k < i ==> #[trigger] rows[k].depth > rows[p as int].depth
        }
    }
}

/// Whether row `a` is an ancestor of row `j` along parent links.
pub open spec fn parent_ancestor(rows: Seq<Row>, a: int, j: int) -> bool
    decreases j,
{
    if 0 <= j < rows.len() {
        match rows[j].parent {
            Some(p) => if 0 <= p < j { p == a || parent_ancestor(rows, a, p as int) } else { false },
            None => false,
        }
    } else {
        false
    }
}

/// In a tree listed in pre-order, the ancestors along parent links are
/// the rows above by depth.
pub proof fn lemma_parent_ancestor_by_depth(rows: Seq<Row>, a: int, j: int)
    requires
        tree_shaped(rows),
        0 <= j < rows.len(),
    ensures
        parent_ancestor(rows, a, j) <==> depth_ancestor(row_depths(rows), a, j),
    decreases j,
{
    let depths = row_depths(rows);
    assert(rows[j].parent is None <==> rows[j].depth == 0);
    match rows[j].parent {
        Some(p) => {
            let p = p as int;
            assert(0 <= p < j);
            lemma_parent_ancestor_by_depth(rows, a, p);
            assert(depth_ancestor(depths, p, j)) by {
                assert forall|k: int| p < k <= j implies #[trigger] depths[k] > depths[p] by {
                    if k < j {
                        assert(rows[k].depth > rows[p].depth);
                    }
                }
            }
            if depth_ancestor(depths, a, p) {
                assert forall|k: int| a < k <= j implies #[trigger] depths[k] > depths[a] by {
                    if k > p {
                        assert(depths[k] > depths[p]);
                    }
                }
            }
            if depth_ancestor(depths, a, j) && a != p {
                if a > p {
                    assert(depths[a] > depths[p]);
                    assert(depths[j] > depths[a]);
                    assert(depths[a] >= depths[j]);
                } else {
                    assert forall|k: int| a < k <= p implies #[trigger] depths[k] > depths[a] by {
                        assert(depths[k] > depths[a]);
                    }
                }
            }
        },
        None => {
            if depth_ancestor(depths, a, j) {
                assert(depths[j] > depths[a]);
                assert(depths[a] >= 0);
            }
        },
    }
}

/// Without a filter, in a tree listed in pre-order, a row is visible
/// exactly when each of its ancestors along parent links is expandable and
/// expanded.
pub proof fn lemma_visible_rows_unfiltered_by_parents(m: TreeModel, j: int)
    requires
        tree_shaped(m.spec_rows()),
        m.spec_filter().len() == 0,
        0 <= j < m.spec_rows().len(),
    ensures
        m.spec_visible().contains(j as usize) <==> forall|a: int| #[trigger] parent_ancestor(m.spec_rows(), a, j)
            ==> m.spec_rows()[a].expandable && m.spec_expanded().contains(a as usize),
{
    let rows = m.spec_rows();
    lemma_visible_rows_unfiltered(m, j);
    let by_depth = forall|a: int| #[trigger] depth_ancestor(row_depths(rows), a, j)
        ==> rows[a].expandable && m.spec_expanded().contains(a as usize);
    let by_parent = forall|a: int| #[trigger] parent_ancestor(rows, a, j)
        ==> rows[a].expandable && m.spec_expanded().contains(a as usize);
    if by_depth {
        assert forall|a: int| #[trigger] parent_ancestor(rows, a, j)
            implies rows[a].expandable && m.spec_expanded().contains(a as usize) by {
            lemma_parent_ancestor_by_depth(rows, a, j);
        }
    }
    if by_parent {
        assert forall|a: int| #[trigger] depth_ancestor(row_depths(rows), a, j)
            implies rows[a].expandable && m.spec_expanded().contains(a as usize) by {
            lemma_parent_ancestor_by_depth(rows, a, j);
        }
    }
    assert(by_depth == by_parent);
}

/// With a filter, in a tree listed in pre-order, a row is visible exactly
/// when it or one of its descendants along parent links matches: its
/// label holds the filter, both in lowercase.
pub proof fn lemma_visible_rows_filtered_by_parents(m: TreeModel, j: int)
    requires
        tree_shaped(m.spec_rows()),
        m.spec_filter().len() > 0,
        0 <= j < m.spec_rows().len(),
    ensures
        m.spec_visible().contains(j as usize) <==> exists|k: int| 0 <= k < m.spec_rows().len()
            && (k == j || parent_ancestor(m.spec_rows(), j, k))
            && #[trigger] seq_contains(lowercase(m.spec_rows()[k].label@), lowercase(m.spec_filter())),
{
    let rows = m.spec_rows();
    let depths = row_depths(rows);
    let matched = row_matches(rows, m.spec_filter());
    lemma_visible_rows_filtered(m, j);
    lemma_next_from_props(depths, depths[j], j + 1);
    let ns = next_sibling(depths, j);
    assert forall|k: int| j < k < rows.len() implies (j + 1 <= k < ns <==> #[trigger] parent_ancestor(rows, j, k)) by {
        lemma_parent_ancestor_by_depth(rows, j, k);
        if j + 1 <= k < ns {
            assert forall|q: int| j < q <= k implies #[trigger] depths[q] > depths[j] by {
                assert(j + 1 <= q < ns);
            }
        }
        if depth_ancestor(depths, j, k) && k >= ns {
            assert(ns < rows.len());
            assert(depths[ns] <= depths[j]);
            assert(depths[ns] > depths[j]);
        }
    }
    if subtree_match(depths, matched, j) {
        if matched[j] {
            assert(seq_contains(lowercase(rows[j].label@), lowercase(m.spec_filter())));
        } else {
            let k = choose|k: int| j + 1 <= k < ns && #[trigger] matched[k];
            assert(parent_ancestor(rows, j, k));
            assert(seq_contains(lowercase(rows[k].label@), lowercase(m.spec_filter())));
        }
    }
    if exists|k: int| 0 <= k < rows.len() && (k == j || parent_ancestor(rows, j, k))
        && #[trigger] seq_contains(lowercase(rows[k].label@), lowercase(m.spec_filter())) {
        let k = choose|k: int| 0 <= k < rows.len() && (k == j || parent_ancestor(rows, j, k))
            && #[trigger] seq_contains(lowercase(rows[k].label@), lowercase(m.spec_filter()));
        assert(matched[k]);
        if k != j {
            lemma_parent_ancestor_by_depth(rows, j, k);
            assert(j + 1 <= k < ns);
            assert(any_matched(matched, j + 1, ns));
        }
    }
}

/// The depths of rows.
pub open spec fn row_depths(rows: Seq<Row>) -> Seq<int> {
    Seq::new(rows.len(), |i: int| rows[i].depth as int)
}

/// Which rows can be expanded.
pub open spec fn row_expandable(rows: Seq<Row>) -> Seq<bool> {
    Seq::new(rows.len(), |i: int| rows[i].expandable)
}

/// Which rows match a filter: with a filter, those whose label holds it,
/// both in lowercase.
pub open spec fn row_matches(rows: Seq<Row>, filter: Seq<char>) -> Seq<bool> {
    Seq::new(rows.len(), |i: int| filter.len() > 0 && seq_contains(lowercase(rows[i].label@), lowercase(filter)))
}

/// The index just past the subtree of row `index`.
pub fn next_sibling_index(rows: &[Row], index: usize) -> (r: usize)
    requires
        index < rows@.len(),
    ensures
        r == next_sibling(row_depths(rows@), index as int),
        index < r <= rows@.len(),
{
    let ghost depths = row_depths(rows@);
    let depth = rows[index].depth;
    let mut j = index + 1;
    while j < rows.len() && rows[j].depth > depth
        invariant
            depths == row_depths(rows@),
            depth == rows@[index as int].depth,
            index < j <= rows@.len(),
            next_from(depths, depth as int, j as int) == next_sibling(depths, index as int),
        decreases rows@.len() - j,
    {
        j = j + 1;
    }
    j
}

/// Whether row `index` or a row below it matched.
pub fn subtree_has_match(rows: &[Row], matched: &[bool], index: usize) -> (r: bool)
    requires
        index < rows@.len(),
        matched@.len() == rows@.len(),
    ensures
        r == subtree_match(row_depths(rows@), matched@, index as int),
{
    if matched[index] {
        return true;
    }
    let ghost depths = row_depths(rows@);
    let depth = rows[index].depth;
    let mut j = index + 1;
    while j < rows.len() && rows[j].depth > depth
        invariant
            depths == row_depths(rows@),
            matched@.len() == rows@.len(),
            depth == rows@[index as int].depth,
            index < j <= rows@.len(),
            next_from(depths, depth as int, j as int) == next_sibling(depths, index as int),
            forall|q: int| index < q < j ==> !#[trigger] matched@[q],
        decreases rows@.len() - j,
    {
        if matched[j] {
            proof {
                lemma_next_from_bounds(depths, depth as int, j + 1);
                assert(matched@[j as int]);
                assert(any_matched(matched@, index + 1, next_sibling(depths, index as int)));
            }
            return true;
        }
        j = j + 1;
    }
    proof {
        assert(next_from(depths, depth as int, j as int) == j);
        assert forall|q: int| index + 1 <= q < next_sibling(depths, index as int) implies !#[trigger] matched@[q] by {
            assert(q < j);
        }
    }
    false
}

/// The first row of an index range that is at the top level.
pub open spec fn top_rows(rows: Seq<Row>) -> Set<usize> {
    Set::new(|i: usize| i < rows.len() && rows[i as int].depth == 0)
}

impl TreeModel {
    /// The rows that are expanded.
    pub closed spec fn spec_expanded(&self) -> Set<usize> {
        self.expanded@
    }

    /// The rows of the tree.
    pub closed spec fn spec_rows(&self) -> Seq<Row> {
        self.rows@
    }

    /// The filter typed so far.
    pub closed spec fn spec_filter(&self) -> Seq<char> {
        self.filter@
    }

    /// The tree of a bus snapshot: a row for each top-level bus (one that
    /// no bridge window holds), with the rows of its devices below it,
    /// bridges followed by the devices of their secondary bus. The bus rows
    /// start expanded and the filter empty.
    pub fn build(snapshot: &PciSnapshot, windows: &[(PciAddress, BridgeWindow)]) -> (m: TreeModel)
        requires
            model_ends(snapshot.spec_devices(), windows@),
            snapshot.spec_devices().len() + 2 <= usize::MAX,
        ensures
            rows_model(m.spec_rows()) == model_rows(snapshot.spec_devices(), windows@),
            m.spec_filter() == Seq::<char>::empty(),
            m.spec_expanded() == top_rows(m.spec_rows()),
            parents_precede(m.spec_rows()),
            tree_shaped(m.spec_rows()),
    {
        let devices = snapshot.devices();
        let ghost devs = devices@;
        let mut keys: Vec<u64> = Vec::new();
        let mut selected: Vec<bool> = Vec::new();
        let mut i: usize = 0;
        while i < devices.len()
            invariant
                devs == devices@,
                i <= devs.len(),
                keys@ == bus_keys(devs).subrange(0, i as int),
                selected@ == first_on_bus(devs).subrange(0, i as int),
            decreases devs.len() - i,
        {
            let key = devices[i].address.domain as u64 * 0x100 + devices[i].address.bus as u64;
            let mut first = true;
            let mut j: usize = 0;
            while j < i
                invariant
                    devs == devices@,
                    i < devs.len(),
                    j <= i,
                    keys@ == bus_keys(devs).subrange(0, i as int),
                    key == bus_keys(devs)[i as int],
                    first == forall|q: int| 0 <= q < j ==> #[trigger] bus_keys(devs)[q] != key,
                decreases i - j,
            {
                if keys[j] == key {
                    first = false;
                }
                j = j + 1;
            }
            keys.push(key);
            selected.push(first);
            proof {
                assert(keys@ =~= bus_keys(devs).subrange(0, i + 1));
                assert(selected@ =~= first_on_bus(devs).subrange(0, i + 1));
            }
            i = i + 1;
        }
        proof {
            assert(keys@ =~= bus_keys(devs));
            assert(selected@ =~= first_on_bus(devs));
        }
        let order = sorted_selection(&keys, &selected);
        let mut rows: Vec<Row> = Vec::new();
        let mut k: usize = 0;
        while k < order.len()
            invariant
                devs == devices@,
                devs == snapshot.spec_devices(),
                model_ends(devs, windows@),
                devs.len() + 2 <= usize::MAX,
                order@ == top_order(devs),
                is_key_order(bus_keys(devs), first_on_bus(devs), order@),
                k <= order@.len(),
                rows_model(rows@) + model_top_rows(devs, windows@, order@, k as int, rows@.len() as int)
                    == model_top_rows(devs, windows@, order@, 0, 0),
            decreases order@.len() - k,
        {
            let a = devices[order[k]].address;
            let mut covered = false;
            let mut j: usize = 0;
            while j < windows.len()
                invariant
                    j <= windows@.len(),
                    covered == exists|q: int| 0 <= q < j && windows@[q].1.secondary <= a.bus as int <= #[trigger] windows@[q].1.subordinate,
                decreases windows@.len() - j,
            {
                let w = windows[j].1;
                if w.secondary <= a.bus && a.bus <= w.subordinate {
                    covered = true;
                    proof {
                        assert(windows@[j as int].1.secondary <= a.bus as int <= windows@[j as int].1.subordinate);
                    }
                }
                j = j + 1;
            }
            let ghost before = rows_model(rows@);
            let ghost base = rows@.len() as int;
            if !covered {
                let parent = rows.len();
                let mut label = String::new();
                push_hex(&mut label, a.domain as u64, 4);
                label.append(":");
                push_hex(&mut label, a.bus as u64, 2);
                rows.push(Row { depth: 0, parent: None, label, address: None, expandable: true });
                proof {
                    assert(rows_model(rows@) =~= before + seq![(0int, None::<int>,
                        hex_padded(a.domain as nat, 4) + ":"@ + hex_padded(a.bus as nat, 2), None::<PciAddress>, true)]);
                }
                proof {
                    assert forall|q: int| 0 <= q < devs.len() && #[trigger] on_bus(devs, a.bus as int)[q]
                        implies model_ends_within(devs, windows@, q, devs.len() as nat) by {
                        assert(!bus_covered(windows@, devs[q].address.bus as int));
                    }
                }
                push_bus_devices(&mut rows, snapshot, windows, parent, a.bus, 1);
                proof {
                    let below = model_bus_rows(devs, windows@, a.bus as int, 1, base, base + 1, devs.len() as nat);
                    assert(rows@.len() == base + 1 + below.len()) by {
                        assert(rows_model(rows@).len() == rows@.len());
                    }
                    assert(rows_model(rows@) + model_top_rows(devs, windows@, order@, k + 1, rows@.len() as int)
                        =~= before + model_top_rows(devs, windows@, order@, k as int, base));
                }
            }
            k = k + 1;
        }
        proof {
            assert(rows_model(rows@) =~= rows_model(rows@) + Seq::<(int, Option<int>, Seq<char>, Option<PciAddress>, bool)>::empty());
        }
        let mut expanded: HashSet<usize> = HashSet::new();
        let mut r: usize = 0;
        while r < rows.len()
            invariant
                r <= rows@.len(),
                expanded@ == Set::new(|q: usize| q < r && rows@[q as int].depth == 0),
            decreases rows@.len() - r,
        {
            if rows[r].depth == 0 {
                expanded.insert(r);
            }
            proof {
                assert(expanded@ =~= Set::new(|q: usize| q < r + 1 && rows@[q as int].depth == 0));
            }
            r = r + 1;
        }
        proof {
            assert(expanded@ =~= top_rows(rows@));
            lemma_top_rows_parents(devs, windows@, order@, 0, 0);
            assert forall|i: int| 0 <= i < rows@.len() implies (#[trigger] rows@[i].parent matches Some(p) ==> p < i) by {
                assert(rows_model(rows@)[i] == row_model(rows@[i]));
            }
            lemma_top_rows_shaped(devs, windows@, order@, 0, 0);
            let rm = rows_model(rows@);
            assert forall|i: int| 0 <= i < rows@.len() implies {
                &&& (#[trigger] rows@[i].parent is None <==> rows@[i].depth == 0)
                &&& rows@[i].parent matches Some(p) ==> {
                    &&& 0 <= p < i
                    &&& rows@[p as int].depth + 1 == rows@[i].depth
                    &&& forall|k: int| p < k < i ==> #[trigger] rows@[k].depth > rows@[p as int].depth
                }
            } by {
                assert(rm[i] == row_model(rows@[i]));
                if let Some(p) = rows@[i].parent {
                    assert(rm[p as int] == row_model(rows@[p as int]));
                    assert forall|k: int| p < k < i implies #[trigger] rows@[k].depth > rows@[p as int].depth by {
                        assert(rm[k] == row_model(rows@[k]));
                    }
                }
            }
        }
        TreeModel { rows, filter: String::new(), expanded }
    }

    /// The rows to show, in order.
    pub open spec fn spec_visible(&self) -> Seq<usize> {
        visible_from(row_depths(self.spec_rows()), row_matches(self.spec_rows(), self.spec_filter()),
            row_expandable(self.spec_rows()), self.spec_expanded(), self.spec_filter().len() > 0, 0)
    }

    /// The rows to show, in order.
    pub fn visible_rows(&self) -> (r: Vec<usize>)
        ensures
            r@ == self.spec_visible(),
            r@ == visible_from(row_depths(self.spec_rows()), row_matches(self.spec_rows(), self.spec_filter()),
                row_expandable(self.spec_rows()), self.spec_expanded(), self.spec_filter().len() > 0, 0),
    {
        let ghost depths = row_depths(self.rows@);
        let ghost expandable = row_expandable(self.rows@);
        let filter_chars = self.filter.as_str().unicode_len();
        let filtering = filter_chars != 0;
        let lower = chars_of(to_lowercase(self.filter.as_str()).as_str());
        let mut matched: Vec<bool> = Vec::new();
        let mut i: usize = 0;
        while i < self.rows.len()
            invariant
                i <= self.rows@.len(),
                filtering == (self.filter@.len() > 0),
                lower@ == lowercase(self.filter@),
                matched@ == row_matches(self.rows@, self.filter@).subrange(0, i as int),
            decreases self.rows@.len() - i,
        {
            let label = chars_of(to_lowercase(self.rows[i].label.as_str()).as_str());
            let m = filtering && contains_chars(&label, &lower);
            matched.push(m);
            proof {
                assert(matched@ =~= row_matches(self.rows@, self.filter@).subrange(0, i + 1));
            }
            i = i + 1;
        }
        proof {
            assert(matched@ =~= row_matches(self.rows@, self.filter@));
        }
        let ghost m = matched@;
        let mut out: Vec<usize> = Vec::new();
        let mut i: usize = 0;
        while i < self.rows.len()
            invariant
                depths == row_depths(self.rows@),
                expandable == row_expandable(self.rows@),
                matched@ == m,
                m == row_matches(self.rows@, self.filter@),
                filtering == (self.filter@.len() > 0),
                i <= self.rows@.len(),
                out@ + visible_from(depths, m, expandable, self.expanded@, filtering, i as int)
                    == visible_from(depths, m, expandable, self.expanded@, filtering, 0),
            decreases self.rows@.len() - i,
        {
            let has_match = subtree_has_match(self.rows.as_slice(), matched.as_slice(), i);
            let keep = if filtering { matched[i] || has_match } else { true };
            let descend = if filtering { has_match } else { self.rows[i].expandable && self.expanded.contains(&i) };
            let ghost before = out@;
            if keep {
                out.push(i);
            }
            let next = if keep && descend { i + 1 } else { next_sibling_index(self.rows.as_slice(), i) };
            proof {
                lemma_next_from_bounds(depths, depths[i as int], i + 1);
            }
            i = next;
        }
        proof {
            assert(out@ =~= out@ + Seq::<usize>::empty());
        }
        out
    }

    /// Expands a row, when it can be expanded.
    pub fn expand(&mut self, row: usize)
        requires
            row < old(self).spec_rows().len(),
        ensures
            final(self).spec_rows() == old(self).spec_rows(),
            final(self).spec_filter() == old(self).spec_filter(),
            old(self).spec_rows()[row as int].expandable ==> final(self).spec_expanded() == old(self).spec_expanded().insert(row),
            !old(self).spec_rows()[row as int].expandable ==> final(self).spec_expanded() == old(self).spec_expanded(),
    {
        if self.rows[row].expandable {
            self.expanded.insert(row);
        }
    }

    /// Collapses a row.
    pub fn collapse(&mut self, row: usize)
        ensures
            final(self).spec_rows() == old(self).spec_rows(),
            final(self).spec_filter() == old(self).spec_filter(),
            final(self).spec_expanded() == old(self).spec_expanded().remove(row),
    {
        self.expanded.remove(&row);
    }

    /// How many rows the tree has.
    pub fn row_count(&self) -> (r: usize)
        ensures
            r == self.spec_rows().len(),
    {
        self.rows.len()
    }

    /// The filter typed so far.
    pub fn filter_text(&self) -> (r: &String)
        ensures
            r@ == self.spec_filter(),
    {
        &self.filter
    }

    /// Replaces the filter.
    pub fn set_filter(&mut self, filter: String)
        ensures
            final(self).spec_rows() == old(self).spec_rows(),
            final(self).spec_expanded() == old(self).spec_expanded(),
            final(self).spec_filter() == filter@,
    {
        self.filter = filter;
    }

    /// Whether a row is expanded.
    pub fn is_expanded(&self, row: usize) -> (r: bool)
        ensures
            r == self.spec_expanded().contains(row),
    {
        self.expanded.contains(&row)
    }

    /// The parent of a row.
    pub fn parent(&self, row: usize) -> (r: Option<usize>)
        requires
            row < self.spec_rows().len(),
        ensures
            r == self.spec_rows()[row as int].parent,
    {
        self.rows[row].parent
    }

    /// Whether a row shows as open: expanded, or any row while filtering.
    pub fn row_open(&self, row: usize) -> (r: bool)
        ensures
            r == (self.spec_expanded().contains(row) || self.spec_filter().len() > 0),
    {
        self.expanded.contains(&row) || self.filter.as_str().unicode_len() != 0
    }

    /// How many device rows the filter shows, and how many device rows
    /// there are: without a filter all of them are shown, with one those
    /// whose label holds it, both in lowercase.
    pub fn device_counts(&self) -> (r: (usize, usize))
        ensures
            r.1 == device_count(self.spec_rows(), Seq::new(self.spec_rows().len(), |i: int| true), self.spec_rows().len() as int),
            r.0 == if self.spec_filter().len() == 0 {
                r.1 as nat
            } else {
                device_count(self.spec_rows(), row_matches(self.spec_rows(), self.spec_filter()), self.spec_rows().len() as int)
            },
    {
        let ghost rows = self.rows@;
        let ghost all = Seq::new(rows.len(), |i: int| true);
        let ghost matched = row_matches(rows, self.filter@);
        let filtering = self.filter.as_str().unicode_len() != 0;
        let lower = chars_of(to_lowercase(self.filter.as_str()).as_str());
        let mut total: usize = 0;
        let mut shown: usize = 0;
        let mut i: usize = 0;
        while i < self.rows.len()
            invariant
                rows == self.rows@,
                all == Seq::new(rows.len(), |i: int| true),
                matched == row_matches(rows, self.filter@),
                filtering == (self.filter@.len() > 0),
                lower@ == lowercase(self.filter@),
                i <= rows.len(),
                total == device_count(rows, all, i as int),
                filtering ==> shown == device_count(rows, matched, i as int),
                total <= i,
                shown <= i,
            decreases rows.len() - i,
        {
            if self.rows[i].address.is_some() {
                total = total + 1;
                if filtering {
                    let label = chars_of(to_lowercase(self.rows[i].label.as_str()).as_str());
                    if contains_chars(&label, &lower) {
                        shown = shown + 1;
                    }
                }
            }
            i = i + 1;
        }
        if filtering { (shown, total) } else { (total, total) }
    }
}

/// Whether ` -[` stands in `s` at `k`.
pub open spec fn window_mark_at(s: Seq<char>, k: int) -> bool {
    0 <= k && k + 3 <= s.len() && s[k] == ' ' && s[k + 1] == '-' && s[k + 2] == '['
}

/// Splits a row label where its window label begins: at the first ` -[`,
/// the text before it and the rest from ` -[` on; `None` when it has none.
pub fn split_window_label(label: &str) -> (r: Option<(String, String)>)
    ensures
        match r {
            None => forall|k: int| !#[trigger] window_mark_at(label@, k),
            Some((head, tail)) => {
                &&& window_mark_at(label@, head@.len() as int)
                &&& forall|j: int| 0 <= j < head@.len() ==> !#[trigger] window_mark_at(label@, j)
                &&& head@ == label@.take(head@.len() as int)
                &&& tail@ == label@.skip(head@.len() as int)
            },
        },
{
    let n = label.unicode_len();
    let mut k: usize = 0;
    while n >= 3 && k <= n - 3
        invariant
            n == label@.len(),
            k <= n,
            forall|j: int| 0 <= j < k ==> !#[trigger] window_mark_at(label@, j),
        decreases n - k,
    {
        if label.get_char(k) == ' ' && label.get_char(k + 1) == '-' && label.get_char(k + 2) == '[' {
            let head = String::from_str(label.substring_char(0, k));
            let tail = String::from_str(label.substring_char(k, n));
            proof {
                assert(head@ =~= label@.take(k as int));
                assert(tail@ =~= label@.skip(k as int));
            }
            return Some((head, tail));
        }
        k = k + 1;
    }
    proof {
        assert forall|j: int| !#[trigger] window_mark_at(label@, j) by {
            if 0 <= j < k {
            }
        }
    }
    None
}

/// How many of the first `n` rows are device rows that `matched` marks.
pub open spec fn device_count(rows: Seq<Row>, matched: Seq<bool>, n: int) -> nat
    decreases n,
{
    if n <= 0 {
        0
    } else {
        device_count(rows, matched, n - 1) + if rows[n - 1].address is Some && matched[n - 1] { 1nat } else { 0nat }
    }
}

/// Whether every row's parent comes before it.
pub open spec fn parents_precede(rows: Seq<Row>) -> bool {
    forall|i: int| 0 <= i < rows.len() ==> (#[trigger] rows[i].parent matches Some(p) ==> p < i)
}

/// Whether every row's parent comes before it.
pub fn rows_have_earlier_parents(rows: &[Row]) -> (r: bool)
    ensures
        r == parents_precede(rows@),
{
    let mut i: usize = 0;
    while i < rows.len()
        invariant
            i <= rows@.len(),
            forall|j: int| 0 <= j < i ==> (#[trigger] rows@[j].parent matches Some(p) ==> p < j),
        decreases rows@.len() - i,
    {
        if let Some(p) = rows[i].parent {
            if p >= i {
                return false;
            }
        }
        i = i + 1;
    }
    true
}

/// The top-level row above row `i`, following parents.
pub open spec fn root_of(rows: Seq<Row>, i: int) -> int
    decreases i,
{
    if 0 <= i < rows.len() {
        match rows[i].parent {
            Some(p) => if p < i { root_of(rows, p as int) } else { i },
            None => i,
        }
    } else {
        i
    }
}

/// The title of the tree pane: the label of the top-level row above the
/// row under the cursor, or `devices` when no row is under it.
pub open spec fn top_level_label_spec(rows: Seq<Row>, visible: Seq<usize>, cursor: int) -> Seq<char> {
    if 0 <= cursor < visible.len() {
        rows[root_of(rows, visible[cursor] as int)].label@
    } else {
        "devices"@
    }
}

/// The title of the tree pane.
pub fn top_level_label(model: &TreeModel, visible: &[usize], cursor: usize) -> (r: String)
    requires
        parents_precede(model.spec_rows()),
        forall|i: int| 0 <= i < visible@.len() ==> (#[trigger] visible@[i]) < model.spec_rows().len(),
    ensures
        r@ == top_level_label_spec(model.spec_rows(), visible@, cursor as int),
{
    if cursor >= visible.len() {
        return String::from_str("devices");
    }
    let rows = &model.rows;
    let mut index = visible[cursor];
    while rows[index].parent.is_some()
        invariant
            rows@ == model.spec_rows(),
            parents_precede(rows@),
            index < rows@.len(),
            root_of(rows@, index as int) == root_of(rows@, visible@[cursor as int] as int),
        decreases index,
    {
        let parent = match rows[index].parent {
            Some(p) => p,
            None => index,
        };
        proof {
            assert(rows@[index as int].parent matches Some(p) ==> p < index);
        }
        index = parent;
    }
    rows[index].label.clone()
}

/// Where the tree pane's cursor and first shown row go: the cursor back
/// onto the last visible row when it is past it, and the first shown row
/// moved so that the cursor's row is among the `height` rows shown.
pub open spec fn viewport_spec(cursor: int, offset: int, visible_len: int, height: int) -> (int, int) {
    let c = if cursor >= visible_len { if visible_len > 0 { visible_len - 1 } else { 0 } } else { cursor };
    let o = if height > 0 && c < offset { c } else { offset };
    let o2 = if height > 0 && c >= o + height { c - height + 1 } else { o };
    (c, o2)
}

/// The tree pane's cursor and first shown row, kept in view.
pub fn tree_viewport(cursor: usize, offset: usize, visible_len: usize, height: usize) -> (r: (usize, usize))
    requires
        offset + height <= usize::MAX,
    ensures
        (r.0 as int, r.1 as int) == viewport_spec(cursor as int, offset as int, visible_len as int, height as int),
{
    let mut cursor = cursor;
    let mut offset = offset;
    if cursor >= visible_len {
        cursor = if visible_len > 0 { visible_len - 1 } else { 0 };
    }
    if height > 0 {
        if cursor < offset {
            offset = cursor;
        }
        if cursor >= offset + height {
            offset = cursor - height + 1;
        }
    }
    (cursor, offset)
}

/// The indentation and fold marker before a row's label: two spaces per
/// level, then a marker for a row that can be expanded (open or closed).
pub open spec fn row_prefix_spec(depth: nat, expandable: bool, open: bool) -> Seq<char> {
    Seq::new(2 * depth, |i: int| ' ') + if !expandable { "  "@ } else if open { "\u{25be} "@ } else { "\u{25b8} "@ }
}

/// The indentation and fold marker before a row's label.
pub fn row_prefix(depth: usize, expandable: bool, open: bool) -> (r: String)
    ensures
        r@ == row_prefix_spec(depth as nat, expandable, open),
{
    let mut out = String::new();
    let mut i: usize = 0;
    while i < depth
        invariant
            i <= depth,
            out@ == Seq::new(2 * i as nat, |k: int| ' '),
        decreases depth - i,
    {
        proof {
            reveal_strlit("  ");
        }
        out.append("  ");
        proof {
            assert(out@ =~= Seq::new(2 * (i + 1) as nat, |k: int| ' '));
        }
        i = i + 1;
    }
    if !expandable {
        out.append("  ");
    } else if open {
        out.append("\u{25be} ");
    } else {
        out.append("\u{25b8} ");
    }
    out
}

} // verus!
