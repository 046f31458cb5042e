//! The bus tree: devices under the bridges that own their buses.
use vstd::prelude::*;
use vstd::string::StringExecFns;
use crate::color::{Palette, paint_text};
use crate::config::ConfigSpaceSnapshot;
use crate::device::{PciAddress, PciDevice};
use crate::order::{key_order, sorted_selection};
use crate::text::{dec_min, hex_padded, push_dec, push_hex};

verus! {

/// The range of buses behind a bridge: its secondary and subordinate bus.
#[derive(Clone, Copy, Debug, PartialEq, Eq, Structural)]
pub struct BridgeWindow {
    pub secondary: u8,
    pub subordinate: u8,
}

/// Whether a window holds a bus.
pub open spec fn window_covers(w: BridgeWindow, bus: u8) -> bool {
    w.secondary <= bus <= w.subordinate
}

/// How many buses a window holds besides its secondary bus.
pub open spec fn window_width(w: BridgeWindow) -> int {
    w.subordinate - w.secondary
}

/// Whether a device is a PCI-to-PCI bridge (class 0x0604).
pub fn is_pci_bridge(device: &PciDevice) -> (r: bool)
    ensures
        r == (device.class_id == 0x0604),
{
    device.class_id == 0x0604
}

/// The window of a bridge, from its configuration header: the secondary
/// and subordinate bus numbers at offsets 0x19 and 0x1a.
pub fn bridge_window(config: &ConfigSpaceSnapshot) -> (r: Option<BridgeWindow>)
    requires
        config.wf(),
    ensures
        match config.read_spec(0x19, 2) {
            Ok(b) => r == Some(BridgeWindow { secondary: b[0], subordinate: b[1] }),
            Err(_) => r is None,
        },
{
    match config.read(0x19, 2) {
        Ok(bytes) => Some(BridgeWindow { secondary: bytes[0], subordinate: bytes[1] }),
        Err(_) => None,
    }
}

/// Among the first `n` windows, the index of the innermost one (the
/// narrowest, the first of equally narrow ones) that holds the bus of
/// `device` and is not the device's own.
pub open spec fn owner_index(ws: Seq<(PciAddress, BridgeWindow)>, device: PciAddress, n: int) -> Option<int>
    decreases n,
{
    if n <= 0 {
        None
    } else {
        let prev = owner_index(ws, device, n - 1);
        let e = ws[n - 1];
        if e.0 == device || !window_covers(e.1, device.bus) {
            prev
        } else {
            match prev {
                Some(j) => if window_width(e.1) >= window_width(ws[j].1) { prev } else { Some(n - 1) },
                None => Some(n - 1),
            }
        }
    }
}

/// The owner of a device's bus is the innermost other bridge whose window
/// holds that bus: its window holds the bus, no other such window is
/// narrower, and none before it is as narrow; when there is no owner, no
/// other bridge's window holds the bus.
pub proof fn lemma_owner_is_innermost(ws: Seq<(PciAddress, BridgeWindow)>, device: PciAddress, n: int)
    requires
        0 <= n <= ws.len(),
    ensures
        match owner_index(ws, device, n) {
            Some(j) => {
                &&& 0 <= j < n
                &&& ws[j].0 != device
                &&& window_covers(ws[j].1, device.bus)
                &&& forall|k: int| 0 <= k < n && ws[k].0 != device && window_covers(ws[k].1, device.bus)
                    ==> window_width(ws[j].1) <= window_width(#[trigger] ws[k].1)
                &&& forall|k: int| 0 <= k < j && ws[k].0 != device && window_covers(ws[k].1, device.bus)
                    ==> window_width(ws[j].1) < window_width(#[trigger] ws[k].1)
            },
            None => forall|k: int| 0 <= k < n && ws[k].0 != device ==> !window_covers(#[trigger] ws[k].1, device.bus),
        },
    decreases n,
{
    if n > 0 {
        lemma_owner_is_innermost(ws, device, n - 1);
    }
}

/// The bridge that owns a device's bus: the innermost other bridge whose
/// window holds it.
pub open spec fn owner_bridge_spec(ws: Seq<(PciAddress, BridgeWindow)>, device: PciAddress) -> Option<PciAddress> {
    match owner_index(ws, device, ws.len() as int) {
        Some(j) => Some(ws[j].0),
        None => None,
    }
}

/// The bridge that owns a device's bus.
pub fn owner_bridge(windows: &[(PciAddress, BridgeWindow)], device: &PciDevice) -> (r: Option<PciAddress>)
    ensures
        r == owner_bridge_spec(windows@, device.address),
{
    let mut best: Option<usize> = None;
    let mut i: usize = 0;
    while i < windows.len()
        invariant
            i <= windows@.len(),
            match owner_index(windows@, device.address, i as int) {
                Some(j) => best == Some(j as usize) && 0 <= j < i && window_covers(windows@[j].1, device.address.bus),
                None => best is None,
            },
        decreases windows@.len() - i,
    {
        let entry = windows[i];
        if entry.0 != device.address {
            let window = entry.1;
            if device.address.bus >= window.secondary && device.address.bus <= window.subordinate {
                match best {
                    Some(current) => {
                        let current_window = windows[current].1;
                        if window.subordinate - window.secondary < current_window.subordinate - current_window.secondary {
                            best = Some(i);
                        }
                    },
                    None => {
                        best = Some(i);
                    },
                }
            }
        }
        i = i + 1;
    }
    match best {
        Some(j) => Some(windows[j].0),
        None => None,
    }
}

/// The first window of the bridge at `address`, among windows `k..`.
pub open spec fn window_from(ws: Seq<(PciAddress, BridgeWindow)>, address: PciAddress, k: int) -> Option<BridgeWindow>
    decreases ws.len() - k,
{
    if k < 0 || k >= ws.len() {
        None
    } else if ws[k].0 == address {
        Some(ws[k].1)
    } else {
        window_from(ws, address, k + 1)
    }
}

/// The window of the bridge at `address`, if it is a bridge with a window.
pub fn window_of(windows: &[(PciAddress, BridgeWindow)], address: PciAddress) -> (r: Option<BridgeWindow>)
    ensures
        r == window_from(windows@, address, 0),
        r matches Some(w) ==> exists|i: int| 0 <= i < windows@.len() && #[trigger] windows@[i] == (address, w),
{
    let mut i: usize = 0;
    while i < windows.len()
        invariant
            i <= windows@.len(),
            window_from(windows@, address, 0) == window_from(windows@, address, i as int),
        decreases windows@.len() - i,
    {
        if windows[i].0 == address {
            proof {
                assert(windows@[i as int] == (address, windows@[i as int].1));
            }
            return Some(windows[i].1);
        }
        i = i + 1;
    }
    None
}

/// The sort key of a device on its bus: slot, then function.
pub open spec fn slot_keys(devs: Seq<PciDevice>) -> Seq<u64> {
    Seq::new(devs.len(), |i: int| (devs[i].address.slot * 0x100 + devs[i].address.function) as u64)
}

/// The devices drawn on a bus at a depth stand on that bus, in order of
/// slot, and for equal slots in order of function.
pub proof fn lemma_bus_order_by_slot_function(devs: Seq<PciDevice>, ws: Seq<(PciAddress, BridgeWindow)>, bus: int,
    depth: int, i: int, j: int)
    requires
        devs.len() <= usize::MAX,
        0 <= i < j < bus_order(devs, ws, bus, depth).len(),
    ensures
        ({
            let order = bus_order(devs, ws, bus, depth);
            let a = devs[order[i] as int].address;
            let b = devs[order[j] as int].address;
            &&& a.bus == bus
            &&& b.bus == bus
            &&& a.slot < b.slot || (a.slot == b.slot && a.function <= b.function)
        }),
{
    let keys = slot_keys(devs);
    let selected = bus_selection(devs, ws, bus, depth);
    crate::order::lemma_key_order_exists(keys, selected);
    let order = bus_order(devs, ws, bus, depth);
    assert(crate::order::key_precedes(keys, order[i] as int, order[j] as int));
    assert(selected[order[i] as int] && selected[order[j] as int]);
}

/// The devices shown on a bus at a depth: those on the bus whose owner
/// is a bridge below the top level, or who have no owner at the top level.
pub open spec fn bus_selection(devs: Seq<PciDevice>, ws: Seq<(PciAddress, BridgeWindow)>, bus: int, depth: int) -> Seq<bool> {
    Seq::new(devs.len(), |i: int| devs[i].address.bus == bus
        && (if owner_bridge_spec(ws, devs[i].address) is Some { depth > 0 } else { depth == 0 }))
}

/// The devices shown on a bus at a depth, by slot and function.
pub open spec fn bus_order(devs: Seq<PciDevice>, ws: Seq<(PciAddress, BridgeWindow)>, bus: int, depth: int) -> Seq<usize> {
    key_order(slot_keys(devs), bus_selection(devs, ws, bus, depth))
}

/// What comes before a device's address on its line.
pub open spec fn connector_text(d: PciAddress, depth: int, prefix: Seq<char>) -> Seq<char> {
    if depth == 0 {
        "-["@ + hex_padded(d.domain as nat, 4) + ":"@ + hex_padded(d.bus as nat, 2) + "]-+- "@
    } else {
        prefix + "+- "@
    }
}

/// A device's address within its domain, `bb:ss.f`.
pub open spec fn short_address_text(d: PciAddress) -> Seq<char> {
    hex_padded(d.bus as nat, 2) + ":"@ + hex_padded(d.slot as nat, 2) + "."@ + dec_min(d.function as nat)
}

/// The label of a bridge's window, `-[ss-uu]`.
pub open spec fn window_label(w: BridgeWindow) -> Seq<char> {
    "-["@ + hex_padded(w.secondary as nat, 2) + "-"@ + hex_padded(w.subordinate as nat, 2) + "]"@
}

/// The tree below a bus: its devices at the given depth, each on a line,
/// and below each bridge the buses of its window, down to `fuel` levels of
/// bridges. (With as many levels as there are devices, the whole tree is
/// drawn wherever it ends; see `tree_ends_within`.)
pub open spec fn bus_text(colored: bool, devs: Seq<PciDevice>, ws: Seq<(PciAddress, BridgeWindow)>, bus: int, depth: int,
    prefix: Seq<char>, fuel: nat) -> Seq<char>
    decreases fuel, 3int, 0int,
{
    rows_text(colored, devs, ws, bus, depth, prefix, bus_order(devs, ws, bus, depth), 0, fuel)
}

/// The line of a device on a bus, followed by the tree below it when it
/// is a bridge.
pub open spec fn row_text(colored: bool, devs: Seq<PciDevice>, ws: Seq<(PciAddress, BridgeWindow)>, bus: int, depth: int,
    prefix: Seq<char>, d: PciDevice, fuel: nat) -> Seq<char>
    decreases fuel, 1int, 0int,
{
    let head = connector_text(d.address, depth, prefix) + paint_text(colored, "1;36"@, short_address_text(d.address)) + " "@;
    match window_from(ws, d.address, 0) {
        Some(w) => head + paint_text(colored, "2"@, window_label(w)) + " "@ + d.device_name@ + "\n"@
            + if fuel > 0 {
                children_text(colored, devs, ws, w.secondary as int, w.subordinate as int, depth + 1, prefix + "|  "@,
                    (fuel - 1) as nat)
            } else {
                Seq::empty()
            },
        None => head + d.device_name@ + "\n"@,
    }
}

/// The lines of the devices `order[k..]` of a bus, each followed by the
/// tree below it when it is a bridge.
pub open spec fn rows_text(colored: bool, devs: Seq<PciDevice>, ws: Seq<(PciAddress, BridgeWindow)>, bus: int, depth: int,
    prefix: Seq<char>, order: Seq<usize>, k: int, fuel: nat) -> Seq<char>
    decreases fuel, 2int, order.len() - k,
{
    if k < 0 || k >= order.len() || !(0 <= order[k] < devs.len()) {
        Seq::empty()
    } else {
        row_text(colored, devs, ws, bus, depth, prefix, devs[order[k] as int], fuel)
            + rows_text(colored, devs, ws, bus, depth, prefix, order, k + 1, fuel)
    }
}

/// The trees below buses `lo..=hi`.
pub open spec fn children_text(colored: bool, devs: Seq<PciDevice>, ws: Seq<(PciAddress, BridgeWindow)>, lo: int, hi: int,
    depth: int, prefix: Seq<char>, fuel: nat) -> Seq<char>
    decreases fuel, 4int, hi - lo + 1,
{
    if lo > hi || lo > 255 || lo < 0 {
        Seq::empty()
    } else {
        bus_text(colored, devs, ws, lo, depth, prefix, fuel) + children_text(colored, devs, ws, lo + 1, hi, depth, prefix, fuel)
    }
}

/// Whether device `j` is drawn right below device `i` in the bus tree: `i`
/// has a window, `j` stands on a bus of that window, and `j`'s bus has an
/// owner bridge (as every device below the top level must).
pub open spec fn tree_child(devs: Seq<PciDevice>, ws: Seq<(PciAddress, BridgeWindow)>, i: int, j: int) -> bool {
    &&& window_from(ws, devs[i].address, 0) matches Some(w)
    &&& w.secondary <= devs[j].address.bus <= w.subordinate
    &&& owner_bridge_spec(ws, devs[j].address) is Some
}

/// Whether the tree below device `i` ends within `k` levels of bridges.
/// A tree that never ends passes some device twice, so ending within as
/// many levels as there are devices is the same as reaching no cycle.
pub open spec fn tree_ends_within(devs: Seq<PciDevice>, ws: Seq<(PciAddress, BridgeWindow)>, i: int, k: nat) -> bool
    decreases k,
{
    forall|j: int| 0 <= j < devs.len() && #[trigger] tree_child(devs, ws, i, j)
        ==> k > 0 && tree_ends_within(devs, ws, j, (k - 1) as nat)
}

/// Whether some device is shown on a bus at a depth.
pub open spec fn has_shown(devs: Seq<PciDevice>, ws: Seq<(PciAddress, BridgeWindow)>, bus: int, depth: int) -> bool {
    exists|i: int| 0 <= i < devs.len() && #[trigger] bus_selection(devs, ws, bus, depth)[i]
}

/// Whether the tree below every device shown on a bus at a depth ends
/// within `k` levels.
pub open spec fn bus_ends(devs: Seq<PciDevice>, ws: Seq<(PciAddress, BridgeWindow)>, bus: int, depth: int, k: nat) -> bool {
    forall|i: int| 0 <= i < devs.len() && #[trigger] bus_selection(devs, ws, bus, depth)[i]
        ==> tree_ends_within(devs, ws, i, k)
}

/// Whether the tree below every device on a top-level bus (one that no
/// window holds) ends within as many levels as there are devices: no cycle
/// can be reached from a top-level bus.
pub open spec fn tree_ends(devs: Seq<PciDevice>, ws: Seq<(PciAddress, BridgeWindow)>) -> bool {
    forall|i: int| 0 <= i < devs.len() && !#[trigger] bus_covered(ws, devs[i].address.bus as int)
        ==> tree_ends_within(devs, ws, i, devs.len() as nat)
}

/// The stable order of no selected item is empty.
proof fn lemma_key_order_none(keys: Seq<u64>, selected: Seq<bool>)
    requires
        selected.len() == keys.len(),
        forall|i: int| 0 <= i < selected.len() ==> !#[trigger] selected[i],
    ensures
        key_order(keys, selected).len() == 0,
{
    assert(crate::order::is_key_order(keys, selected, Seq::<usize>::empty()));
    let o = key_order(keys, selected);
    assert(crate::order::is_key_order(keys, selected, o));
    if o.len() > 0 {
        assert(selected[o[0] as int]);
    }
}

/// Below buses where no device is shown, nothing is drawn.
proof fn lemma_children_empty(colored: bool, devs: Seq<PciDevice>, ws: Seq<(PciAddress, BridgeWindow)>, lo: int, hi: int,
    depth: int, prefix: Seq<char>, fuel: nat)
    requires
        forall|b: int| lo <= b <= hi ==> !#[trigger] has_shown(devs, ws, b, depth),
    ensures
        children_text(colored, devs, ws, lo, hi, depth, prefix, fuel) == Seq::<char>::empty(),
    decreases hi - lo + 1,
{
    if !(lo > hi || lo > 255 || lo < 0) {
        assert(!has_shown(devs, ws, lo, depth));
        lemma_key_order_none(slot_keys(devs), bus_selection(devs, ws, lo, depth));
        lemma_children_empty(colored, devs, ws, lo + 1, hi, depth, prefix, fuel);
        assert(bus_text(colored, devs, ws, lo, depth, prefix, fuel) == Seq::<char>::empty());
    }
}

/// Whether device `j` is drawn right below device `i`, from the windows of
/// the devices and whether each device's bus has an owner.
fn is_tree_child(devices: &[PciDevice], wins: &Vec<Option<BridgeWindow>>, owned: &Vec<bool>, i: usize, j: usize,
    Ghost(ws): Ghost<Seq<(PciAddress, BridgeWindow)>>) -> (r: bool)
    requires
        i < devices@.len(),
        j < devices@.len(),
        wins@.len() == devices@.len(),
        owned@.len() == devices@.len(),
        forall|q: int| 0 <= q < devices@.len() ==> #[trigger] wins@[q] == window_from(ws, devices@[q].address, 0),
        forall|q: int| 0 <= q < devices@.len() ==> #[trigger] owned@[q] == (owner_bridge_spec(ws, devices@[q].address) is Some),
    ensures
        r == tree_child(devices@, ws, i as int, j as int),
{
    proof {
        assert(wins@[i as int] == window_from(ws, devices@[i as int].address, 0));
        assert(owned@[j as int] == (owner_bridge_spec(ws, devices@[j as int].address) is Some));
    }
    match wins[i] {
        Some(w) => w.secondary <= devices[j].address.bus && devices[j].address.bus <= w.subordinate && owned[j],
        None => false,
    }
}

/// Whether no cycle can be reached from a top-level bus: the tree below
/// every device on a bus that no window holds ends within as many levels
/// as there are devices. Worked out level by level.
pub fn tree_ends_check(devices: &[PciDevice], windows: &[(PciAddress, BridgeWindow)]) -> (r: bool)
    ensures
        r == tree_ends(devices@, windows@),
{
    let ghost devs = devices@;
    let ghost ws = windows@;
    let n = devices.len();
    let mut wins: Vec<Option<BridgeWindow>> = Vec::new();
    let mut owned: Vec<bool> = Vec::new();
    let mut i: usize = 0;
    while i < n
        invariant
            n == devs.len(),
            devs == devices@,
            ws == windows@,
            i <= n,
            wins@.len() == i,
            owned@.len() == i,
            forall|q: int| 0 <= q < i ==> #[trigger] wins@[q] == window_from(ws, devs[q].address, 0),
            forall|q: int| 0 <= q < i ==> #[trigger] owned@[q] == (owner_bridge_spec(ws, devs[q].address) is Some),
        decreases n - i,
    {
        wins.push(window_of(windows, devices[i].address));
        owned.push(owner_bridge(windows, &devices[i]).is_some());
        i = i + 1;
    }
    // ends[q] == tree_ends_within(q, level)
    let mut ends: Vec<bool> = Vec::new();
    let mut done: usize = 0;
    let mut first = true;
    while first || done < n
        invariant
            n == devs.len(),
            devs == devices@,
            ws == windows@,
            wins@.len() == n,
            owned@.len() == n,
            forall|q: int| 0 <= q < n ==> #[trigger] wins@[q] == window_from(ws, devs[q].address, 0),
            forall|q: int| 0 <= q < n ==> #[trigger] owned@[q] == (owner_bridge_spec(ws, devs[q].address) is Some),
            done <= n,
            !first ==> ends@.len() == n,
            !first ==> forall|q: int| 0 <= q < n ==> #[trigger] ends@[q] == tree_ends_within(devs, ws, q, done as nat),
        decreases (if first { n + 1 } else { n - done }),
    {
        let level: usize = if first { 0 } else { done + 1 };
        let mut next: Vec<bool> = Vec::new();
        let mut a: usize = 0;
        while a < n
            invariant
                n == devs.len(),
                devs == devices@,
                ws == windows@,
                wins@.len() == n,
                owned@.len() == n,
                forall|q: int| 0 <= q < n ==> #[trigger] wins@[q] == window_from(ws, devs[q].address, 0),
                forall|q: int| 0 <= q < n ==> #[trigger] owned@[q] == (owner_bridge_spec(ws, devs[q].address) is Some),
                first == (level == 0),
                !first ==> level == done + 1,
                !first ==> ends@.len() == n,
                !first ==> forall|q: int| 0 <= q < n ==> #[trigger] ends@[q] == tree_ends_within(devs, ws, q, done as nat),
                a <= n,
                next@.len() == a,
                forall|q: int| 0 <= q < a ==> #[trigger] next@[q] == tree_ends_within(devs, ws, q, level as nat),
            decreases n - a,
        {
            let mut ok = true;
            let mut b: usize = 0;
            while b < n
                invariant
                    n == devs.len(),
                    devs == devices@,
                    ws == windows@,
                    wins@.len() == n,
                    owned@.len() == n,
                    forall|q: int| 0 <= q < n ==> #[trigger] wins@[q] == window_from(ws, devs[q].address, 0),
                    forall|q: int| 0 <= q < n ==> #[trigger] owned@[q] == (owner_bridge_spec(ws, devs[q].address) is Some),
                    first == (level == 0),
                    !first ==> level == done + 1,
                    !first ==> ends@.len() == n,
                    !first ==> forall|q: int| 0 <= q < n ==> #[trigger] ends@[q] == tree_ends_within(devs, ws, q, done as nat),
                    a < n,
                    b <= n,
                    ok == forall|j: int| 0 <= j < b && #[trigger] tree_child(devs, ws, a as int, j)
                        ==> level > 0 && tree_ends_within(devs, ws, j, (level - 1) as nat),
                decreases n - b,
            {
                if is_tree_child(devices, &wins, &owned, a, b, Ghost(ws)) {
                    if first || !ends[b] {
                        ok = false;
                    }
                }
                proof {
                    assert(ok == forall|j: int| 0 <= j < b + 1 && #[trigger] tree_child(devs, ws, a as int, j)
                        ==> level > 0 && tree_ends_within(devs, ws, j, (level - 1) as nat)) by {
                        if !ok {
                            if !(forall|j: int| 0 <= j < b && #[trigger] tree_child(devs, ws, a as int, j)
                                ==> level > 0 && tree_ends_within(devs, ws, j, (level - 1) as nat)) {
                            } else {
                                assert(tree_child(devs, ws, a as int, b as int));
                            }
                        }
                    }
                }
                b = b + 1;
            }
            proof {
                assert(ok == tree_ends_within(devs, ws, a as int, level as nat));
            }
            next.push(ok);
            a = a + 1;
        }
        ends = next;
        first = false;
        done = level;
    }
    let mut all = true;
    let mut i: usize = 0;
    while i < n
        invariant
            n == devs.len(),
            devs == devices@,
            ws == windows@,
            ends@.len() == n,
            forall|q: int| 0 <= q < n ==> #[trigger] ends@[q] == tree_ends_within(devs, ws, q, n as nat),
            i <= n,
            all == forall|q: int| 0 <= q < i && !#[trigger] bus_covered(ws, devs[q].address.bus as int)
                ==> tree_ends_within(devs, ws, q, n as nat),
        decreases n - i,
    {
        let bus = devices[i].address.bus;
        let mut covered = false;
        let mut j: usize = 0;
        while j < windows.len()
            invariant
                ws == windows@,
                j <= ws.len(),
                covered == exists|q: int| 0 <= q < j && ws[q].1.secondary <= bus as int <= #[trigger] ws[q].1.subordinate,
            decreases ws.len() - j,
        {
            let w = windows[j].1;
            if w.secondary <= bus && bus <= w.subordinate {
                covered = true;
                proof {
                    assert(ws[j as int].1.secondary <= bus as int <= ws[j as int].1.subordinate);
                }
            }
            j = j + 1;
        }
        proof {
            assert(covered == bus_covered(ws, devs[i as int].address.bus as int));
        }
        if !covered && !ends[i] {
            all = false;
        }
        proof {
            assert(all == forall|q: int| 0 <= q < i + 1 && !#[trigger] bus_covered(ws, devs[q].address.bus as int)
                ==> tree_ends_within(devs, ws, q, n as nat)) by {
                if !all && (forall|q: int| 0 <= q < i && !#[trigger] bus_covered(ws, devs[q].address.bus as int)
                    ==> tree_ends_within(devs, ws, q, n as nat)) {
                    assert(!bus_covered(ws, devs[i as int].address.bus as int));
                }
            }
        }
        i = i + 1;
    }
    all
}
/// Drawing a bus down to more levels than its tree needs draws the same
/// text: once the tree below each device shown there ends within `f1`
/// levels, any `f2 >= f1` gives what `f1` gives.
pub proof fn lemma_bus_text_enough(colored: bool, devs: Seq<PciDevice>, ws: Seq<(PciAddress, BridgeWindow)>, bus: int,
    depth: int, prefix: Seq<char>, f1: nat, f2: nat)
    requires
        devs.len() <= usize::MAX,
        bus_ends(devs, ws, bus, depth, f1),
        f1 <= f2,
    ensures
        bus_text(colored, devs, ws, bus, depth, prefix, f1) == bus_text(colored, devs, ws, bus, depth, prefix, f2),
    decreases f1, 3int, 0int,
{
    crate::order::lemma_key_order_exists(slot_keys(devs), bus_selection(devs, ws, bus, depth));
    lemma_rows_text_enough(colored, devs, ws, bus, depth, prefix, bus_order(devs, ws, bus, depth), 0, f1, f2);
}

proof fn lemma_rows_text_enough(colored: bool, devs: Seq<PciDevice>, ws: Seq<(PciAddress, BridgeWindow)>, bus: int,
    depth: int, prefix: Seq<char>, order: Seq<usize>, k: int, f1: nat, f2: nat)
    requires
        devs.len() <= usize::MAX,
        bus_ends(devs, ws, bus, depth, f1),
        crate::order::is_key_order(slot_keys(devs), bus_selection(devs, ws, bus, depth), order),
        f1 <= f2,
    ensures
        rows_text(colored, devs, ws, bus, depth, prefix, order, k, f1) == rows_text(colored, devs, ws, bus, depth, prefix, order, k, f2),
    decreases f1, 2int, order.len() - k,
{
    if !(k < 0 || k >= order.len() || !(0 <= order[k] < devs.len())) {
        let idx = order[k] as int;
        assert(bus_selection(devs, ws, bus, depth)[idx]);
        lemma_row_text_enough(colored, devs, ws, bus, depth, prefix, idx, f1, f2);
        lemma_rows_text_enough(colored, devs, ws, bus, depth, prefix, order, k + 1, f1, f2);
    }
}

proof fn lemma_row_text_enough(colored: bool, devs: Seq<PciDevice>, ws: Seq<(PciAddress, BridgeWindow)>, bus: int,
    depth: int, prefix: Seq<char>, idx: int, f1: nat, f2: nat)
    requires
        devs.len() <= usize::MAX,
        0 <= idx < devs.len(),
        bus_selection(devs, ws, bus, depth)[idx],
        tree_ends_within(devs, ws, idx, f1),
        f1 <= f2,
    ensures
        row_text(colored, devs, ws, bus, depth, prefix, devs[idx], f1) == row_text(colored, devs, ws, bus, depth, prefix, devs[idx], f2),
    decreases f1, 1int, 0int,
{
    let d = devs[idx];
    if let Some(w) = window_from(ws, d.address, 0) {
        if f1 > 0 {
            assert forall|b: int| w.secondary <= b <= w.subordinate implies #[trigger] bus_ends(devs, ws, b, depth + 1, (f1 - 1) as nat) by {
                assert forall|j: int| 0 <= j < devs.len() && #[trigger] bus_selection(devs, ws, b, depth + 1)[j]
                    implies tree_ends_within(devs, ws, j, (f1 - 1) as nat) by {
                    assert(tree_child(devs, ws, idx, j));
                }
            }
            lemma_children_text_enough(colored, devs, ws, w.secondary as int, w.subordinate as int, depth + 1, prefix + "|  "@,
                (f1 - 1) as nat, (f2 - 1) as nat);
        } else if f2 > 0 {
            assert forall|b: int| w.secondary <= b <= w.subordinate implies !#[trigger] has_shown(devs, ws, b, depth + 1) by {
                if has_shown(devs, ws, b, depth + 1) {
                    let j = choose|j: int| 0 <= j < devs.len() && #[trigger] bus_selection(devs, ws, b, depth + 1)[j];
                    assert(tree_child(devs, ws, idx, j));
                }
            }
            lemma_children_empty(colored, devs, ws, w.secondary as int, w.subordinate as int, depth + 1, prefix + "|  "@,
                (f2 - 1) as nat);
        }
    }
}

proof fn lemma_children_text_enough(colored: bool, devs: Seq<PciDevice>, ws: Seq<(PciAddress, BridgeWindow)>, lo: int,
    hi: int, depth: int, prefix: Seq<char>, f1: nat, f2: nat)
    requires
        devs.len() <= usize::MAX,
        forall|b: int| lo <= b <= hi ==> #[trigger] bus_ends(devs, ws, b, depth, f1),
        f1 <= f2,
    ensures
        children_text(colored, devs, ws, lo, hi, depth, prefix, f1) == children_text(colored, devs, ws, lo, hi, depth, prefix, f2),
    decreases f1, 4int, hi - lo + 1,
{
    if !(lo > hi || lo > 255 || lo < 0) {
        assert(bus_ends(devs, ws, lo, depth, f1));
        lemma_bus_text_enough(colored, devs, ws, lo, depth, prefix, f1, f2);
        lemma_children_text_enough(colored, devs, ws, lo + 1, hi, depth, prefix, f1, f2);
    }
}

/// Appends the tree below a bus, when the tree below each device shown
/// there ends within as many levels as there are devices.
pub fn render_bus(output: &mut String, palette: &Palette, devices: &[PciDevice], windows: &[(PciAddress, BridgeWindow)],
    bus: u8, depth: usize, prefix: &str)
    requires
        bus_ends(devices@, windows@, bus as int, depth as int, devices@.len() as nat),
        depth + devices@.len() < usize::MAX,
    ensures
        final(output)@ == old(output)@ + bus_text(palette.enabled, devices@, windows@, bus as int, depth as int, prefix@,
            devices@.len() as nat),
{
    render_bus_within(output, palette, devices, windows, bus, depth, prefix, Ghost(devices@.len() as nat));
}

/// Appends the tree below a bus, down to `fuel` levels of bridges, when
/// the tree below each device shown there ends within them.
fn render_bus_within(output: &mut String, palette: &Palette, devices: &[PciDevice], windows: &[(PciAddress, BridgeWindow)],
    bus: u8, depth: usize, prefix: &str, Ghost(fuel): Ghost<nat>)
    requires
        bus_ends(devices@, windows@, bus as int, depth as int, fuel),
        has_shown(devices@, windows@, bus as int, depth as int) ==> depth + fuel + 1 <= usize::MAX,
    ensures
        final(output)@ == old(output)@ + bus_text(palette.enabled, devices@, windows@, bus as int, depth as int, prefix@, fuel),
    decreases (if has_shown(devices@, windows@, bus as int, depth as int) { 2 * fuel + 2 } else { 0 }),
{
    let ghost devs = devices@;
    let ghost ws = windows@;
    let mut keys: Vec<u64> = Vec::new();
    let mut selected: Vec<bool> = Vec::new();
    let mut i: usize = 0;
    while i < devices.len()
        invariant
            devs == devices@,
            ws == windows@,
            i <= devs.len(),
            keys@ == slot_keys(devs).subrange(0, i as int),
            selected@ == bus_selection(devs, ws, bus as int, depth as int).subrange(0, i as int),
        decreases devs.len() - i,
    {
        let d = &devices[i];
        keys.push(d.address.slot as u64 * 0x100 + d.address.function as u64);
        let owned = owner_bridge(windows, d).is_some();
        selected.push(d.address.bus == bus && (if owned { depth > 0 } else { depth == 0 }));
        proof {
            assert(keys@ =~= slot_keys(devs).subrange(0, i + 1));
            assert(selected@ =~= bus_selection(devs, ws, bus as int, depth as int).subrange(0, i + 1));
        }
        i = i + 1;
    }
    proof {
        assert(keys@ =~= slot_keys(devs));
        assert(selected@ =~= bus_selection(devs, ws, bus as int, depth as int));
    }
    let order = sorted_selection(&keys, &selected);
    let ghost colored = palette.enabled;
    let ghost start = output@;
    let mut k: usize = 0;
    while k < order.len()
        invariant
            devs == devices@,
            ws == windows@,
            bus_ends(devs, ws, bus as int, depth as int, fuel),
            has_shown(devs, ws, bus as int, depth as int) ==> depth + fuel + 1 <= usize::MAX,
            colored == palette.enabled,
            order@ == bus_order(devs, ws, bus as int, depth as int),
            crate::order::is_key_order(slot_keys(devs), bus_selection(devs, ws, bus as int, depth as int), order@),
            k <= order@.len(),
            output@ + rows_text(colored, devs, ws, bus as int, depth as int, prefix@, order@, k as int, fuel)
                == start + rows_text(colored, devs, ws, bus as int, depth as int, prefix@, order@, 0, fuel),
        decreases order@.len() - k,
    {
        let ghost before = output@;
        let ghost idx = order@[k as int] as int;
        proof {
            assert(bus_selection(devs, ws, bus as int, depth as int)[idx]);
            assert(has_shown(devs, ws, bus as int, depth as int));
        }
        render_row(output, palette, devices, windows, bus, depth, prefix, &devices[order[k]], Ghost(idx), Ghost(fuel));
        proof {
            assert(output@ + rows_text(colored, devs, ws, bus as int, depth as int, prefix@, order@, k + 1, fuel)
                =~= before + rows_text(colored, devs, ws, bus as int, depth as int, prefix@, order@, k as int, fuel));
        }
        k = k + 1;
    }
    proof {
        assert(output@ =~= output@ + Seq::<char>::empty());
    }
}

/// Appends what comes before a device's name on its line.
fn push_row_head(output: &mut String, palette: &Palette, d: &PciDevice, depth: usize, prefix: &str)
    ensures
        final(output)@ == old(output)@ + connector_text(d.address, depth as int, prefix@)
            + paint_text(palette.enabled, "1;36"@, short_address_text(d.address)) + " "@,
{
    if depth == 0 {
        output.append("-[");
        push_hex(output, d.address.domain as u64, 4);
        output.append(":");
        push_hex(output, d.address.bus as u64, 2);
        output.append("]-+- ");
    } else {
        output.append(prefix);
        output.append("+- ");
    }
    let mut address_text = String::new();
    push_hex(&mut address_text, d.address.bus as u64, 2);
    address_text.append(":");
    push_hex(&mut address_text, d.address.slot as u64, 2);
    address_text.append(".");
    push_dec(&mut address_text, d.address.function as u64);
    let painted = palette.address(address_text.as_str());
    output.append(painted.as_str());
    output.append(" ");
    proof {
        assert(address_text@ =~= short_address_text(d.address));
        assert(output@ =~= old(output)@ + connector_text(d.address, depth as int, prefix@)
            + paint_text(palette.enabled, "1;36"@, short_address_text(d.address)) + " "@);
    }
}

/// Appends the line of a device on a bus, and the tree below it when it is a bridge.
#[verifier::rlimit(40)]
fn render_row(output: &mut String, palette: &Palette, devices: &[PciDevice], windows: &[(PciAddress, BridgeWindow)],
    bus: u8, depth: usize, prefix: &str, d: &PciDevice, Ghost(idx): Ghost<int>, Ghost(fuel): Ghost<nat>)
    requires
        0 <= idx < devices@.len(),
        devices@[idx] == *d,
        bus_selection(devices@, windows@, bus as int, depth as int)[idx],
        tree_ends_within(devices@, windows@, idx, fuel),
        depth + fuel + 1 <= usize::MAX,
    ensures
        final(output)@ == old(output)@ + row_text(palette.enabled, devices@, windows@, bus as int, depth as int, prefix@, *d, fuel),
    decreases 2 * fuel + 1,
{
    let ghost devs = devices@;
    let ghost ws = windows@;
    let ghost colored = palette.enabled;
    push_row_head(output, palette, d, depth, prefix);
    let ghost head = output@;
    match window_of(windows, d.address) {
        Some(window) => {
            let mut label = String::from_str("-[");
            push_hex(&mut label, window.secondary as u64, 2);
            label.append("-");
            push_hex(&mut label, window.subordinate as u64, 2);
            label.append("]");
            let dimmed = palette.dim(label.as_str());
            output.append(dimmed.as_str());
            output.append(" ");
            output.append(d.device_name.as_str());
            output.append("\n");
            proof {
                assert(label@ =~= window_label(window));
            }
            let ghost line_end = output@;
            let ghost below = (fuel - 1) as nat;
            let mut child_prefix = String::from_str(prefix);
            child_prefix.append("|  ");
            let mut child: u16 = window.secondary as u16;
            while child <= window.subordinate as u16
                invariant
                    devs == devices@,
                    ws == windows@,
                    0 <= idx < devs.len(),
                    devs[idx] == *d,
                    window_from(ws, d.address, 0) == Some(window),
                    tree_ends_within(devs, ws, idx, fuel),
                    depth + fuel + 1 <= usize::MAX,
                    below == (fuel - 1) as nat,
                    colored == palette.enabled,
                    window.secondary <= child <= 256,
                    child_prefix@ == prefix@ + "|  "@,
                    output@ + children_text(colored, devs, ws, child as int, window.subordinate as int, depth + 1, child_prefix@, below)
                        == line_end + children_text(colored, devs, ws, window.secondary as int, window.subordinate as int,
                            depth + 1, child_prefix@, below),
                decreases window.subordinate as u16 + 1 - child,
            {
                proof {
                    assert forall|j: int| 0 <= j < devs.len() && #[trigger] bus_selection(devs, ws, child as int, depth + 1)[j]
                        implies tree_ends_within(devs, ws, j, below) by {
                        assert(tree_child(devs, ws, idx, j));
                    }
                    if has_shown(devs, ws, child as int, depth + 1) {
                        let j = choose|j: int| 0 <= j < devs.len() && #[trigger] bus_selection(devs, ws, child as int, depth + 1)[j];
                        assert(tree_child(devs, ws, idx, j));
                        assert(fuel > 0);
                    }
                }
                render_bus_within(output, palette, devices, windows, child as u8, depth + 1, child_prefix.as_str(), Ghost(below));
                child = child + 1;
            }
            proof {
                assert(output@ =~= output@ + Seq::<char>::empty());
                if fuel == 0 {
                    assert forall|b: int| window.secondary <= b <= window.subordinate implies
                        !#[trigger] has_shown(devs, ws, b, depth + 1) by {
                        if has_shown(devs, ws, b, depth + 1) {
                            let j = choose|j: int| 0 <= j < devs.len() && #[trigger] bus_selection(devs, ws, b, depth + 1)[j];
                            assert(tree_child(devs, ws, idx, j));
                        }
                    }
                    lemma_children_empty(colored, devs, ws, window.secondary as int, window.subordinate as int, depth + 1,
                        prefix@ + "|  "@, below);
                }
                assert(output@ =~= head + paint_text(colored, "2"@, window_label(window)) + " "@ + d.device_name@ + "\n"@
                    + if fuel > 0 {
                        children_text(colored, devs, ws, window.secondary as int, window.subordinate as int, depth + 1,
                            prefix@ + "|  "@, below)
                    } else {
                        Seq::<char>::empty()
                    });
            }
        },
        None => {
            output.append(d.device_name.as_str());
            output.append("\n");
        },
    }
    proof {
        assert(output@ =~= old(output)@ + row_text(colored, devs, ws, bus as int, depth as int, prefix@, *d, fuel));
    }
}

/// Whether some window holds a bus.
pub open spec fn bus_covered(ws: Seq<(PciAddress, BridgeWindow)>, bus: int) -> bool {
    exists|i: int| 0 <= i < ws.len() && ws[i].1.secondary <= bus <= #[trigger] ws[i].1.subordinate
}

/// Whether some device stands on a bus.
pub open spec fn bus_present(devs: Seq<PciDevice>, bus: int) -> bool {
    exists|i: int| 0 <= i < devs.len() && #[trigger] devs[i].address.bus == bus
}

/// The trees of the top-level buses from `bus` on: the buses that hold a
/// device and that no window holds, in increasing order, each drawn down to
/// as many levels as there are devices.
pub open spec fn top_buses_text(colored: bool, devs: Seq<PciDevice>, ws: Seq<(PciAddress, BridgeWindow)>, bus: int) -> Seq<char>
    decreases 256 - bus,
{
    if bus < 0 || bus > 255 {
        Seq::empty()
    } else if bus_present(devs, bus) && !bus_covered(ws, bus) {
        bus_text(colored, devs, ws, bus, 0, Seq::empty(), devs.len() as nat) + top_buses_text(colored, devs, ws, bus + 1)
    } else {
        top_buses_text(colored, devs, ws, bus + 1)
    }
}

/// The bus tree as text: the tree of each top-level bus.
pub fn render_tree_text(devices: &[PciDevice], windows: &[(PciAddress, BridgeWindow)], palette: &Palette) -> (r: String)
    requires
        tree_ends(devices@, windows@),
        devices@.len() < usize::MAX,
    ensures
        r@ == top_buses_text(palette.enabled, devices@, windows@, 0),
{
    let mut output = String::new();
    let mut bus: u16 = 0;
    while bus < 256
        invariant
            tree_ends(devices@, windows@),
            devices@.len() < usize::MAX,
            bus <= 256,
            output@ + top_buses_text(palette.enabled, devices@, windows@, bus as int)
                == top_buses_text(palette.enabled, devices@, windows@, 0),
        decreases 256 - bus,
    {
        let mut present = false;
        let mut i: usize = 0;
        while i < devices.len()
            invariant
                i <= devices@.len(),
                present == exists|j: int| 0 <= j < i && #[trigger] devices@[j].address.bus == bus,
            decreases devices@.len() - i,
        {
            if devices[i].address.bus as u16 == bus {
                present = true;
                proof {
                    assert(devices@[i as int].address.bus == bus);
                }
            }
            i = i + 1;
        }
        let mut covered = false;
        let mut j: usize = 0;
        while j < windows.len()
            invariant
                j <= windows@.len(),
                covered == exists|q: int| 0 <= q < j && windows@[q].1.secondary <= bus <= #[trigger] windows@[q].1.subordinate,
            decreases windows@.len() - j,
        {
            let w = windows[j].1;
            if w.secondary as u16 <= bus && bus <= w.subordinate as u16 {
                covered = true;
                proof {
                    assert(windows@[j as int].1.secondary <= bus <= windows@[j as int].1.subordinate);
                }
            }
            j = j + 1;
        }
        if present && !covered {
            proof {
                assert forall|q: int| 0 <= q < devices@.len() && #[trigger] bus_selection(devices@, windows@, bus as int, 0)[q]
                    implies tree_ends_within(devices@, windows@, q, devices@.len() as nat) by {
                    assert(!bus_covered(windows@, bus as int));
                }
            }
            render_bus(&mut output, palette, devices, windows, bus as u8, 0, "");
            proof {
                assert(""@ =~= Seq::<char>::empty()) by { reveal_strlit(""); }
            }
        }
        bus = bus + 1;
    }
    proof {
        assert(output@ =~= output@ + Seq::<char>::empty());
    }
    output
}

} // verus!
