//! Plain-text output of device lists and inspections.
use vstd::prelude::*;
use vstd::string::StringExecFns;
use crate::config::{ConfigReadFailure, ConfigSegment, ConfigSpaceSnapshot, segments_fit};
use crate::details::{PciInspection, PciResource};
use crate::device::{PciAddress, PciDevice, PciSnapshot, address_text};
use crate::field::{PciCapability, PciCapabilityChainStatus, PciCapabilityReport, PciField, PciFieldUnavailableReason};
use crate::labels::{
    chain_status_text, kind_str, kind_text, next_text, push_chain_status, push_next, push_state,
    reason_str, reason_text, state_text,
};
use crate::order::{address_order, is_address_order};
use crate::text::{dec_min, hex_min, hex_padded, push_dec, push_hex};

verus! {

/// The line of a device in a device list.
pub open spec fn device_line(d: PciDevice) -> Seq<char> {
    address_text(d.address) + " vendor=0x"@ + hex_padded(d.vendor_id as nat, 4) + " device=0x"@
        + hex_padded(d.device_id as nat, 4) + " class=0x"@ + hex_padded(d.class_id as nat, 4) + " "@
        + d.vendor_name@ + " / "@ + d.device_name@ + " / "@ + d.class_name@ + "\n"@
}

/// The lines of the devices, in the given order.
pub open spec fn devices_text(devs: Seq<PciDevice>, order: Seq<usize>) -> Seq<char>
    decreases order.len(),
{
    if order.len() == 0 {
        Seq::empty()
    } else {
        devices_text(devs, order.drop_last()) + device_line(devs[order.last() as int])
    }
}

/// Appends the line of a device.
fn push_device_line(out: &mut String, d: &PciDevice)
    ensures
        final(out)@ == old(out)@ + device_line(*d),
{
    d.address.push_to(out);
    out.append(" vendor=0x");
    push_hex(out, d.vendor_id as u64, 4);
    out.append(" device=0x");
    push_hex(out, d.device_id as u64, 4);
    out.append(" class=0x");
    push_hex(out, d.class_id as u64, 4);
    out.append(" ");
    out.append(d.vendor_name.as_str());
    out.append(" / ");
    out.append(d.device_name.as_str());
    out.append(" / ");
    out.append(d.class_name.as_str());
    out.append("\n");
    proof {
        assert(out@ =~= old(out)@ + device_line(*d));
    }
}

/// The device list as text: one line per device, in address order.
pub fn render_text(snapshot: &PciSnapshot) -> (r: String)
    ensures
        exists|order: Seq<usize>| is_address_order(snapshot.spec_devices(), order)
            && r@ == devices_text(snapshot.spec_devices(), order),
{
    let devices = snapshot.devices();
    let order = address_order(devices);
    let mut output = String::new();
    let mut i: usize = 0;
    while i < order.len()
        invariant
            devices@ == snapshot.spec_devices(),
            is_address_order(devices@, order@),
            i <= order@.len(),
            output@ == devices_text(devices@, order@.subrange(0, i as int)),
        decreases order@.len() - i,
    {
        let ghost before = output@;
        push_device_line(&mut output, &devices[order[i]]);
        proof {
            let prefix = order@.subrange(0, i + 1);
            assert(prefix.drop_last() =~= order@.subrange(0, i as int));
        }
        i = i + 1;
    }
    proof {
        assert(order@.subrange(0, order@.len() as int) =~= order@);
    }
    output
}

/// A value that may be missing, as text: `show` of the value, or why it is missing.
pub open spec fn field_text<T>(f: PciField<T>, show: spec_fn(T) -> Seq<char>) -> Seq<char> {
    match f {
        PciField::Available(v) => show(v),
        PciField::Unavailable { reason } => "<unavailable: "@ + reason_text(reason) + ">"@,
        PciField::NotApplicable => "<not_available>"@,
    }
}

/// A value that may be missing, as `0x` and hexadecimal digits, or why it is missing.
pub open spec fn hex_field_text(f: PciField<u16>) -> Seq<char> {
    match f {
        PciField::Available(v) => "0x"@ + hex_min(v as nat),
        PciField::Unavailable { reason } => "<unavailable: "@ + reason_text(reason) + ">"@,
        PciField::NotApplicable => "<not-applicable>"@,
    }
}

pub open spec fn show_u8(v: u8) -> Seq<char> {
    dec_min(v as nat)
}

pub open spec fn show_u32(v: u32) -> Seq<char> {
    dec_min(v as nat)
}

pub open spec fn show_address(a: PciAddress) -> Seq<char> {
    address_text(a)
}

pub open spec fn show_string(s: String) -> Seq<char> {
    s@
}

/// Appends why a value is missing, in the form `<unavailable: reason>`.
fn push_unavailable(out: &mut String, reason: PciFieldUnavailableReason)
    ensures
        final(out)@ == old(out)@ + "<unavailable: "@ + reason_text(reason) + ">"@,
{
    out.append("<unavailable: ");
    out.append(reason_str(reason));
    out.append(">");
}

/// Appends a decimal value that may be missing.
fn push_dec_field(out: &mut String, f: &PciField<u32>)
    ensures
        final(out)@ == old(out)@ + field_text(*f, |v: u32| show_u32(v)),
{
    match f {
        PciField::Available(v) => push_dec(out, *v as u64),
        PciField::Unavailable { reason } => {
            push_unavailable(out, *reason);
            proof { assert(out@ =~= old(out)@ + field_text(*f, |v: u32| show_u32(v))); }
        },
        PciField::NotApplicable => out.append("<not_available>"),
    }
}

/// Appends a byte value that may be missing, in decimal.
fn push_u8_field(out: &mut String, f: &PciField<u8>)
    ensures
        final(out)@ == old(out)@ + field_text(*f, |v: u8| show_u8(v)),
{
    match f {
        PciField::Available(v) => push_dec(out, *v as u64),
        PciField::Unavailable { reason } => {
            push_unavailable(out, *reason);
            proof { assert(out@ =~= old(out)@ + field_text(*f, |v: u8| show_u8(v))); }
        },
        PciField::NotApplicable => out.append("<not_available>"),
    }
}

/// Appends an address that may be missing.
fn push_address_field(out: &mut String, f: &PciField<PciAddress>)
    ensures
        final(out)@ == old(out)@ + field_text(*f, |a: PciAddress| show_address(a)),
{
    match f {
        PciField::Available(a) => a.push_to(out),
        PciField::Unavailable { reason } => {
            push_unavailable(out, *reason);
            proof { assert(out@ =~= old(out)@ + field_text(*f, |a: PciAddress| show_address(a))); }
        },
        PciField::NotApplicable => out.append("<not_available>"),
    }
}

/// Appends a text that may be missing.
fn push_string_field(out: &mut String, f: &PciField<String>)
    ensures
        final(out)@ == old(out)@ + field_text(*f, |s: String| show_string(s)),
{
    match f {
        PciField::Available(s) => out.append(s.as_str()),
        PciField::Unavailable { reason } => {
            push_unavailable(out, *reason);
            proof { assert(out@ =~= old(out)@ + field_text(*f, |s: String| show_string(s))); }
        },
        PciField::NotApplicable => out.append("<not_available>"),
    }
}

/// Appends a hexadecimal value that may be missing.
fn push_hex_field(out: &mut String, f: &PciField<u16>)
    ensures
        final(out)@ == old(out)@ + hex_field_text(*f),
{
    match f {
        PciField::Available(v) => {
            out.append("0x");
            push_hex(out, *v as u64, 0);
            proof {
                assert(hex_padded(*v as nat, 0) == hex_min(*v as nat));
                assert(out@ =~= old(out)@ + hex_field_text(*f));
            }
        },
        PciField::Unavailable { reason } => {
            push_unavailable(out, *reason);
            proof { assert(out@ =~= old(out)@ + hex_field_text(*f)); }
        },
        PciField::NotApplicable => out.append("<not-applicable>"),
    }
}

/// The line of a region.
pub open spec fn resource_line(r: PciResource) -> Seq<char> {
    "    BAR"@ + dec_min(r.index as nat) + " start=0x"@ + hex_min(r.start as nat) + " size=0x"@
        + hex_min(r.size as nat) + " flags=0x"@ + hex_min(r.flags as nat) + "\n"@
}

/// The lines of regions.
pub open spec fn resource_lines(rs: Seq<PciResource>) -> Seq<char>
    decreases rs.len(),
{
    if rs.len() == 0 {
        Seq::empty()
    } else {
        resource_lines(rs.drop_last()) + resource_line(rs.last())
    }
}

/// The regions of a device as text.
pub open spec fn resources_text(f: PciField<Vec<PciResource>>) -> Seq<char> {
    match f {
        PciField::Available(rs) => "  resources:\n"@ + resource_lines(rs@),
        PciField::Unavailable { reason } => "  resources: <unavailable: "@ + reason_text(reason) + ">\n"@,
        PciField::NotApplicable => "  resources: <not-applicable>\n"@,
    }
}

fn push_resources(out: &mut String, f: &PciField<Vec<PciResource>>)
    ensures
        final(out)@ == old(out)@ + resources_text(*f),
{
    match f {
        PciField::Available(resources) => {
            out.append("  resources:\n");
            let mut i: usize = 0;
            while i < resources.len()
                invariant
                    i <= resources@.len(),
                    out@ == old(out)@ + "  resources:\n"@ + resource_lines(resources@.subrange(0, i as int)),
                decreases resources@.len() - i,
            {
                let r = &resources[i];
                let ghost before = out@;
                out.append("    BAR");
                push_dec(out, r.index as u64);
                out.append(" start=0x");
                push_hex(out, r.start, 0);
                out.append(" size=0x");
                push_hex(out, r.size, 0);
                out.append(" flags=0x");
                push_hex(out, r.flags, 0);
                out.append("\n");
                proof {
                    assert(hex_padded(r.start as nat, 0) == hex_min(r.start as nat));
                    assert(hex_padded(r.size as nat, 0) == hex_min(r.size as nat));
                    assert(hex_padded(r.flags as nat, 0) == hex_min(r.flags as nat));
                    assert(out@ =~= before + resource_line(*r));
                    assert(resources@.subrange(0, i + 1).drop_last() =~= resources@.subrange(0, i as int));
                }
                i = i + 1;
            }
            proof {
                assert(resources@.subrange(0, resources@.len() as int) =~= resources@);
            }
        },
        PciField::Unavailable { reason } => {
            out.append("  resources: <unavailable: ");
            out.append(reason_str(*reason));
            out.append(">\n");
            proof { assert(out@ =~= old(out)@ + resources_text(*f)); }
        },
        PciField::NotApplicable => out.append("  resources: <not-applicable>\n"),
    }
}

/// The line of a capability.
pub open spec fn capability_line(c: PciCapability) -> Seq<char> {
    "      "@ + kind_text(c.kind) + " id=0x"@ + hex_padded(c.id as nat, 4) + " offset=0x"@
        + hex_padded(c.offset as nat, 3) + " next="@ + next_text(c.next) + " state="@ + state_text(c.state) + "\n"@
}

/// The lines of capabilities.
pub open spec fn capability_lines(cs: Seq<PciCapability>) -> Seq<char>
    decreases cs.len(),
{
    if cs.len() == 0 {
        Seq::empty()
    } else {
        capability_lines(cs.drop_last()) + capability_line(cs.last())
    }
}

/// One capability list as text: its status, then its capabilities.
pub open spec fn capability_group_text(label: Seq<char>, cs: Seq<PciCapability>, status: PciCapabilityChainStatus) -> Seq<char> {
    "    "@ + label + ": chain="@ + chain_status_text(status, "not-present"@) + "\n"@ + capability_lines(cs)
}

/// Appends one capability list.
pub fn render_capability_group_text(output: &mut String, label: &str, capabilities: &[PciCapability], status: &PciCapabilityChainStatus)
    ensures
        final(output)@ == old(output)@ + capability_group_text(label@, capabilities@, *status),
{
    output.append("    ");
    output.append(label);
    output.append(": chain=");
    push_chain_status(output, *status, "not-present");
    output.append("\n");
    let ghost head = output@;
    let mut i: usize = 0;
    while i < capabilities.len()
        invariant
            i <= capabilities@.len(),
            output@ == head + capability_lines(capabilities@.subrange(0, i as int)),
        decreases capabilities@.len() - i,
    {
        let c = &capabilities[i];
        let ghost before = output@;
        output.append("      ");
        output.append(kind_str(c.kind));
        output.append(" id=0x");
        push_hex(output, c.id as u64, 4);
        output.append(" offset=0x");
        push_hex(output, c.offset as u64, 3);
        output.append(" next=");
        push_next(output, c.next);
        output.append(" state=");
        push_state(output, c.state);
        output.append("\n");
        proof {
            assert(output@ =~= before + capability_line(*c));
            assert(capabilities@.subrange(0, i + 1).drop_last() =~= capabilities@.subrange(0, i as int));
        }
        i = i + 1;
    }
    proof {
        assert(capabilities@.subrange(0, capabilities@.len() as int) =~= capabilities@);
        assert(output@ =~= old(output)@ + capability_group_text(label@, capabilities@, *status));
    }
}

/// The capabilities of a device as text.
pub open spec fn capabilities_text(f: PciField<PciCapabilityReport>) -> Seq<char> {
    match f {
        PciField::Available(report) => "  capabilities:\n"@
            + capability_group_text("standard"@, report.standard@, report.standard_status)
            + capability_group_text("extended"@, report.extended@, report.extended_status),
        PciField::Unavailable { reason } => "  capabilities: <unavailable: "@ + reason_text(reason) + ">\n"@,
        PciField::NotApplicable => "  capabilities: <not-applicable>\n"@,
    }
}

fn push_capabilities(out: &mut String, f: &PciField<PciCapabilityReport>)
    ensures
        final(out)@ == old(out)@ + capabilities_text(*f),
{
    match f {
        PciField::Available(report) => {
            out.append("  capabilities:\n");
            render_capability_group_text(out, "standard", report.standard.as_slice(), &report.standard_status);
            render_capability_group_text(out, "extended", report.extended.as_slice(), &report.extended_status);
            proof { assert(out@ =~= old(out)@ + capabilities_text(*f)); }
        },
        PciField::Unavailable { reason } => {
            out.append("  capabilities: <unavailable: ");
            out.append(reason_str(*reason));
            out.append(">\n");
            proof { assert(out@ =~= old(out)@ + capabilities_text(*f)); }
        },
        PciField::NotApplicable => out.append("  capabilities: <not-applicable>\n"),
    }
}

/// The bytes of a row of a dump, each as two hexadecimal digits, separated by spaces.
pub open spec fn row_bytes_text(bytes: Seq<u8>) -> Seq<char>
    decreases bytes.len(),
{
    if bytes.len() == 0 {
        Seq::empty()
    } else if bytes.len() == 1 {
        hex_padded(bytes[0] as nat, 2)
    } else {
        row_bytes_text(bytes.drop_last()) + " "@ + hex_padded(bytes.last() as nat, 2)
    }
}

/// The rows of a segment, from its `k`-th row on.
pub open spec fn segment_rows_from(offset: int, bytes: Seq<u8>, k: nat) -> Seq<char>
    decreases bytes.len() + 16 - k * 16,
{
    if k * 16 >= bytes.len() {
        Seq::empty()
    } else {
        let end: int = if (k + 1) * 16 <= bytes.len() { ((k + 1) * 16) as int } else { bytes.len() as int };
        "  "@ + hex_padded((offset + k * 16) as nat, 4) + ": "@ + row_bytes_text(bytes.subrange(k * 16 as int, end)) + "\n"@
            + segment_rows_from(offset, bytes, k + 1)
    }
}

/// The rows of all segments.
pub open spec fn segments_text(segs: Seq<ConfigSegment>) -> Seq<char>
    decreases segs.len(),
{
    if segs.len() == 0 {
        Seq::empty()
    } else {
        segments_text(segs.drop_last()) + segment_rows_from(segs.last().offset as int, segs.last().bytes@, 0)
    }
}

/// The line of a range that could not be read.
pub open spec fn failure_line(f: ConfigReadFailure) -> Seq<char> {
    "  unavailable: 0x"@ + hex_padded(f.offset as nat, 3) + "..0x"@ + hex_padded((f.offset + f.length) as nat, 3)
        + " <"@ + reason_text(f.reason) + ">\n"@
}

/// The lines of the ranges that could not be read.
pub open spec fn failures_text(fs: Seq<ConfigReadFailure>) -> Seq<char>
    decreases fs.len(),
{
    if fs.len() == 0 {
        Seq::empty()
    } else {
        failures_text(fs.drop_last()) + failure_line(fs.last())
    }
}

/// A snapshot of configuration space as text: the requested range, a
/// dump of each segment in rows of sixteen bytes, and the ranges that
/// could not be read.
pub open spec fn config_space_text(s: ConfigSpaceSnapshot) -> Seq<char> {
    "config-space:\n"@ + "  requested: 0x"@ + hex_padded(s.requested.start as nat, 3) + "..0x"@
        + hex_padded(s.requested.end as nat, 3) + "\n"@ + segments_text(s.segments@) + failures_text(s.failures@)
}

/// Appends the rows of bytes `[start, end)` of a row.
fn push_row_bytes(out: &mut String, bytes: &Vec<u8>, start: usize, end: usize)
    requires
        start < end <= bytes@.len(),
    ensures
        final(out)@ == old(out)@ + row_bytes_text(bytes@.subrange(start as int, end as int)),
{
    push_hex(out, bytes[start] as u64, 2);
    let mut j = start + 1;
    proof {
        assert(bytes@.subrange(start as int, j as int) =~= seq![bytes@[start as int]]);
    }
    while j < end
        invariant
            start < j <= end <= bytes@.len(),
            out@ == old(out)@ + row_bytes_text(bytes@.subrange(start as int, j as int)),
        decreases end - j,
    {
        out.append(" ");
        push_hex(out, bytes[j] as u64, 2);
        proof {
            let next = bytes@.subrange(start as int, j + 1);
            assert(next.drop_last() =~= bytes@.subrange(start as int, j as int));
            assert(out@ =~= old(out)@ + row_bytes_text(next));
        }
        j = j + 1;
    }
}

/// Appends the rows of a segment.
fn push_segment_rows(out: &mut String, segment: &ConfigSegment)
    requires
        segment.offset + segment.bytes@.len() <= u32::MAX,
    ensures
        final(out)@ == old(out)@ + segment_rows_from(segment.offset as int, segment.bytes@, 0),
{
    let bytes = &segment.bytes;
    let mut start: usize = 0;
    let ghost mut k: nat = 0;
    while start < bytes.len()
        invariant
            start == if k * 16 <= bytes@.len() { (k * 16) as int } else { bytes@.len() as int },
            segment.offset + bytes@.len() <= u32::MAX,
            out@ + segment_rows_from(segment.offset as int, bytes@, k)
                == old(out)@ + segment_rows_from(segment.offset as int, bytes@, 0),
        decreases bytes@.len() - start,
    {
        let end = if bytes.len() - start >= 16 { start + 16 } else { bytes.len() };
        let ghost before = out@;
        out.append("  ");
        push_hex(out, (segment.offset + start as u32) as u64, 4);
        out.append(": ");
        push_row_bytes(out, bytes, start, end);
        out.append("\n");
        proof {
            assert(k * 16 < bytes@.len());
            assert(out@ =~= before + "  "@ + hex_padded((segment.offset + k * 16) as nat, 4) + ": "@
                + row_bytes_text(bytes@.subrange((k * 16) as int, end as int)) + "\n"@);
            assert(out@ + segment_rows_from(segment.offset as int, bytes@, k + 1)
                =~= before + segment_rows_from(segment.offset as int, bytes@, k));
            k = k + 1;
        }
        start = end;
    }
    proof {
        assert(segment_rows_from(segment.offset as int, bytes@, k) == Seq::<char>::empty());
        assert(out@ =~= out@ + Seq::<char>::empty());
    }
}

/// Appends a snapshot of configuration space.
pub fn render_config_space_text(output: &mut String, snapshot: &ConfigSpaceSnapshot)
    requires
        segments_fit(snapshot.segments@),
    ensures
        final(output)@ == old(output)@ + config_space_text(*snapshot),
{
    output.append("config-space:\n");
    output.append("  requested: 0x");
    push_hex(output, snapshot.requested.start as u64, 3);
    output.append("..0x");
    push_hex(output, snapshot.requested.end as u64, 3);
    output.append("\n");
    let ghost head = output@;
    let mut i: usize = 0;
    while i < snapshot.segments.len()
        invariant
            segments_fit(snapshot.segments@),
            i <= snapshot.segments@.len(),
            output@ == head + segments_text(snapshot.segments@.subrange(0, i as int)),
        decreases snapshot.segments@.len() - i,
    {
        proof {
            assert(snapshot.segments@[i as int].end_spec() <= u32::MAX);
        }
        push_segment_rows(output, &snapshot.segments[i]);
        proof {
            assert(snapshot.segments@.subrange(0, i + 1).drop_last() =~= snapshot.segments@.subrange(0, i as int));
        }
        i = i + 1;
    }
    let ghost middle = output@;
    let mut j: usize = 0;
    while j < snapshot.failures.len()
        invariant
            j <= snapshot.failures@.len(),
            output@ == middle + failures_text(snapshot.failures@.subrange(0, j as int)),
        decreases snapshot.failures@.len() - j,
    {
        let f = snapshot.failures[j];
        let ghost before = output@;
        output.append("  unavailable: 0x");
        push_hex(output, f.offset as u64, 3);
        output.append("..0x");
        push_hex(output, f.offset as u64 + f.length as u64, 3);
        output.append(" <");
        output.append(reason_str(f.reason));
        output.append(">\n");
        proof {
            assert(output@ =~= before + failure_line(f));
            assert(snapshot.failures@.subrange(0, j + 1).drop_last() =~= snapshot.failures@.subrange(0, j as int));
        }
        j = j + 1;
    }
    proof {
        assert(snapshot.segments@.subrange(0, snapshot.segments@.len() as int) =~= snapshot.segments@);
        assert(snapshot.failures@.subrange(0, snapshot.failures@.len() as int) =~= snapshot.failures@);
        assert(output@ =~= old(output)@ + config_space_text(*snapshot));
    }
}

/// An inspection as text: the device's identity, its details, its
/// capabilities and, when given, a snapshot of its configuration space.
pub open spec fn inspection_text(inspection: PciInspection, config: Option<ConfigSpaceSnapshot>) -> Seq<char> {
    let device = inspection.device;
    let details = inspection.details;
    "PCI device "@ + address_text(device.address) + "\n"@
        + "  vendor: 0x"@ + hex_padded(device.vendor_id as nat, 4) + " "@ + device.vendor_name@ + "\n"@
        + "  device: 0x"@ + hex_padded(device.device_id as nat, 4) + " "@ + device.device_name@ + "\n"@
        + "  class: 0x"@ + hex_padded(device.class_id as nat, 4) + " "@ + device.class_name@ + "\n"@
        + "  revision: "@ + field_text(details.revision, |v: u8| show_u8(v)) + "\n"@
        + "  programming interface: "@ + field_text(details.programming_interface, |v: u8| show_u8(v)) + "\n"@
        + "  subsystem vendor: "@ + hex_field_text(details.subsystem_vendor_id) + "\n"@
        + "  subsystem device: "@ + hex_field_text(details.subsystem_device_id) + "\n"@
        + "  parent: "@ + field_text(details.parent, |a: PciAddress| show_address(a)) + "\n"@
        + "  irq: "@ + field_text(details.irq, |v: u32| show_u32(v)) + "\n"@
        + "  driver: "@ + field_text(details.driver, |s: String| show_string(s)) + "\n"@
        + resources_text(details.resources)
        + capabilities_text(details.capabilities)
        + match config {
            Some(s) => config_space_text(s),
            None => Seq::empty(),
        }
}

/// Appends the identity lines of a device.
fn push_identity(out: &mut String, device: &PciDevice)
    ensures
        final(out)@ == old(out)@ + "PCI device "@ + address_text(device.address) + "\n"@
            + "  vendor: 0x"@ + hex_padded(device.vendor_id as nat, 4) + " "@ + device.vendor_name@ + "\n"@
            + "  device: 0x"@ + hex_padded(device.device_id as nat, 4) + " "@ + device.device_name@ + "\n"@
            + "  class: 0x"@ + hex_padded(device.class_id as nat, 4) + " "@ + device.class_name@ + "\n"@,
{
    out.append("PCI device ");
    device.address.push_to(out);
    out.append("\n");
    out.append("  vendor: 0x");
    push_hex(out, device.vendor_id as u64, 4);
    out.append(" ");
    out.append(device.vendor_name.as_str());
    out.append("\n");
    out.append("  device: 0x");
    push_hex(out, device.device_id as u64, 4);
    out.append(" ");
    out.append(device.device_name.as_str());
    out.append("\n");
    out.append("  class: 0x");
    push_hex(out, device.class_id as u64, 4);
    out.append(" ");
    out.append(device.class_name.as_str());
    out.append("\n");
    proof {
        assert(out@ =~= old(out)@ + "PCI device "@ + address_text(device.address) + "\n"@
            + "  vendor: 0x"@ + hex_padded(device.vendor_id as nat, 4) + " "@ + device.vendor_name@ + "\n"@
            + "  device: 0x"@ + hex_padded(device.device_id as nat, 4) + " "@ + device.device_name@ + "\n"@
            + "  class: 0x"@ + hex_padded(device.class_id as nat, 4) + " "@ + device.class_name@ + "\n"@);
    }
}

/// An inspection as text, followed by the configuration space snapshot when one is given.
pub fn render_inspection_text(inspection: &PciInspection, config: Option<&ConfigSpaceSnapshot>) -> (r: String)
    requires
        config matches Some(s) ==> segments_fit(s.segments@),
    ensures
        r@ == inspection_text(*inspection, match config { Some(s) => Some(*s), None => None }),
{
    let device = &inspection.device;
    let details = &inspection.details;
    let mut output = String::new();
    push_identity(&mut output, device);
    let ghost a = output@;
    output.append("  revision: ");
    push_u8_field(&mut output, &details.revision);
    output.append("\n");
    output.append("  programming interface: ");
    push_u8_field(&mut output, &details.programming_interface);
    output.append("\n");
    output.append("  subsystem vendor: ");
    push_hex_field(&mut output, &details.subsystem_vendor_id);
    output.append("\n");
    output.append("  subsystem device: ");
    push_hex_field(&mut output, &details.subsystem_device_id);
    output.append("\n");
    let ghost b = output@;
    output.append("  parent: ");
    push_address_field(&mut output, &details.parent);
    output.append("\n");
    output.append("  irq: ");
    push_dec_field(&mut output, &details.irq);
    output.append("\n");
    output.append("  driver: ");
    push_string_field(&mut output, &details.driver);
    output.append("\n");
    let ghost c = output@;
    push_resources(&mut output, &details.resources);
    push_capabilities(&mut output, &details.capabilities);
    let ghost d = output@;
    match config {
        Some(snapshot) => render_config_space_text(&mut output, snapshot),
        None => {},
    }
    proof {
        let spec_config = match config { Some(s) => Some(*s), None => None };
        assert(b =~= a + "  revision: "@ + field_text(details.revision, |v: u8| show_u8(v)) + "\n"@
            + "  programming interface: "@ + field_text(details.programming_interface, |v: u8| show_u8(v)) + "\n"@
            + "  subsystem vendor: "@ + hex_field_text(details.subsystem_vendor_id) + "\n"@
            + "  subsystem device: "@ + hex_field_text(details.subsystem_device_id) + "\n"@);
        assert(c =~= b + "  parent: "@ + field_text(details.parent, |a: PciAddress| show_address(a)) + "\n"@
            + "  irq: "@ + field_text(details.irq, |v: u32| show_u32(v)) + "\n"@
            + "  driver: "@ + field_text(details.driver, |s: String| show_string(s)) + "\n"@);
        assert(d =~= c + resources_text(details.resources) + capabilities_text(details.capabilities));
        assert(output@ =~= inspection_text(*inspection, spec_config));
    }
    output
}

} // verus!
