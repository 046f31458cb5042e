//! The JSON document model of device lists and inspections: every value
//! as the text the document shows.
use vstd::prelude::*;
use vstd::string::StringExecFns;
use crate::config::ConfigSpaceSnapshot;
use crate::details::{PciInspection, PciResource};
use crate::device::{PciAddress, PciDevice, PciSnapshot, address_text};
use crate::field::{PciCapability, PciCapabilityChainStatus, PciCapabilityReport, PciField};
use crate::labels::{chain_status_text, kind_str, kind_text, push_chain_status, push_state, reason_str, reason_text, state_text};
use crate::order::{address_order, is_address_order};
use crate::text::{dec_min, hex_min, hex_padded, hex_text, push_dec, push_hex, push_hex_text,
    hex_byte_text, hex_word_text, lemma_hex_text_byte, lemma_hex_text_word};

verus! {

/// A value that may be missing: its state, the value, and why it is missing.
#[derive(Debug)]
pub struct JsonField<T> {
    pub state: &'static str,
    pub value: Option<T>,
    pub reason: Option<String>,
}

#[derive(Debug)]
pub struct JsonAddress {
    pub domain: String,
    pub bus: String,
    pub slot: String,
    pub function: String,
    pub display: String,
}

#[derive(Debug)]
pub struct JsonDevice {
    pub address: JsonAddress,
    pub vendor_id: String,
    pub device_id: String,
    pub class_id: String,
    pub vendor_name: String,
    pub device_name: String,
    pub class_name: String,
}

#[derive(Debug)]
pub struct JsonSnapshot {
    pub devices: Vec<JsonDevice>,
}

#[derive(Debug)]
pub struct JsonResource {
    pub index: u8,
    pub start: String,
    pub size: String,
    pub flags: String,
}

#[derive(Debug)]
pub struct JsonCapability {
    pub id: String,
    pub kind: String,
    pub offset: String,
    pub next: Option<String>,
    pub state: String,
}

#[derive(Debug)]
pub struct JsonCapabilities {
    pub standard: Vec<JsonCapability>,
    pub extended: Vec<JsonCapability>,
    pub standard_status: String,
    pub extended_status: String,
}

#[derive(Debug)]
pub struct JsonRange {
    pub start: String,
    pub end: String,
}

#[derive(Debug)]
pub struct JsonConfigSegment {
    pub offset: String,
    pub bytes: String,
}

#[derive(Debug)]
pub struct JsonConfigFailure {
    pub offset: String,
    pub length: String,
    pub reason: String,
}

#[derive(Debug)]
pub struct JsonConfigSpace {
    pub requested: JsonRange,
    pub segments: Vec<JsonConfigSegment>,
    pub failures: Vec<JsonConfigFailure>,
}

#[derive(Debug)]
pub struct JsonDetails {
    pub revision: JsonField<u8>,
    pub programming_interface: JsonField<u8>,
    pub subsystem_vendor_id: JsonField<String>,
    pub subsystem_device_id: JsonField<String>,
    pub parent: JsonField<String>,
    pub irq: JsonField<u32>,
    pub driver: JsonField<String>,
    pub resources: JsonField<Vec<JsonResource>>,
    pub capabilities: JsonField<JsonCapabilities>,
}

#[derive(Debug)]
pub struct JsonInspection {
    pub device: JsonDevice,
    pub details: JsonDetails,
    pub config: Option<JsonConfigSpace>,
}

/// The state of a value that may be missing.
pub open spec fn state_of<T>(f: PciField<T>) -> Seq<char> {
    match f {
        PciField::Available(_) => "available"@,
        PciField::Unavailable { .. } => "unavailable"@,
        PciField::NotApplicable => "not_applicable"@,
    }
}

/// Whether a document field gives the state and reason of a value.
pub open spec fn state_and_reason<T, U>(f: PciField<T>, r: JsonField<U>) -> bool {
    &&& r.state@ == state_of(f)
    &&& match f {
        PciField::Unavailable { reason } => r.reason matches Some(text) && text@ == reason_text(reason),
        _ => r.reason is None,
    }
}

/// The state and reason of a value, with no value yet.
fn json_state<T, U>(field: &PciField<T>) -> (r: JsonField<U>)
    ensures
        state_and_reason(*field, r),
        r.value is None,
{
    match field {
        PciField::Available(_) => JsonField { state: "available", value: None, reason: None },
        PciField::Unavailable { reason } => JsonField {
            state: "unavailable",
            value: None,
            reason: Some(String::from_str(reason_str(*reason))),
        },
        PciField::NotApplicable => JsonField { state: "not_applicable", value: None, reason: None },
    }
}

/// A value that may be missing, the value as it is.
pub fn json_field<T: Copy>(field: &PciField<T>) -> (r: JsonField<T>)
    ensures
        state_and_reason(*field, r),
        r.value == match *field { PciField::Available(v) => Some(v), _ => None },
{
    let mut r = json_state(field);
    if let PciField::Available(v) = field {
        r.value = Some(*v);
    }
    r
}

/// A text that may be missing.
pub fn json_text_field(field: &PciField<String>) -> (r: JsonField<String>)
    ensures
        state_and_reason(*field, r),
        match *field {
            PciField::Available(v) => r.value matches Some(t) && t@ == v@,
            _ => r.value is None,
        },
{
    let mut r = json_state(field);
    if let PciField::Available(v) = field {
        r.value = Some(v.clone());
    }
    r
}

/// A value that may be missing, as `0x` and hexadecimal digits.
pub fn json_hex_field(field: &PciField<u16>) -> (r: JsonField<String>)
    ensures
        state_and_reason(*field, r),
        match *field {
            PciField::Available(v) => r.value matches Some(t) && t@ == "0x"@ + hex_min(v as nat),
            _ => r.value is None,
        },
{
    let mut r = json_state(field);
    if let PciField::Available(v) = field {
        let mut text = String::new();
        push_hex_text(&mut text, *v as u64, 0);
        proof {
            assert(hex_padded(*v as nat, 0) == hex_min(*v as nat));
            assert(text@ =~= "0x"@ + hex_min(*v as nat));
        }
        r.value = Some(text);
    }
    r
}

/// A parent address that may be missing, as `dddd:bb:ss.f`.
pub fn json_parent(field: &PciField<PciAddress>) -> (r: JsonField<String>)
    ensures
        state_and_reason(*field, r),
        match *field {
            PciField::Available(a) => r.value matches Some(t) && t@ == address_text(a),
            _ => r.value is None,
        },
{
    let mut r = json_state(field);
    if let PciField::Available(a) = field {
        r.value = Some(a.to_string());
    }
    r
}

/// Whether a document region shows a region.
pub open spec fn resource_json_matches(res: PciResource, j: JsonResource) -> bool {
    &&& j.index == res.index
    &&& j.start@ == hex_text(res.start as nat, 0)
    &&& j.size@ == hex_text(res.size as nat, 0)
    &&& j.flags@ == hex_text(res.flags as nat, 0)
}

/// The regions of a device, when they are known.
pub fn json_resources(field: &PciField<Vec<PciResource>>) -> (r: JsonField<Vec<JsonResource>>)
    ensures
        state_and_reason(*field, r),
        match *field {
            PciField::Available(rs) => r.value matches Some(v) && v@.len() == rs@.len()
                && forall|i: int| 0 <= i < rs@.len() ==> resource_json_matches(rs@[i], #[trigger] v@[i]),
            _ => r.value is None,
        },
{
    let mut r = json_state(field);
    if let PciField::Available(resources) = field {
        let mut values: Vec<JsonResource> = Vec::new();
        let mut i: usize = 0;
        while i < resources.len()
            invariant
                i <= resources@.len(),
                values@.len() == i,
                forall|q: int| 0 <= q < i ==> resource_json_matches(resources@[q], #[trigger] values@[q]),
            decreases resources@.len() - i,
        {
            let res = &resources[i];
            let mut start = String::new();
            push_hex_text(&mut start, res.start, 0);
            let mut size = String::new();
            push_hex_text(&mut size, res.size, 0);
            let mut flags = String::new();
            push_hex_text(&mut flags, res.flags, 0);
            values.push(JsonResource { index: res.index, start, size, flags });
            i = i + 1;
        }
        r.value = Some(values);
    }
    r
}

/// The status of a list as the document shows it.
pub open spec fn json_status_text(s: PciCapabilityChainStatus) -> Seq<char> {
    chain_status_text(s, "not_present"@)
}

/// The status of a list as the document shows it.
pub fn json_chain_status(status: &PciCapabilityChainStatus) -> (r: String)
    ensures
        r@ == json_status_text(*status),
{
    let mut out = String::new();
    push_chain_status(&mut out, *status, "not_present");
    out
}

/// Whether a document capability shows a capability.
pub open spec fn capability_json_matches(c: PciCapability, j: JsonCapability) -> bool {
    &&& j.id@ == hex_text(c.id as nat, 4)
    &&& j.kind@ == kind_text(c.kind)
    &&& j.offset@ == hex_text(c.offset as nat, 3)
    &&& match c.next {
        Some(n) => j.next matches Some(t) && t@ == hex_text(n as nat, 3),
        None => j.next is None,
    }
    &&& j.state@ == state_text(c.state)
}

/// The capabilities of a list.
pub fn json_capability_list(capabilities: &[PciCapability]) -> (r: Vec<JsonCapability>)
    ensures
        r@.len() == capabilities@.len(),
        forall|i: int| 0 <= i < capabilities@.len() ==> capability_json_matches(capabilities@[i], #[trigger] r@[i]),
{
    let mut out: Vec<JsonCapability> = Vec::new();
    let mut i: usize = 0;
    while i < capabilities.len()
        invariant
            i <= capabilities@.len(),
            out@.len() == i,
            forall|q: int| 0 <= q < i ==> capability_json_matches(capabilities@[q], #[trigger] out@[q]),
        decreases capabilities@.len() - i,
    {
        let c = &capabilities[i];
        let mut id = String::new();
        push_hex_text(&mut id, c.id as u64, 4);
        let mut offset = String::new();
        push_hex_text(&mut offset, c.offset as u64, 3);
        let next = match c.next {
            Some(n) => {
                let mut t = String::new();
                push_hex_text(&mut t, n as u64, 3);
                Some(t)
            },
            None => None,
        };
        let mut state = String::new();
        push_state(&mut state, c.state);
        out.push(JsonCapability { id, kind: String::from_str(kind_str(c.kind)), offset, next, state });
        proof {
            assert(state@ =~= state_text(c.state));
        }
        i = i + 1;
    }
    out
}

/// The capability report of a device, when it is known.
pub fn json_capabilities(field: &PciField<PciCapabilityReport>) -> (r: JsonField<JsonCapabilities>)
    ensures
        state_and_reason(*field, r),
        match *field {
            PciField::Available(report) => r.value matches Some(v)
                && v.standard@.len() == report.standard@.len()
                && (forall|i: int| 0 <= i < report.standard@.len()
                    ==> capability_json_matches(report.standard@[i], #[trigger] v.standard@[i]))
                && v.extended@.len() == report.extended@.len()
                && (forall|i: int| 0 <= i < report.extended@.len()
                    ==> capability_json_matches(report.extended@[i], #[trigger] v.extended@[i]))
                && v.standard_status@ == json_status_text(report.standard_status)
                && v.extended_status@ == json_status_text(report.extended_status),
            _ => r.value is None,
        },
{
    let mut r = json_state(field);
    if let PciField::Available(report) = field {
        r.value = Some(JsonCapabilities {
            standard: json_capability_list(report.standard.as_slice()),
            extended: json_capability_list(report.extended.as_slice()),
            standard_status: json_chain_status(&report.standard_status),
            extended_status: json_chain_status(&report.extended_status),
        });
    }
    r
}

/// The bytes of a segment, each as two hexadecimal digits, with nothing between them.
pub open spec fn hex_bytes_text(bytes: Seq<u8>) -> Seq<char>
    decreases bytes.len(),
{
    if bytes.len() == 0 {
        Seq::empty()
    } else {
        hex_bytes_text(bytes.drop_last()) + hex_padded(bytes.last() as nat, 2)
    }
}

/// Whether a document snapshot shows a configuration space snapshot.
pub open spec fn config_json_matches(s: ConfigSpaceSnapshot, j: JsonConfigSpace) -> bool {
    &&& j.requested.start@ == hex_text(s.requested.start as nat, 3)
    &&& j.requested.end@ == hex_text(s.requested.end as nat, 3)
    &&& j.segments@.len() == s.segments@.len()
    &&& forall|i: int| 0 <= i < s.segments@.len() ==> {
        &&& (#[trigger] j.segments@[i]).offset@ == hex_text(s.segments@[i].offset as nat, 3)
        &&& j.segments@[i].bytes@ == hex_bytes_text(s.segments@[i].bytes@)
    }
    &&& j.failures@.len() == s.failures@.len()
    &&& forall|i: int| 0 <= i < s.failures@.len() ==> {
        &&& (#[trigger] j.failures@[i]).offset@ == hex_text(s.failures@[i].offset as nat, 3)
        &&& j.failures@[i].length@ == hex_text(s.failures@[i].length as nat, 0)
        &&& j.failures@[i].reason@ == reason_text(s.failures@[i].reason)
    }
}

/// A configuration space snapshot.
pub fn json_config_space(snapshot: &ConfigSpaceSnapshot) -> (r: JsonConfigSpace)
    ensures
        config_json_matches(*snapshot, r),
{
    let mut start = String::new();
    push_hex_text(&mut start, snapshot.requested.start as u64, 3);
    let mut end = String::new();
    push_hex_text(&mut end, snapshot.requested.end as u64, 3);
    let mut segments: Vec<JsonConfigSegment> = Vec::new();
    let mut i: usize = 0;
    while i < snapshot.segments.len()
        invariant
            i <= snapshot.segments@.len(),
            segments@.len() == i,
            forall|q: int| 0 <= q < i ==> {
                &&& (#[trigger] segments@[q]).offset@ == hex_text(snapshot.segments@[q].offset as nat, 3)
                &&& segments@[q].bytes@ == hex_bytes_text(snapshot.segments@[q].bytes@)
            },
        decreases snapshot.segments@.len() - i,
    {
        let segment = &snapshot.segments[i];
        let mut offset = String::new();
        push_hex_text(&mut offset, segment.offset as u64, 3);
        let mut bytes = String::new();
        let mut j: usize = 0;
        while j < segment.bytes.len()
            invariant
                j <= segment.bytes@.len(),
                bytes@ == hex_bytes_text(segment.bytes@.subrange(0, j as int)),
            decreases segment.bytes@.len() - j,
        {
            push_hex(&mut bytes, segment.bytes[j] as u64, 2);
            proof {
                assert(segment.bytes@.subrange(0, j + 1).drop_last() =~= segment.bytes@.subrange(0, j as int));
            }
            j = j + 1;
        }
        proof {
            assert(segment.bytes@.subrange(0, segment.bytes@.len() as int) =~= segment.bytes@);
        }
        segments.push(JsonConfigSegment { offset, bytes });
        i = i + 1;
    }
    let mut failures: Vec<JsonConfigFailure> = Vec::new();
    let mut k: usize = 0;
    while k < snapshot.failures.len()
        invariant
            k <= snapshot.failures@.len(),
            failures@.len() == k,
            forall|q: int| 0 <= q < k ==> {
                &&& (#[trigger] failures@[q]).offset@ == hex_text(snapshot.failures@[q].offset as nat, 3)
                &&& failures@[q].length@ == hex_text(snapshot.failures@[q].length as nat, 0)
                &&& failures@[q].reason@ == reason_text(snapshot.failures@[q].reason)
            },
        decreases snapshot.failures@.len() - k,
    {
        let f = snapshot.failures[k];
        let mut offset = String::new();
        push_hex_text(&mut offset, f.offset as u64, 3);
        let mut length = String::new();
        push_hex_text(&mut length, f.length as u64, 0);
        failures.push(JsonConfigFailure { offset, length, reason: String::from_str(reason_str(f.reason)) });
        k = k + 1;
    }
    JsonConfigSpace { requested: JsonRange { start, end }, segments, failures }
}

/// Whether a document device shows a device, its bus and slot with `width` digits.
pub open spec fn device_json_matches(d: PciDevice, j: JsonDevice, width: nat) -> bool {
    &&& j.address.domain@ == hex_text(d.address.domain as nat, 4)
    &&& j.address.bus@ == hex_text(d.address.bus as nat, width)
    &&& j.address.slot@ == hex_text(d.address.slot as nat, width)
    &&& j.address.function@ == dec_min(d.address.function as nat)
    &&& j.address.display@ == address_text(d.address)
    &&& j.vendor_id@ == hex_text(d.vendor_id as nat, 4)
    &&& j.device_id@ == hex_text(d.device_id as nat, 4)
    &&& j.class_id@ == hex_text(d.class_id as nat, 4)
    &&& j.vendor_name@ == d.vendor_name@
    &&& j.device_name@ == d.device_name@
    &&& j.class_name@ == d.class_name@
}

/// A document device shows the device's own numbers: its vendor, device
/// and class ids and its domain each as `0x` and the four hexadecimal
/// digits of that number; its bus and slot as `0x` and two digits of each
/// (four when `width` is 4); its names as they are.
pub proof fn lemma_json_device_fields(d: PciDevice, j: JsonDevice, width: nat)
    requires
        device_json_matches(d, j, width),
    ensures
        j.vendor_id@ == hex_word_text(d.vendor_id),
        j.device_id@ == hex_word_text(d.device_id),
        j.class_id@ == hex_word_text(d.class_id),
        j.address.domain@ == hex_word_text(d.address.domain),
        width == 2 ==> j.address.bus@ == hex_byte_text(d.address.bus),
        width == 2 ==> j.address.slot@ == hex_byte_text(d.address.slot),
        width == 4 ==> j.address.bus@ == hex_word_text(d.address.bus as u16),
        width == 4 ==> j.address.slot@ == hex_word_text(d.address.slot as u16),
        j.vendor_name@ == d.vendor_name@,
        j.device_name@ == d.device_name@,
        j.class_name@ == d.class_name@,
{
    lemma_hex_text_word(d.vendor_id);
    lemma_hex_text_word(d.device_id);
    lemma_hex_text_word(d.class_id);
    lemma_hex_text_word(d.address.domain);
    lemma_hex_text_byte(d.address.bus);
    lemma_hex_text_byte(d.address.slot);
    lemma_hex_text_word(d.address.bus as u16);
    lemma_hex_text_word(d.address.slot as u16);
}

/// A device, its bus and slot with `width` hexadecimal digits.
pub fn json_device(device: &PciDevice, width: usize) -> (r: JsonDevice)
    ensures
        device_json_matches(*device, r, width as nat),
        r.vendor_id@ == hex_word_text(device.vendor_id),
        r.device_id@ == hex_word_text(device.device_id),
        r.class_id@ == hex_word_text(device.class_id),
{
    let a = device.address;
    let mut domain = String::new();
    push_hex_text(&mut domain, a.domain as u64, 4);
    let mut bus = String::new();
    push_hex_text(&mut bus, a.bus as u64, width);
    let mut slot = String::new();
    push_hex_text(&mut slot, a.slot as u64, width);
    let mut function = String::new();
    push_dec(&mut function, a.function as u64);
    proof {
        assert(function@ =~= dec_min(a.function as nat));
    }
    let mut vendor_id = String::new();
    push_hex_text(&mut vendor_id, device.vendor_id as u64, 4);
    let mut device_id = String::new();
    push_hex_text(&mut device_id, device.device_id as u64, 4);
    let mut class_id = String::new();
    push_hex_text(&mut class_id, device.class_id as u64, 4);
    proof {
        lemma_hex_text_word(device.vendor_id);
        lemma_hex_text_word(device.device_id);
        lemma_hex_text_word(device.class_id);
    }
    JsonDevice {
        address: JsonAddress { domain, bus, slot, function, display: a.to_string() },
        vendor_id,
        device_id,
        class_id,
        vendor_name: device.vendor_name.clone(),
        device_name: device.device_name.clone(),
        class_name: device.class_name.clone(),
    }
}

/// The device list document: the devices in address order, buses and
/// slots with four hexadecimal digits.
pub fn json_snapshot(snapshot: &PciSnapshot) -> (r: JsonSnapshot)
    ensures
        exists|order: Seq<usize>| is_address_order(snapshot.spec_devices(), order)
            && r.devices@.len() == order.len()
            && forall|i: int| 0 <= i < order.len() ==>
                device_json_matches(snapshot.spec_devices()[order[i] as int], #[trigger] r.devices@[i], 4)
                && r.devices@[i].vendor_id@ == hex_word_text(snapshot.spec_devices()[order[i] as int].vendor_id)
                && r.devices@[i].device_id@ == hex_word_text(snapshot.spec_devices()[order[i] as int].device_id)
                && r.devices@[i].class_id@ == hex_word_text(snapshot.spec_devices()[order[i] as int].class_id),
{
    let devices = snapshot.devices();
    let order = address_order(devices);
    let mut out: Vec<JsonDevice> = Vec::new();
    let mut i: usize = 0;
    while i < order.len()
        invariant
            devices@ == snapshot.spec_devices(),
            is_address_order(devices@, order@),
            i <= order@.len(),
            out@.len() == i,
            forall|q: int| 0 <= q < i ==> device_json_matches(devices@[order@[q] as int], #[trigger] out@[q], 4)
                && out@[q].vendor_id@ == hex_word_text(devices@[order@[q] as int].vendor_id)
                && out@[q].device_id@ == hex_word_text(devices@[order@[q] as int].device_id)
                && out@[q].class_id@ == hex_word_text(devices@[order@[q] as int].class_id),
        decreases order@.len() - i,
    {
        out.push(json_device(&devices[order[i]], 4));
        i = i + 1;
    }
    JsonSnapshot { devices: out }
}

/// The inspection document: the device, buses and slots with two
/// hexadecimal digits, its details, and the configuration space snapshot
/// when one is given.
pub fn json_inspection(inspection: &PciInspection, config: Option<&ConfigSpaceSnapshot>) -> (r: JsonInspection)
    ensures
        device_json_matches(inspection.device, r.device, 2),
        r.device.vendor_id@ == hex_word_text(inspection.device.vendor_id),
        r.device.device_id@ == hex_word_text(inspection.device.device_id),
        r.device.class_id@ == hex_word_text(inspection.device.class_id),
        state_and_reason(inspection.details.revision, r.details.revision),
        r.details.revision.value == match inspection.details.revision { PciField::Available(v) => Some(v), _ => None },
        state_and_reason(inspection.details.programming_interface, r.details.programming_interface),
        r.details.programming_interface.value
            == match inspection.details.programming_interface { PciField::Available(v) => Some(v), _ => None },
        state_and_reason(inspection.details.subsystem_vendor_id, r.details.subsystem_vendor_id),
        match inspection.details.subsystem_vendor_id {
            PciField::Available(v) => r.details.subsystem_vendor_id.value matches Some(t) && t@ == "0x"@ + hex_min(v as nat),
            _ => r.details.subsystem_vendor_id.value is None,
        },
        state_and_reason(inspection.details.subsystem_device_id, r.details.subsystem_device_id),
        match inspection.details.subsystem_device_id {
            PciField::Available(v) => r.details.subsystem_device_id.value matches Some(t) && t@ == "0x"@ + hex_min(v as nat),
            _ => r.details.subsystem_device_id.value is None,
        },
        state_and_reason(inspection.details.parent, r.details.parent),
        match inspection.details.parent {
            PciField::Available(a) => r.details.parent.value matches Some(t) && t@ == address_text(a),
            _ => r.details.parent.value is None,
        },
        state_and_reason(inspection.details.irq, r.details.irq),
        r.details.irq.value == match inspection.details.irq { PciField::Available(v) => Some(v), _ => None },
        state_and_reason(inspection.details.driver, r.details.driver),
        match inspection.details.driver {
            PciField::Available(v) => r.details.driver.value matches Some(t) && t@ == v@,
            _ => r.details.driver.value is None,
        },
        state_and_reason(inspection.details.resources, r.details.resources),
        match inspection.details.resources {
            PciField::Available(rs) => r.details.resources.value matches Some(v) && v@.len() == rs@.len()
                && forall|i: int| 0 <= i < rs@.len() ==> resource_json_matches(rs@[i], #[trigger] v@[i]),
            _ => r.details.resources.value is None,
        },
        state_and_reason(inspection.details.capabilities, r.details.capabilities),
        match inspection.details.capabilities {
            PciField::Available(report) => r.details.capabilities.value matches Some(v)
                && v.standard@.len() == report.standard@.len()
                && (forall|i: int| 0 <= i < report.standard@.len()
                    ==> capability_json_matches(report.standard@[i], #[trigger] v.standard@[i]))
                && v.extended@.len() == report.extended@.len()
                && (forall|i: int| 0 <= i < report.extended@.len()
                    ==> capability_json_matches(report.extended@[i], #[trigger] v.extended@[i]))
                && v.standard_status@ == json_status_text(report.standard_status)
                && v.extended_status@ == json_status_text(report.extended_status),
            _ => r.details.capabilities.value is None,
        },
        match config {
            Some(s) => r.config matches Some(c) && config_json_matches(*s, c),
            None => r.config is None,
        },
{
    let details = &inspection.details;
    JsonInspection {
        device: json_device(&inspection.device, 2),
        details: JsonDetails {
            revision: json_field(&details.revision),
            programming_interface: json_field(&details.programming_interface),
            subsystem_vendor_id: json_hex_field(&details.subsystem_vendor_id),
            subsystem_device_id: json_hex_field(&details.subsystem_device_id),
            parent: json_parent(&details.parent),
            irq: json_field(&details.irq),
            driver: json_text_field(&details.driver),
            resources: json_resources(&details.resources),
            capabilities: json_capabilities(&details.capabilities),
        },
        config: match config {
            Some(s) => Some(json_config_space(s)),
            None => None,
        },
    }
}

} // verus!
