//! Names of capabilities.
use vstd::prelude::*;
use crate::field::PciCapabilityKind;

verus! {

/// The name of a standard capability ID.
pub open spec fn spec_standard_name(id: u16) -> &'static str {
    if id == 0x01 { "pm" }
    else if id == 0x02 { "agp" }
    else if id == 0x03 { "vpd" }
    else if id == 0x04 { "slot-id" }
    else if id == 0x05 { "msi" }
    else if id == 0x06 { "hot-swap" }
    else if id == 0x07 { "pci-x" }
    else if id == 0x08 { "hypertransport" }
    else if id == 0x09 { "vendor-specific" }
    else if id == 0x0a { "debug-port" }
    else if id == 0x0b { "compactpci-crc" }
    else if id == 0x0c { "hot-plug" }
    else if id == 0x0d { "bridge-subsystem-vendor-id" }
    else if id == 0x0e { "agp-8x" }
    else if id == 0x0f { "secure-device" }
    else if id == 0x10 { "pcie" }
    else if id == 0x11 { "msi-x" }
    else if id == 0x12 { "sata" }
    else if id == 0x13 { "af" }
    else { "unknown" }
}

/// The name of an extended capability ID.
pub open spec fn spec_extended_name(id: u16) -> &'static str {
    if id == 0x0001 { "aer" }
    else if id == 0x0002 { "virtual-channel" }
    else if id == 0x0003 { "device-serial-number" }
    else if id == 0x0004 { "power-budgeting" }
    else if id == 0x0005 { "root-complex-link" }
    else if id == 0x0006 { "root-complex-internal-link-control" }
    else if id == 0x0007 { "root-complex-event-collector" }
    else if id == 0x0008 { "mfvc" }
    else if id == 0x000a { "acs" }
    else if id == 0x000b { "ari" }
    else if id == 0x000c { "ats" }
    else if id == 0x000d { "sr-iov" }
    else if id == 0x000e { "mr-iov" }
    else if id == 0x000f { "multicast" }
    else if id == 0x0010 { "pri" }
    else if id == 0x0013 { "tph" }
    else if id == 0x0015 { "ltr" }
    else if id == 0x0017 { "flattening-portal-bridge" }
    else if id == 0x0019 { "secondary-pcie" }
    else if id == 0x001e { "l1-pm-substates" }
    else if id == 0x001f { "ptm" }
    else if id == 0x0023 { "doe" }
    else { "unknown" }
}

/// The name of a capability of the given kind and ID.
pub open spec fn spec_capability_name(kind: PciCapabilityKind, id: u16) -> &'static str {
    match kind {
        PciCapabilityKind::Standard => spec_standard_name(id),
        PciCapabilityKind::Extended => spec_extended_name(id),
        PciCapabilityKind::Unknown(_) => "unknown",
    }
}

pub fn capability_name(kind: &PciCapabilityKind, id: u16) -> (r: &'static str)
    ensures
        r == spec_capability_name(*kind, id),
{
    match kind {
        PciCapabilityKind::Standard => standard_name(id),
        PciCapabilityKind::Extended => extended_name(id),
        PciCapabilityKind::Unknown(_) => "unknown",
    }
}

fn standard_name(id: u16) -> (r: &'static str)
    ensures
        r == spec_standard_name(id),
{
    match id {
        0x01 => "pm",
        0x02 => "agp",
        0x03 => "vpd",
        0x04 => "slot-id",
        0x05 => "msi",
        0x06 => "hot-swap",
        0x07 => "pci-x",
        0x08 => "hypertransport",
        0x09 => "vendor-specific",
        0x0a => "debug-port",
        0x0b => "compactpci-crc",
        0x0c => "hot-plug",
        0x0d => "bridge-subsystem-vendor-id",
        0x0e => "agp-8x",
        0x0f => "secure-device",
        0x10 => "pcie",
        0x11 => "msi-x",
        0x12 => "sata",
        0x13 => "af",
        _ => "unknown",
    }
}

fn extended_name(id: u16) -> (r: &'static str)
    ensures
        r == spec_extended_name(id),
{
    match id {
        0x0001 => "aer",
        0x0002 => "virtual-channel",
        0x0003 => "device-serial-number",
        0x0004 => "power-budgeting",
        0x0005 => "root-complex-link",
        0x0006 => "root-complex-internal-link-control",
        0x0007 => "root-complex-event-collector",
        0x0008 => "mfvc",
        0x000a => "acs",
        0x000b => "ari",
        0x000c => "ats",
        0x000d => "sr-iov",
        0x000e => "mr-iov",
        0x000f => "multicast",
        0x0010 => "pri",
        0x0013 => "tph",
        0x0015 => "ltr",
        0x0017 => "flattening-portal-bridge",
        0x0019 => "secondary-pcie",
        0x001e => "l1-pm-substates",
        0x001f => "ptm",
        0x0023 => "doe",
        _ => "unknown",
    }
}

} // verus!
