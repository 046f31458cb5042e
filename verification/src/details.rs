//! The details of one device, as the PCI library reports them.
use vstd::prelude::*;
use crate::config::ConfigSpaceSnapshot;
use crate::device::{PciAddress, PciDevice};
use crate::error::PciError;
use crate::field::{PciCapabilityReport, PciField, PciFieldUnavailableReason};
use crate::header::{
    CommandRegister, PciBarType, StatusRegister, bar_type_field, bar_type_layout, command_field,
    command_layout, status_field, status_layout,
};

verus! {

/// The library knows the vendor and device IDs.
pub const PCI_FILL_IDENT: u32 = 0x0001;
/// The library knows the interrupt line.
pub const PCI_FILL_IRQ: u32 = 0x0002;
/// The library knows the base addresses.
pub const PCI_FILL_BASES: u32 = 0x0004;
/// The library knows the region sizes.
pub const PCI_FILL_SIZES: u32 = 0x0010;
/// The library knows the device class.
pub const PCI_FILL_CLASS: u32 = 0x0020;
/// The library knows the region flags.
pub const PCI_FILL_IO_FLAGS: u32 = 0x1000;
/// The library knows the revision and programming interface.
pub const PCI_FILL_CLASS_EXT: u32 = 0x0002_0000;
/// The library knows the subsystem IDs.
pub const PCI_FILL_SUBSYS: u32 = 0x0004_0000;
/// The library knows the parent device.
pub const PCI_FILL_PARENT: u32 = 0x0008_0000;
/// The library knows the bound driver.
pub const PCI_FILL_DRIVER: u32 = 0x0010_0000;

/// Every field that inspecting a device asks the library for.
pub const INSPECT_FIELDS: u32 = PCI_FILL_IDENT | PCI_FILL_CLASS | PCI_FILL_IRQ | PCI_FILL_BASES
    | PCI_FILL_SIZES | PCI_FILL_IO_FLAGS | PCI_FILL_CLASS_EXT | PCI_FILL_SUBSYS | PCI_FILL_PARENT
    | PCI_FILL_DRIVER;

/// The fields without which a device cannot be inspected.
pub const REQUIRED_INSPECT_FIELDS: u32 = PCI_FILL_IDENT | PCI_FILL_CLASS;

/// The fields that describe the device's regions.
pub const RESOURCE_FIELDS: u32 = PCI_FILL_BASES | PCI_FILL_SIZES | PCI_FILL_IO_FLAGS;

/// The fields that scanning the bus asks the library for, all of them required.
pub const SCAN_FIELDS: u32 = PCI_FILL_IDENT | PCI_FILL_CLASS;

/// A region of a device: one of its base address registers.
#[derive(Clone, Debug, PartialEq, Eq)]
pub struct PciResource {
    pub index: u8,
    pub start: u64,
    pub size: u64,
    pub flags: u64,
    pub bar_type: Option<PciBarType>,
}

/// What inspecting a device found beyond its identity.
#[derive(Clone, Debug, PartialEq, Eq)]
pub struct PciDeviceDetails {
    pub revision: PciField<u8>,
    pub programming_interface: PciField<u8>,
    pub subsystem_vendor_id: PciField<u16>,
    pub subsystem_device_id: PciField<u16>,
    pub parent: PciField<PciAddress>,
    pub irq: PciField<u32>,
    pub driver: PciField<String>,
    pub resources: PciField<Vec<PciResource>>,
    pub capabilities: PciField<PciCapabilityReport>,
    pub command: PciField<CommandRegister>,
    pub status: PciField<StatusRegister>,
}

/// A device and its details.
#[derive(Clone, Debug, PartialEq, Eq)]
pub struct PciInspection {
    pub device: PciDevice,
    pub details: PciDeviceDetails,
}

/// What the PCI library filled in for a device, as plain values: the set
/// of fields it knows (`PCI_FILL_*` bits) and the values of those fields.
#[derive(Clone, Debug, PartialEq, Eq)]
pub struct RawDeviceInfo {
    pub known_fields: u32,
    pub revision: u8,
    pub programming_interface: u8,
    pub subsystem_vendor_id: u16,
    pub subsystem_device_id: u16,
    /// The parent device, when the library links one.
    pub parent: Option<PciAddress>,
    /// The interrupt line; negative when the device has none.
    pub irq: i32,
    /// The bound driver, when the library names one.
    pub driver: Option<String>,
    pub base_addr: [u64; 6],
    pub size: [u64; 6],
    pub flags: [u64; 6],
}

/// A field that the library did not fill in.
pub open spec fn unavailable_spec<T>() -> PciField<T> {
    PciField::Unavailable { reason: PciFieldUnavailableReason::Unknown }
}

/// A field that the library did not fill in.
pub fn unavailable<T>() -> (r: PciField<T>)
    ensures
        r == unavailable_spec::<T>(),
{
    PciField::Unavailable { reason: PciFieldUnavailableReason::Unknown }
}

/// The start of a region from its raw base address: without the two
/// attribute bits of an I/O region, or the four of a memory region.
pub open spec fn bar_start(raw_base: u64) -> u64 {
    if raw_base & 1 != 0 { raw_base & !3u64 } else { raw_base & !0xfu64 }
}

/// The region of base address register `i`.
pub open spec fn resource_at(raw: RawDeviceInfo, s: ConfigSpaceSnapshot, i: int) -> PciResource {
    PciResource {
        index: i as u8,
        start: bar_start(raw.base_addr@[i]),
        size: raw.size@[i],
        flags: raw.flags@[i],
        bar_type: match s.dword_at(0x10 + 4 * i) {
            Some(bar) => Some(bar_type_layout(bar)),
            None => None,
        },
    }
}

/// Whether base address register `i` describes a region: some of its
/// start, size and flags are not zero.
pub open spec fn resource_present(raw: RawDeviceInfo, i: int) -> bool {
    bar_start(raw.base_addr@[i]) != 0 || raw.size@[i] != 0 || raw.flags@[i] != 0
}

/// The regions among the first `n` base address registers, in order.
pub open spec fn resources_below(raw: RawDeviceInfo, s: ConfigSpaceSnapshot, n: int) -> Seq<PciResource>
    decreases n,
{
    if n <= 0 {
        Seq::empty()
    } else if resource_present(raw, n - 1) {
        resources_below(raw, s, n - 1).push(resource_at(raw, s, n - 1))
    } else {
        resources_below(raw, s, n - 1)
    }
}

/// Whether `known` holds every bit of `fields`.
pub open spec fn knows(known: u32, fields: u32) -> bool {
    known & fields == fields
}

/// The details of a device from what the library filled in, its capability
/// field and a snapshot of its configuration space (for the command and
/// status registers and the types of its regions).
pub fn details_from_raw(raw: RawDeviceInfo, capabilities: PciField<PciCapabilityReport>, snapshot: &ConfigSpaceSnapshot)
    -> (r: PciDeviceDetails)
    requires
        snapshot.wf(),
    ensures
        r.revision == if raw.known_fields & PCI_FILL_CLASS_EXT != 0 {
            PciField::Available(raw.revision)
        } else {
            unavailable_spec::<u8>()
        },
        r.programming_interface == if raw.known_fields & PCI_FILL_CLASS_EXT != 0 {
            PciField::Available(raw.programming_interface)
        } else {
            unavailable_spec::<u8>()
        },
        r.subsystem_vendor_id == if raw.known_fields & PCI_FILL_SUBSYS != 0 {
            PciField::Available(raw.subsystem_vendor_id)
        } else {
            unavailable_spec::<u16>()
        },
        r.subsystem_device_id == if raw.known_fields & PCI_FILL_SUBSYS != 0 {
            PciField::Available(raw.subsystem_device_id)
        } else {
            unavailable_spec::<u16>()
        },
        r.parent == if raw.known_fields & PCI_FILL_PARENT == 0 {
            unavailable_spec::<PciAddress>()
        } else {
            match raw.parent {
                Some(parent) => PciField::Available(parent),
                None => PciField::NotApplicable,
            }
        },
        r.irq == if raw.known_fields & PCI_FILL_IRQ == 0 {
            unavailable_spec::<u32>()
        } else if raw.irq < 0 {
            PciField::NotApplicable
        } else {
            PciField::Available(raw.irq as u32)
        },
        r.driver == if raw.known_fields & PCI_FILL_DRIVER == 0 {
            unavailable_spec::<String>()
        } else {
            match raw.driver {
                Some(driver) => PciField::Available(driver),
                None => PciField::Unavailable { reason: PciFieldUnavailableReason::NotBound },
            }
        },
        !knows(raw.known_fields, RESOURCE_FIELDS) ==> r.resources == unavailable_spec::<Vec<PciResource>>(),
        knows(raw.known_fields, RESOURCE_FIELDS) ==> {
            let expected = resources_below(raw, *snapshot, 6);
            &&& expected.len() == 0 ==> r.resources == PciField::<Vec<PciResource>>::NotApplicable
            &&& expected.len() > 0 ==> (r.resources matches PciField::Available(v) && v@ == expected)
        },
        r.capabilities == capabilities,
        r.command == match snapshot.word_at(0x04) {
            Some(w) => PciField::Available(command_layout(w)),
            None => PciField::Unavailable { reason: PciFieldUnavailableReason::ReadError },
        },
        r.status == match snapshot.word_at(0x06) {
            Some(w) => PciField::Available(status_layout(w)),
            None => PciField::Unavailable { reason: PciFieldUnavailableReason::ReadError },
        },
{
    let known = raw.known_fields;
    let ghost raw0 = raw;
    let revision = if known & PCI_FILL_CLASS_EXT != 0 { PciField::Available(raw.revision) } else { unavailable() };
    let programming_interface = if known & PCI_FILL_CLASS_EXT != 0 {
        PciField::Available(raw.programming_interface)
    } else {
        unavailable()
    };
    let subsystem_vendor_id = if known & PCI_FILL_SUBSYS != 0 {
        PciField::Available(raw.subsystem_vendor_id)
    } else {
        unavailable()
    };
    let subsystem_device_id = if known & PCI_FILL_SUBSYS != 0 {
        PciField::Available(raw.subsystem_device_id)
    } else {
        unavailable()
    };
    let parent = if known & PCI_FILL_PARENT == 0 {
        unavailable()
    } else {
        match raw.parent {
            Some(parent) => PciField::Available(parent),
            None => PciField::NotApplicable,
        }
    };
    let irq = if known & PCI_FILL_IRQ == 0 {
        unavailable()
    } else if raw.irq < 0 {
        PciField::NotApplicable
    } else {
        PciField::Available(raw.irq as u32)
    };
    let resources = if known & RESOURCE_FIELDS != RESOURCE_FIELDS {
        unavailable()
    } else {
        let mut values: Vec<PciResource> = Vec::new();
        let mut index: usize = 0;
        while index < 6
            invariant
                index <= 6,
                snapshot.wf(),
                raw == raw0,
                values@ == resources_below(raw0, *snapshot, index as int),
            decreases 6 - index,
        {
            let raw_base = raw.base_addr[index];
            let start = if raw_base & 1 != 0 { raw_base & !3u64 } else { raw_base & !0xfu64 };
            let size = raw.size[index];
            let flags = raw.flags[index];
            if start != 0 || size != 0 || flags != 0 {
                let bar_type = bar_type_field(snapshot, index as u8);
                values.push(PciResource { index: index as u8, start, size, flags, bar_type });
            }
            index = index + 1;
        }
        if values.len() == 0 {
            PciField::NotApplicable
        } else {
            PciField::Available(values)
        }
    };
    let driver = if known & PCI_FILL_DRIVER == 0 {
        unavailable()
    } else {
        match raw.driver {
            Some(driver) => PciField::Available(driver),
            None => PciField::Unavailable { reason: PciFieldUnavailableReason::NotBound },
        }
    };
    PciDeviceDetails {
        revision,
        programming_interface,
        subsystem_vendor_id,
        subsystem_device_id,
        parent,
        irq,
        driver,
        resources,
        capabilities,
        command: command_field(snapshot),
        status: status_field(snapshot),
    }
}

/// The fields the library knows of a device it was asked to fill in for
/// inspection, from what `pci_fill_info` returned: an error when it
/// returned a negative value, or when it lacks the identity or the class.
pub fn inspect_known_fields(address: PciAddress, result: i32) -> (r: Result<u32, PciError>)
    ensures
        result < 0 ==> (r matches Err(PciError::DeviceInfo { address: a, known_fields: k, requested_fields: q })
            && a == address && k == result as u32 && q == INSPECT_FIELDS),
        result >= 0 && !knows(result as u32, REQUIRED_INSPECT_FIELDS) ==>
            (r matches Err(PciError::DeviceInfo { address: a, known_fields: k, requested_fields: q })
            && a == address && k == result as u32 && q == REQUIRED_INSPECT_FIELDS),
        result >= 0 && knows(result as u32, REQUIRED_INSPECT_FIELDS) ==> r == Ok::<u32, PciError>(result as u32),
{
    if result < 0 {
        return Err(PciError::DeviceInfo {
            address,
            known_fields: result as u32,
            requested_fields: INSPECT_FIELDS,
        });
    }
    let known_fields = result as u32;
    if known_fields & REQUIRED_INSPECT_FIELDS != REQUIRED_INSPECT_FIELDS {
        return Err(PciError::DeviceInfo { address, known_fields, requested_fields: REQUIRED_INSPECT_FIELDS });
    }
    Ok(known_fields)
}

/// Checks the fields the library knows of a device found by a scan of the
/// bus: an error unless it knows the identity and the class.
pub fn check_scan_fields(address: PciAddress, known_fields: u32) -> (r: Result<(), PciError>)
    ensures
        knows(known_fields, SCAN_FIELDS) ==> r is Ok,
        !knows(known_fields, SCAN_FIELDS) ==> (r matches Err(PciError::DeviceInfo { address: a, known_fields: k, requested_fields: q })
            && a == address && k == known_fields && q == SCAN_FIELDS),
{
    if known_fields & SCAN_FIELDS != SCAN_FIELDS {
        return Err(PciError::DeviceInfo { address, known_fields, requested_fields: SCAN_FIELDS });
    }
    Ok(())
}

} // verus!
