//! PCI-X capability.
use vstd::prelude::*;
use crate::bits::{bits_of, flag_of, byte_field16, byte_field32, flag16};
use crate::config::ConfigSpaceSnapshot;
use super::{read_dword, read_word};

verus! {

/// The decoded registers of a PCI-X capability.
#[derive(Clone, Copy, Debug, PartialEq, Eq)]
pub struct PciXCapability {
    pub parity_error_recovery: bool,
    pub relaxed_ordering: bool,
    pub max_memory_block: u8,
    pub max_split: u8,
    pub bus: u8,
    pub device: u8,
    pub function: u8,
    pub status_raw: u32,
}

/// The PCI-X capability described by its command and status registers.
pub open spec fn pci_x_layout(command: u16, status: u32) -> PciXCapability {
    PciXCapability {
        parity_error_recovery: flag_of(command as int, 0),
        relaxed_ordering: flag_of(command as int, 1),
        max_memory_block: bits_of(command as int, 2, 2) as u8,
        max_split: bits_of(command as int, 4, 3) as u8,
        bus: bits_of(status as int, 8, 8) as u8,
        device: bits_of(status as int, 3, 5) as u8,
        function: bits_of(status as int, 0, 3) as u8,
        status_raw: status,
    }
}

/// The PCI-X capability at `offset`, if its registers were read.
pub open spec fn pci_x_spec(snapshot: ConfigSpaceSnapshot, offset: u16) -> Option<PciXCapability> {
    let base = offset as int;
    match (snapshot.word_at(base + 2), snapshot.dword_at(base + 4)) {
        (Some(command), Some(status)) => Some(pci_x_layout(command, status)),
        _ => None,
    }
}

/// The PCI-X capability's fields by register offset and mask: from the
/// command word at offset + 2 and the status dword at offset + 4.
pub proof fn lemma_pci_x_registers(snapshot: ConfigSpaceSnapshot, offset: u16)
    requires
        pci_x_spec(snapshot, offset) is Some,
    ensures
        snapshot.word_at(offset + 2) is Some,
        snapshot.dword_at(offset + 4) is Some,
        ({
            let c = pci_x_spec(snapshot, offset).unwrap();
            let command = snapshot.word_at(offset + 2).unwrap();
            let status = snapshot.dword_at(offset + 4).unwrap();
            &&& c.parity_error_recovery == (command & 0x0001 != 0)
            &&& c.relaxed_ordering == (command & 0x0002 != 0)
            &&& c.max_memory_block as u16 == (command >> 2) & 0x0003
            &&& c.max_split as u16 == (command >> 4) & 0x0007
            &&& c.bus as u32 == (status >> 8) & 0xff
            &&& c.device as u32 == (status >> 3) & 0x001f
            &&& c.function as u32 == status & 0x0007
            &&& c.status_raw == status
        }),
{
    vstd::bits::lemma_low_bits_mask_values();
    vstd::arithmetic::power2::lemma2_to64();
    crate::bits::lemma_masks16();
    let command = snapshot.word_at(offset + 2).unwrap();
    let status = snapshot.dword_at(offset + 4).unwrap();
    crate::bits::lemma_flag16_mask(command, 0);
    crate::bits::lemma_flag16_mask(command, 1);
    crate::bits::lemma_field16_shift_mask(command, 2, 2);
    crate::bits::lemma_field16_shift_mask(command, 4, 3);
    crate::bits::lemma_field32_shift_mask(status, 8, 8);
    crate::bits::lemma_field32_shift_mask(status, 3, 5);
    crate::bits::lemma_field32_shift_mask(status, 0, 3);
}

/// Decodes the PCI-X capability at `offset` from the snapshot; `None` when
/// the registers it needs were not all read.
pub fn decode_pci_x(snapshot: &ConfigSpaceSnapshot, offset: u16) -> (r: Option<PciXCapability>)
    requires
        snapshot.wf(),
    ensures
        r == pci_x_spec(*snapshot, offset),
{
    let base = offset as u32;
    let command = read_word(snapshot, base + 2).ok()?;
    let status = read_dword(snapshot, base + 4).ok()?;

    Some(PciXCapability {
        parity_error_recovery: flag16(command, 0),
        relaxed_ordering: flag16(command, 1),
        max_memory_block: byte_field16(command, 2, 2),
        max_split: byte_field16(command, 4, 3),
        bus: byte_field32(status, 8, 8),
        device: byte_field32(status, 3, 5),
        function: byte_field32(status, 0, 3),
        status_raw: status,
    })
}

} // verus!
