//! Slot identification capability.
use vstd::prelude::*;
use crate::bits::{bits_of, flag_of, byte_field32, flag32};
use crate::config::ConfigSpaceSnapshot;
use super::read_byte;

verus! {

/// The decoded registers of a slot identification capability.
#[derive(Clone, Copy, Debug, PartialEq, Eq)]
pub struct SlotIdCapability {
    pub slots: u8,
    pub first: bool,
    pub chassis: u8,
}

/// The slot identification capability described by its slot and chassis registers.
pub open spec fn slot_id_layout(slot: u8, chassis: u8) -> SlotIdCapability {
    SlotIdCapability {
        slots: bits_of(slot as int, 0, 7) as u8,
        first: flag_of(slot as int, 7),
        chassis,
    }
}

/// The slot identification capability at `offset`, if its registers were read.
pub open spec fn slot_id_spec(snapshot: ConfigSpaceSnapshot, offset: u16) -> Option<SlotIdCapability> {
    let base = offset as int;
    match (snapshot.byte_at(base + 2), snapshot.byte_at(base + 3)) {
        (Some(slot), Some(chassis)) => Some(slot_id_layout(slot, chassis)),
        _ => None,
    }
}

/// The slot identification capability by register offset and mask: the
/// slot count in bits 6:0 and the first-in-chassis flag (0x80) of the byte
/// at offset + 2, and the chassis number, the byte at offset + 3.
pub proof fn lemma_slot_id_registers(snapshot: ConfigSpaceSnapshot, offset: u16)
    requires
        slot_id_spec(snapshot, offset) is Some,
    ensures
        snapshot.byte_at(offset + 2) is Some,
        snapshot.byte_at(offset + 3) is Some,
        ({
            let c = slot_id_spec(snapshot, offset).unwrap();
            let slot = snapshot.byte_at(offset + 2).unwrap() as u16;
            &&& c.slots as u16 == slot & 0x007f
            &&& c.first == (slot & 0x0080 != 0)
            &&& snapshot.byte_at(offset + 3) == Some(c.chassis)
        }),
{
    vstd::bits::lemma_low_bits_mask_values();
    vstd::arithmetic::power2::lemma2_to64();
    crate::bits::lemma_masks16();
    let slot = snapshot.byte_at(offset + 2).unwrap() as u16;
    crate::bits::lemma_field16_shift_mask(slot, 0, 7);
    crate::bits::lemma_flag16_mask(slot, 7);
}

/// Decodes the slot identification capability at `offset` from the snapshot; `None` when
/// the registers it needs were not all read.
pub fn decode_slot_id(snapshot: &ConfigSpaceSnapshot, offset: u16) -> (r: Option<SlotIdCapability>)
    requires
        snapshot.wf(),
    ensures
        r == slot_id_spec(*snapshot, offset),
{
    let base = offset as u32;
    let slot = read_byte(snapshot, base + 2).ok()?;
    let chassis = read_byte(snapshot, base + 3).ok()?;

    Some(SlotIdCapability {
        slots: byte_field32(slot as u32, 0, 7),
        first: flag32(slot as u32, 7),
        chassis,
    })
}

} // verus!
