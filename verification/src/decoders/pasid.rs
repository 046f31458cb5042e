//! Process address space ID capability.
use vstd::prelude::*;
use crate::bits::{bits_of, flag_of, byte_field16, flag16};
use crate::config::ConfigSpaceSnapshot;
use super::read_word;

verus! {

/// The decoded registers of a process address space ID capability.
#[derive(Clone, Copy, Debug, PartialEq, Eq)]
pub struct PasidCapability {
    pub execute_supported: bool,
    pub privileged_supported: bool,
    pub max_pasid_width: u8,
    pub enable: bool,
    pub execute_enable: bool,
    pub privileged_enable: bool,
}

/// The PASID capability described by its capability and control registers.
pub open spec fn pasid_layout(capability: u16, control: u16) -> PasidCapability {
    PasidCapability {
        execute_supported: flag_of(capability as int, 1),
        privileged_supported: flag_of(capability as int, 2),
        max_pasid_width: bits_of(capability as int, 8, 5) as u8,
        enable: flag_of(control as int, 0),
        execute_enable: flag_of(control as int, 1),
        privileged_enable: flag_of(control as int, 2),
    }
}

/// The PASID capability at `offset`, if its registers were read.
pub open spec fn pasid_spec(snapshot: ConfigSpaceSnapshot, offset: u16) -> Option<PasidCapability> {
    let base = offset as int;
    match (snapshot.word_at(base + 4), snapshot.word_at(base + 6)) {
        (Some(capability), Some(control)) => Some(pasid_layout(capability, control)),
        _ => None,
    }
}

/// The PASID capability's fields by register offset and mask.
pub proof fn lemma_pasid_registers(snapshot: ConfigSpaceSnapshot, offset: u16)
    requires
        pasid_spec(snapshot, offset) is Some,
    ensures
        snapshot.word_at(offset + 4) is Some,
        snapshot.word_at(offset + 6) is Some,
        ({
            let c = pasid_spec(snapshot, offset).unwrap();
            let capability = snapshot.word_at(offset + 4).unwrap();
            let control = snapshot.word_at(offset + 6).unwrap();
            &&& c.execute_supported == (capability & 0x0002 != 0)
            &&& c.privileged_supported == (capability & 0x0004 != 0)
            &&& c.max_pasid_width as u16 == (capability >> 8) & 0x001f
            &&& c.enable == (control & 0x0001 != 0)
            &&& c.execute_enable == (control & 0x0002 != 0)
            &&& c.privileged_enable == (control & 0x0004 != 0)
        }),
{
    vstd::bits::lemma_low_bits_mask_values();
    vstd::arithmetic::power2::lemma2_to64();
    crate::bits::lemma_masks16();
    let capability = snapshot.word_at(offset + 4).unwrap();
    let control = snapshot.word_at(offset + 6).unwrap();
    crate::bits::lemma_flag16_mask(capability, 1);
    crate::bits::lemma_flag16_mask(capability, 2);
    crate::bits::lemma_field16_shift_mask(capability, 8, 5);
    crate::bits::lemma_flag16_mask(control, 0);
    crate::bits::lemma_flag16_mask(control, 1);
    crate::bits::lemma_flag16_mask(control, 2);
}

/// Decodes the process address space ID capability at `offset` from the snapshot; `None` when
/// the registers it needs were not all read.
pub fn decode_pasid(snapshot: &ConfigSpaceSnapshot, offset: u16) -> (r: Option<PasidCapability>)
    requires
        snapshot.wf(),
    ensures
        r == pasid_spec(*snapshot, offset),
{
    let base = offset as u32;
    let capability = read_word(snapshot, base + 4).ok()?;
    let control = read_word(snapshot, base + 6).ok()?;

    Some(PasidCapability {
        execute_supported: flag16(capability, 1),
        privileged_supported: flag16(capability, 2),
        max_pasid_width: byte_field16(capability, 8, 5),
        enable: flag16(control, 0),
        execute_enable: flag16(control, 1),
        privileged_enable: flag16(control, 2),
    })
}

} // verus!
