//! Address translation services capability.
use vstd::prelude::*;
use crate::bits::{bits_of, flag_of, byte_field16, flag16};
use crate::config::ConfigSpaceSnapshot;
use super::read_word;

verus! {

/// The decoded registers of an address translation services capability.
#[derive(Clone, Copy, Debug, PartialEq, Eq)]
pub struct AtsCapability {
    pub invalidate_queue_depth: u8,
    pub enable: bool,
    pub page_aligned: bool,
    pub smallest_translation_unit: u8,
}

/// The ATS capability described by its capability and control registers.
pub open spec fn ats_layout(capability: u16, control: u16) -> AtsCapability {
    AtsCapability {
        invalidate_queue_depth: bits_of(capability as int, 0, 5) as u8,
        enable: flag_of(control as int, 15),
        page_aligned: flag_of(control as int, 12),
        smallest_translation_unit: bits_of(control as int, 0, 5) as u8,
    }
}

/// The ATS capability at `offset`, if its registers were read.
pub open spec fn ats_spec(snapshot: ConfigSpaceSnapshot, offset: u16) -> Option<AtsCapability> {
    let base = offset as int;
    match (snapshot.word_at(base + 4), snapshot.word_at(base + 6)) {
        (Some(capability), Some(control)) => Some(ats_layout(capability, control)),
        _ => None,
    }
}

/// The ATS capability's fields by register offset and mask.
pub proof fn lemma_ats_registers(snapshot: ConfigSpaceSnapshot, offset: u16)
    requires
        ats_spec(snapshot, offset) is Some,
    ensures
        snapshot.word_at(offset + 4) is Some,
        snapshot.word_at(offset + 6) is Some,
        ({
            let c = ats_spec(snapshot, offset).unwrap();
            let capability = snapshot.word_at(offset + 4).unwrap();
            let control = snapshot.word_at(offset + 6).unwrap();
            &&& c.invalidate_queue_depth as u16 == capability & 0x001f
            &&& c.enable == (control & 0x8000 != 0)
            &&& c.page_aligned == (control & 0x1000 != 0)
            &&& c.smallest_translation_unit as u16 == control & 0x001f
        }),
{
    vstd::bits::lemma_low_bits_mask_values();
    vstd::arithmetic::power2::lemma2_to64();
    crate::bits::lemma_masks16();
    let capability = snapshot.word_at(offset + 4).unwrap();
    let control = snapshot.word_at(offset + 6).unwrap();
    crate::bits::lemma_field16_shift_mask(capability, 0, 5);
    crate::bits::lemma_flag16_mask(control, 15);
    crate::bits::lemma_flag16_mask(control, 12);
    crate::bits::lemma_field16_shift_mask(control, 0, 5);
}

/// Decodes the address translation services capability at `offset` from the snapshot; `None` when
/// the registers it needs were not all read.
pub fn decode_ats(snapshot: &ConfigSpaceSnapshot, offset: u16) -> (r: Option<AtsCapability>)
    requires
        snapshot.wf(),
    ensures
        r == ats_spec(*snapshot, offset),
{
    let base = offset as u32;
    let capability = read_word(snapshot, base + 4).ok()?;
    let control = read_word(snapshot, base + 6).ok()?;

    Some(AtsCapability {
        invalidate_queue_depth: byte_field16(capability, 0, 5),
        enable: flag16(control, 15),
        page_aligned: flag16(control, 12),
        smallest_translation_unit: byte_field16(control, 0, 5),
    })
}

} // verus!
