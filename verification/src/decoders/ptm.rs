//! Precision time measurement capability.
use vstd::prelude::*;
use crate::bits::{bits_of, flag_of, byte_field32, flag32};
use crate::config::ConfigSpaceSnapshot;
use super::read_dword;

verus! {

/// The decoded registers of a precision time measurement capability.
#[derive(Clone, Copy, Debug, PartialEq, Eq)]
pub struct PtmCapability {
    pub root_capable: bool,
    pub clock_capable: bool,
    pub enable: bool,
    pub root_select: bool,
    pub granularity: u8,
}

/// The PTM capability described by its capability and control registers.
pub open spec fn ptm_layout(capability: u32, control: u32) -> PtmCapability {
    PtmCapability {
        root_capable: flag_of(capability as int, 0),
        clock_capable: flag_of(capability as int, 1),
        enable: flag_of(control as int, 0),
        root_select: flag_of(control as int, 1),
        granularity: bits_of(control as int, 24, 8) as u8,
    }
}

/// The PTM capability at `offset`, if its registers were read.
pub open spec fn ptm_spec(snapshot: ConfigSpaceSnapshot, offset: u16) -> Option<PtmCapability> {
    let base = offset as int;
    match (snapshot.dword_at(base + 4), snapshot.dword_at(base + 8)) {
        (Some(capability), Some(control)) => Some(ptm_layout(capability, control)),
        _ => None,
    }
}

/// The PTM capability's fields by register offset and mask.
pub proof fn lemma_ptm_registers(snapshot: ConfigSpaceSnapshot, offset: u16)
    requires
        ptm_spec(snapshot, offset) is Some,
    ensures
        snapshot.dword_at(offset + 4) is Some,
        snapshot.dword_at(offset + 8) is Some,
        ({
            let c = ptm_spec(snapshot, offset).unwrap();
            let capability = snapshot.dword_at(offset + 4).unwrap();
            let control = snapshot.dword_at(offset + 8).unwrap();
            &&& c.root_capable == (capability & 0x0000_0001 != 0)
            &&& c.clock_capable == (capability & 0x0000_0002 != 0)
            &&& c.enable == (control & 0x0000_0001 != 0)
            &&& c.root_select == (control & 0x0000_0002 != 0)
            &&& c.granularity as u32 == (control >> 24) & 0x0000_00ff
        }),
{
    vstd::bits::lemma_low_bits_mask_values();
    vstd::arithmetic::power2::lemma2_to64();
    crate::bits::lemma_masks32();
    let capability = snapshot.dword_at(offset + 4).unwrap();
    let control = snapshot.dword_at(offset + 8).unwrap();
    crate::bits::lemma_flag32_mask(capability, 0);
    crate::bits::lemma_flag32_mask(capability, 1);
    crate::bits::lemma_flag32_mask(control, 0);
    crate::bits::lemma_flag32_mask(control, 1);
    crate::bits::lemma_field32_shift_mask(control, 24, 8);
}

/// Decodes the precision time measurement capability at `offset` from the snapshot; `None` when
/// the registers it needs were not all read.
pub fn decode_ptm(snapshot: &ConfigSpaceSnapshot, offset: u16) -> (r: Option<PtmCapability>)
    requires
        snapshot.wf(),
    ensures
        r == ptm_spec(*snapshot, offset),
{
    let base = offset as u32;
    let capability = read_dword(snapshot, base + 4).ok()?;
    let control = read_dword(snapshot, base + 8).ok()?;

    Some(PtmCapability {
        root_capable: flag32(capability, 0),
        clock_capable: flag32(capability, 1),
        enable: flag32(control, 0),
        root_select: flag32(control, 1),
        granularity: byte_field32(control, 24, 8),
    })
}

} // verus!
