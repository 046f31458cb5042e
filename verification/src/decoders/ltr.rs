//! Latency tolerance reporting capability.
use vstd::prelude::*;
use crate::bits::{bits_of, byte_field32, word_field32};
use crate::config::ConfigSpaceSnapshot;
use super::read_dword;

verus! {

/// The decoded registers of a latency tolerance reporting capability.
#[derive(Clone, Copy, Debug, PartialEq, Eq)]
pub struct LtrCapability {
    pub snoop_value: u16,
    pub snoop_scale: u8,
    pub no_snoop_value: u16,
    pub no_snoop_scale: u8,
}

/// The LTR capability described by its max-latency register.
pub open spec fn ltr_layout(latency: u32) -> LtrCapability {
    LtrCapability {
        snoop_value: bits_of(latency as int, 0, 10) as u16,
        snoop_scale: bits_of(latency as int, 10, 3) as u8,
        no_snoop_value: bits_of(latency as int, 16, 10) as u16,
        no_snoop_scale: bits_of(latency as int, 26, 3) as u8,
    }
}

/// The LTR capability at `offset`, if its register was read.
pub open spec fn ltr_spec(snapshot: ConfigSpaceSnapshot, offset: u16) -> Option<LtrCapability> {
    match snapshot.dword_at(offset as int + 4) {
        Some(latency) => Some(ltr_layout(latency)),
        None => None,
    }
}

/// The LTR capability's fields by register offset and mask: snoop and
/// no-snoop latency values and scales from the dword at offset + 4.
pub proof fn lemma_ltr_registers(snapshot: ConfigSpaceSnapshot, offset: u16)
    requires
        ltr_spec(snapshot, offset) is Some,
    ensures
        snapshot.dword_at(offset + 4) is Some,
        ({
            let c = ltr_spec(snapshot, offset).unwrap();
            let latency = snapshot.dword_at(offset + 4).unwrap();
            &&& c.snoop_value as u32 == latency & 0x0000_03ff
            &&& c.snoop_scale as u32 == (latency >> 10) & 0x0000_0007
            &&& c.no_snoop_value as u32 == (latency >> 16) & 0x0000_03ff
            &&& c.no_snoop_scale as u32 == (latency >> 26) & 0x0000_0007
        }),
{
    vstd::bits::lemma_low_bits_mask_values();
    vstd::arithmetic::power2::lemma2_to64();
    let latency = snapshot.dword_at(offset + 4).unwrap();
    crate::bits::lemma_field32_shift_mask(latency, 0, 10);
    crate::bits::lemma_field32_shift_mask(latency, 10, 3);
    crate::bits::lemma_field32_shift_mask(latency, 16, 10);
    crate::bits::lemma_field32_shift_mask(latency, 26, 3);
}

/// Decodes the latency tolerance reporting capability at `offset` from the snapshot; `None` when
/// the registers it needs were not all read.
pub fn decode_ltr(snapshot: &ConfigSpaceSnapshot, offset: u16) -> (r: Option<LtrCapability>)
    requires
        snapshot.wf(),
    ensures
        r == ltr_spec(*snapshot, offset),
{
    let base = offset as u32;
    let latency = read_dword(snapshot, base + 4).ok()?;

    Some(LtrCapability {
        snoop_value: word_field32(latency, 0, 10),
        snoop_scale: byte_field32(latency, 10, 3),
        no_snoop_value: word_field32(latency, 16, 10),
        no_snoop_scale: byte_field32(latency, 26, 3),
    })
}

} // verus!
