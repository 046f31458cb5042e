//! Power management capability.
use vstd::prelude::*;
use crate::bits::{bits_of, flag_of, byte_field16, flag16};
use crate::config::ConfigSpaceSnapshot;
use super::read_word;

verus! {

/// The decoded registers of a power management capability.
#[derive(Clone, Debug, PartialEq, Eq)]
pub struct PmCapability {
    pub version: u8,
    pub pme_clock: bool,
    pub dsi: bool,
    pub aux_current: u8,
    pub d1_support: bool,
    pub d2_support: bool,
    /// bitmask: bit 0 = D0 ... bit 4 = D3cold
    pub pme_support: u8,
    /// 0 = D0, 1 = D1, 2 = D2, 3 = D3hot
    pub power_state: u8,
    pub no_soft_reset: bool,
    pub pme_enable: bool,
    pub data_select: u8,
    pub data_scale: u8,
    pub pme_status: bool,
}

/// The power management capability described by its PMC and PMCSR registers.
pub open spec fn pm_layout(pmc: u16, pmcsr: u16) -> PmCapability {
    PmCapability {
        version: bits_of(pmc as int, 0, 3) as u8,
        pme_clock: flag_of(pmc as int, 3),
        dsi: flag_of(pmc as int, 4),
        aux_current: bits_of(pmc as int, 6, 2) as u8,
        d1_support: flag_of(pmc as int, 9),
        d2_support: flag_of(pmc as int, 10),
        pme_support: bits_of(pmc as int, 11, 5) as u8,
        power_state: bits_of(pmcsr as int, 0, 2) as u8,
        no_soft_reset: flag_of(pmcsr as int, 3),
        pme_enable: flag_of(pmcsr as int, 8),
        data_select: bits_of(pmcsr as int, 9, 4) as u8,
        data_scale: bits_of(pmcsr as int, 13, 2) as u8,
        pme_status: flag_of(pmcsr as int, 15),
    }
}

/// The power management capability at `offset`, if its registers were read.
pub open spec fn pm_spec(snapshot: ConfigSpaceSnapshot, offset: u16) -> Option<PmCapability> {
    let base = offset as int;
    match (snapshot.word_at(base + 2), snapshot.word_at(base + 4)) {
        (Some(pmc), Some(pmcsr)) => Some(pm_layout(pmc, pmcsr)),
        _ => None,
    }
}

/// The power management capability's fields by register offset and mask:
/// from the capabilities word at offset + 2 and the control/status word at
/// offset + 4.
pub proof fn lemma_pm_registers(snapshot: ConfigSpaceSnapshot, offset: u16)
    requires
        pm_spec(snapshot, offset) is Some,
    ensures
        snapshot.word_at(offset + 2) is Some,
        snapshot.word_at(offset + 4) is Some,
        ({
            let c = pm_spec(snapshot, offset).unwrap();
            let pmc = snapshot.word_at(offset + 2).unwrap();
            let pmcsr = snapshot.word_at(offset + 4).unwrap();
            &&& c.version as u16 == pmc & 0x0007
            &&& c.pme_clock == (pmc & 0x0008 != 0)
            &&& c.dsi == (pmc & 0x0010 != 0)
            &&& c.aux_current as u16 == (pmc >> 6) & 0x0003
            &&& c.d1_support == (pmc & 0x0200 != 0)
            &&& c.d2_support == (pmc & 0x0400 != 0)
            &&& c.pme_support as u16 == (pmc >> 11) & 0x001f
            &&& c.power_state as u16 == pmcsr & 0x0003
            &&& c.no_soft_reset == (pmcsr & 0x0008 != 0)
            &&& c.pme_enable == (pmcsr & 0x0100 != 0)
            &&& c.data_select as u16 == (pmcsr >> 9) & 0x000f
            &&& c.data_scale as u16 == (pmcsr >> 13) & 0x0003
            &&& c.pme_status == (pmcsr & 0x8000 != 0)
        }),
{
    vstd::bits::lemma_low_bits_mask_values();
    vstd::arithmetic::power2::lemma2_to64();
    crate::bits::lemma_masks16();
    let pmc = snapshot.word_at(offset + 2).unwrap();
    let pmcsr = snapshot.word_at(offset + 4).unwrap();
    crate::bits::lemma_field16_shift_mask(pmc, 0, 3);
    crate::bits::lemma_flag16_mask(pmc, 3);
    crate::bits::lemma_flag16_mask(pmc, 4);
    crate::bits::lemma_field16_shift_mask(pmc, 6, 2);
    crate::bits::lemma_flag16_mask(pmc, 9);
    crate::bits::lemma_flag16_mask(pmc, 10);
    crate::bits::lemma_field16_shift_mask(pmc, 11, 5);
    crate::bits::lemma_field16_shift_mask(pmcsr, 0, 2);
    crate::bits::lemma_flag16_mask(pmcsr, 3);
    crate::bits::lemma_flag16_mask(pmcsr, 8);
    crate::bits::lemma_field16_shift_mask(pmcsr, 9, 4);
    crate::bits::lemma_field16_shift_mask(pmcsr, 13, 2);
    crate::bits::lemma_flag16_mask(pmcsr, 15);
}

/// Decodes the power management capability at `offset` from the snapshot; `None` when
/// the registers it needs were not all read.
pub fn decode_pm(snapshot: &ConfigSpaceSnapshot, offset: u16) -> (r: Option<PmCapability>)
    requires
        snapshot.wf(),
    ensures
        r == pm_spec(*snapshot, offset),
{
    let base = offset as u32;
    let pmc = read_word(snapshot, base + 2).ok()?;
    let pmcsr = read_word(snapshot, base + 4).ok()?;

    Some(PmCapability {
        version: byte_field16(pmc, 0, 3),
        pme_clock: flag16(pmc, 3),
        dsi: flag16(pmc, 4),
        aux_current: byte_field16(pmc, 6, 2),
        d1_support: flag16(pmc, 9),
        d2_support: flag16(pmc, 10),
        pme_support: byte_field16(pmc, 11, 5),
        power_state: byte_field16(pmcsr, 0, 2),
        no_soft_reset: flag16(pmcsr, 3),
        pme_enable: flag16(pmcsr, 8),
        data_select: byte_field16(pmcsr, 9, 4),
        data_scale: byte_field16(pmcsr, 13, 2),
        pme_status: flag16(pmcsr, 15),
    })
}

} // verus!
