//! Vital product data capability.
use vstd::prelude::*;
use crate::bits::{bits_of, flag_of, field16, flag16};
use crate::config::ConfigSpaceSnapshot;
use super::read_word;

verus! {

/// The decoded registers of a vital product data capability.
#[derive(Clone, Copy, Debug, PartialEq, Eq)]
pub struct VpdCapability {
    pub address_flag: bool,
    pub address: u16,
    pub data: u16,
}

/// The VPD capability described by its address and data registers.
pub open spec fn vpd_layout(address_register: u16, data: u16) -> VpdCapability {
    VpdCapability {
        address_flag: flag_of(address_register as int, 15),
        address: bits_of(address_register as int, 0, 15) as u16,
        data,
    }
}

/// The VPD capability at `offset`, if its registers were read.
pub open spec fn vpd_spec(snapshot: ConfigSpaceSnapshot, offset: u16) -> Option<VpdCapability> {
    let base = offset as int;
    match (snapshot.word_at(base + 2), snapshot.word_at(base + 4)) {
        (Some(address_register), Some(data)) => Some(vpd_layout(address_register, data)),
        _ => None,
    }
}

/// The VPD capability's fields by register offset and mask.
pub proof fn lemma_vpd_registers(snapshot: ConfigSpaceSnapshot, offset: u16)
    requires
        vpd_spec(snapshot, offset) is Some,
    ensures
        snapshot.word_at(offset + 2) is Some,
        snapshot.word_at(offset + 4) is Some,
        ({
            let c = vpd_spec(snapshot, offset).unwrap();
            let address_register = snapshot.word_at(offset + 2).unwrap();
            let data = snapshot.word_at(offset + 4).unwrap();
            &&& c.address_flag == (address_register & 0x8000 != 0)
            &&& c.address == address_register & 0x7fff
            &&& c.data == data
        }),
{
    vstd::bits::lemma_low_bits_mask_values();
    vstd::arithmetic::power2::lemma2_to64();
    crate::bits::lemma_masks16();
    let address_register = snapshot.word_at(offset + 2).unwrap();
    let data = snapshot.word_at(offset + 4).unwrap();
    crate::bits::lemma_flag16_mask(address_register, 15);
    crate::bits::lemma_field16_shift_mask(address_register, 0, 15);
}

/// Decodes the vital product data capability at `offset` from the snapshot; `None` when
/// the registers it needs were not all read.
pub fn decode_vpd(snapshot: &ConfigSpaceSnapshot, offset: u16) -> (r: Option<VpdCapability>)
    requires
        snapshot.wf(),
    ensures
        r == vpd_spec(*snapshot, offset),
{
    let base = offset as u32;
    let address_register = read_word(snapshot, base + 2).ok()?;
    let data = read_word(snapshot, base + 4).ok()?;

    Some(VpdCapability {
        address_flag: flag16(address_register, 15),
        address: field16(address_register, 0, 15),
        data,
    })
}

} // verus!
