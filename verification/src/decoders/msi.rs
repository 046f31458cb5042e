//! Message signalled interrupts capability.
use vstd::prelude::*;
use crate::bits::{bits_of, flag_of, byte_field16, flag16};
use crate::config::ConfigSpaceSnapshot;
use super::{read_dword, read_word};

verus! {

/// The decoded registers of an MSI capability.
#[derive(Clone, Copy, Debug, PartialEq, Eq)]
pub struct MsiCapability {
    pub enable: bool,
    /// log2 count; vectors = 1 << n
    pub multiple_message_capable: u8,
    pub multiple_message_enable: u8,
    pub is_64_bit: bool,
    pub per_vector_masking: bool,
    pub address: u64,
    pub data: u16,
}

/// The MSI capability described by its control register, message address and data.
pub open spec fn msi_layout(control: u16, address: u64, data: u16) -> MsiCapability {
    MsiCapability {
        enable: flag_of(control as int, 0),
        multiple_message_capable: bits_of(control as int, 1, 3) as u8,
        multiple_message_enable: bits_of(control as int, 4, 3) as u8,
        is_64_bit: flag_of(control as int, 7),
        per_vector_masking: flag_of(control as int, 8),
        address,
        data,
    }
}

/// The MSI capability at `offset`, if its registers were read. A 64-bit
/// capability holds the upper address half at +8 and its data at +12; a
/// 32-bit one holds its data at +8.
pub open spec fn msi_spec(snapshot: ConfigSpaceSnapshot, offset: u16) -> Option<MsiCapability> {
    let base = offset as int;
    match snapshot.word_at(base + 2) {
        None => None,
        Some(control) => if flag_of(control as int, 7) {
            match (snapshot.dword_at(base + 4), snapshot.dword_at(base + 8), snapshot.word_at(base + 12)) {
                (Some(low), Some(high), Some(data)) =>
                    Some(msi_layout(control, (low as int + high as int * 0x1_0000_0000) as u64, data)),
                _ => None,
            }
        } else {
            match (snapshot.dword_at(base + 4), snapshot.word_at(base + 8)) {
                (Some(low), Some(data)) => Some(msi_layout(control, low as u64, data)),
                _ => None,
            }
        },
    }
}

/// The MSI capability by register offset and mask: from the control word
/// at offset + 2, enable (0x0001), multiple message capable (bits 3:1) and
/// enable (bits 6:4), 64-bit addressing (0x0080) and per-vector masking
/// (0x0100). A 64-bit capability's address is the dword at offset + 4 with
/// the dword at offset + 8 as its upper half, and its data the word at
/// offset + 12; a 32-bit one's address is the dword at offset + 4 and its
/// data the word at offset + 8.
pub proof fn lemma_msi_registers(snapshot: ConfigSpaceSnapshot, offset: u16)
    requires
        msi_spec(snapshot, offset) is Some,
    ensures
        snapshot.word_at(offset + 2) is Some,
        ({
            let c = msi_spec(snapshot, offset).unwrap();
            let control = snapshot.word_at(offset + 2).unwrap();
            &&& c.enable == (control & 0x0001 != 0)
            &&& c.multiple_message_capable as u16 == (control >> 1) & 0x0007
            &&& c.multiple_message_enable as u16 == (control >> 4) & 0x0007
            &&& c.is_64_bit == (control & 0x0080 != 0)
            &&& c.per_vector_masking == (control & 0x0100 != 0)
            &&& c.is_64_bit ==> {
                &&& snapshot.dword_at(offset + 4) matches Some(low)
                &&& snapshot.dword_at(offset + 8) matches Some(high)
                &&& snapshot.word_at(offset + 12) == Some(c.data)
                &&& c.address == (low as u64) | ((high as u64) << 32u64)
            }
            &&& !c.is_64_bit ==> {
                &&& snapshot.dword_at(offset + 4) matches Some(low)
                &&& snapshot.word_at(offset + 8) == Some(c.data)
                &&& c.address == low as u64
            }
        }),
{
    vstd::bits::lemma_low_bits_mask_values();
    vstd::arithmetic::power2::lemma2_to64();
    crate::bits::lemma_masks16();
    let control = snapshot.word_at(offset + 2).unwrap();
    crate::bits::lemma_flag16_mask(control, 0);
    crate::bits::lemma_field16_shift_mask(control, 1, 3);
    crate::bits::lemma_field16_shift_mask(control, 4, 3);
    crate::bits::lemma_flag16_mask(control, 7);
    crate::bits::lemma_flag16_mask(control, 8);
    if let (Some(low), Some(high)) = (snapshot.dword_at(offset + 4), snapshot.dword_at(offset + 8)) {
        crate::bits::lemma_u64_from_halves(low, high);
    }
}

/// Decodes the MSI capability at `offset` from the snapshot; `None` when
/// the registers it needs were not all read.
pub fn decode_msi(snapshot: &ConfigSpaceSnapshot, offset: u16) -> (r: Option<MsiCapability>)
    requires
        snapshot.wf(),
    ensures
        r == msi_spec(*snapshot, offset),
{
    let base = offset as u32;
    let control = read_word(snapshot, base + 2).ok()?;

    let is_64_bit = flag16(control, 7);
    let (address, data) = if is_64_bit {
        let low = read_dword(snapshot, base + 4).ok()?;
        let high = read_dword(snapshot, base + 8).ok()?;
        let data = read_word(snapshot, base + 12).ok()?;
        ((low as u64) + (high as u64) * 0x1_0000_0000, data)
    } else {
        let low = read_dword(snapshot, base + 4).ok()?;
        let data = read_word(snapshot, base + 8).ok()?;
        (low as u64, data)
    };

    Some(MsiCapability {
        enable: flag16(control, 0),
        multiple_message_capable: byte_field16(control, 1, 3),
        multiple_message_enable: byte_field16(control, 4, 3),
        is_64_bit,
        per_vector_masking: flag16(control, 8),
        address,
        data,
    })
}

} // verus!
