//! MSI-X capability.
use vstd::prelude::*;
use crate::bits::{bits_of, flag_of, field16, field32, flag16};
use crate::config::ConfigSpaceSnapshot;
use super::{read_dword, read_word};

verus! {

/// The decoded registers of an MSI-X capability.
#[derive(Clone, Copy, Debug, PartialEq, Eq)]
pub struct MsiXCapability {
    pub enable: bool,
    pub count: u16,
    pub masked: bool,
    pub table_bar: u8,
    pub table_offset: u32,
    pub pba_bar: u8,
    pub pba_offset: u32,
}

/// The MSI-X capability described by its control, table and PBA registers.
/// The low three bits of the table and PBA registers select the BAR; the
/// rest is the offset into it. The table size field holds the count minus one.
pub open spec fn msix_layout(control: u16, table: u32, pba: u32) -> MsiXCapability {
    MsiXCapability {
        enable: flag_of(control as int, 15),
        count: (bits_of(control as int, 0, 11) + 1) as u16,
        masked: flag_of(control as int, 14),
        table_bar: bits_of(table as int, 0, 3) as u8,
        table_offset: (table - bits_of(table as int, 0, 3)) as u32,
        pba_bar: bits_of(pba as int, 0, 3) as u8,
        pba_offset: (pba - bits_of(pba as int, 0, 3)) as u32,
    }
}

/// The MSI-X capability at `offset`, if its registers were read.
pub open spec fn msix_spec(snapshot: ConfigSpaceSnapshot, offset: u16) -> Option<MsiXCapability> {
    let base = offset as int;
    match (snapshot.word_at(base + 2), snapshot.dword_at(base + 4), snapshot.dword_at(base + 8)) {
        (Some(control), Some(table), Some(pba)) => Some(msix_layout(control, table, pba)),
        _ => None,
    }
}

/// The MSI-X capability by register offset and mask: from the control
/// word at offset + 2, enable (0x8000), function mask (0x4000) and the
/// table size (bits 10:0) plus one as the count; from the table dword at
/// offset + 4 and the PBA dword at offset + 8, the BAR in bits 2:0 and the
/// offset in the rest.
pub proof fn lemma_msix_registers(snapshot: ConfigSpaceSnapshot, offset: u16)
    requires
        msix_spec(snapshot, offset) is Some,
    ensures
        snapshot.word_at(offset + 2) is Some,
        snapshot.dword_at(offset + 4) is Some,
        snapshot.dword_at(offset + 8) is Some,
        ({
            let c = msix_spec(snapshot, offset).unwrap();
            let control = snapshot.word_at(offset + 2).unwrap();
            let table = snapshot.dword_at(offset + 4).unwrap();
            let pba = snapshot.dword_at(offset + 8).unwrap();
            &&& c.enable == (control & 0x8000 != 0)
            &&& c.count == (control & 0x07ff) + 1
            &&& c.masked == (control & 0x4000 != 0)
            &&& c.table_bar as u32 == table & 0x7
            &&& c.table_offset == table & 0xffff_fff8
            &&& c.pba_bar as u32 == pba & 0x7
            &&& c.pba_offset == pba & 0xffff_fff8
        }),
{
    vstd::bits::lemma_low_bits_mask_values();
    vstd::arithmetic::power2::lemma2_to64();
    crate::bits::lemma_masks16();
    let control = snapshot.word_at(offset + 2).unwrap();
    let table = snapshot.dword_at(offset + 4).unwrap();
    let pba = snapshot.dword_at(offset + 8).unwrap();
    crate::bits::lemma_flag16_mask(control, 15);
    crate::bits::lemma_flag16_mask(control, 14);
    crate::bits::lemma_field16_shift_mask(control, 0, 11);
    crate::bits::lemma_field32_shift_mask(table, 0, 3);
    crate::bits::lemma_field32_shift_mask(pba, 0, 3);
    assert(table - (table & 0x7u32) == table & 0xffff_fff8u32 && pba - (pba & 0x7u32) == pba & 0xffff_fff8u32) by (bit_vector);
}

/// Decodes the MSI-X capability at `offset` from the snapshot; `None` when
/// the registers it needs were not all read.
pub fn decode_msix(snapshot: &ConfigSpaceSnapshot, offset: u16) -> (r: Option<MsiXCapability>)
    requires
        snapshot.wf(),
    ensures
        r == msix_spec(*snapshot, offset),
{
    let base = offset as u32;
    let control = read_word(snapshot, base + 2).ok()?;
    let table = read_dword(snapshot, base + 4).ok()?;
    let pba = read_dword(snapshot, base + 8).ok()?;

    let table_bar = field32(table, 0, 3);
    let pba_bar = field32(pba, 0, 3);
    proof {
        crate::bits::lemma_low_bits_le(table as int, 3);
        crate::bits::lemma_low_bits_le(pba as int, 3);
        vstd::arithmetic::power2::lemma2_to64();
    }
    Some(MsiXCapability {
        enable: flag16(control, 15),
        count: field16(control, 0, 11) + 1,
        masked: flag16(control, 14),
        table_bar: table_bar as u8,
        table_offset: table - table_bar,
        pba_bar: pba_bar as u8,
        pba_offset: pba - pba_bar,
    })
}

} // verus!
