//! TLP processing hints requester capability.
use vstd::prelude::*;
use crate::bits::{bits_of, flag_of, byte_field32, flag32, word_field32};
use crate::config::ConfigSpaceSnapshot;
use super::{read_dword, read_word};

verus! {

/// The decoded registers of a TLP processing hints capability.
#[derive(Clone, Debug, PartialEq, Eq)]
pub struct TphCapability {
    pub interrupt_vector_supported: bool,
    pub device_specific_supported: bool,
    pub extended_requester_supported: bool,
    pub st_table_location: u8,
    pub st_table_size: u16,
    pub st_mode_select: u8,
    pub st_table: Vec<u16>,
}

/// The number of steering tag entries held in the capability itself: the
/// table size when the table location field says 1, otherwise none.
pub open spec fn tph_table_len(capability: u32) -> int {
    if bits_of(capability as int, 9, 2) == 1 { bits_of(capability as int, 16, 11) } else { 0 }
}

/// Whether every steering tag entry of the table at `base` was read.
pub open spec fn tph_table_read(snapshot: ConfigSpaceSnapshot, base: int, len: int) -> bool {
    forall|i: int| 0 <= i < len ==> (#[trigger] snapshot.word_at(base + 12 + 2 * i)) is Some
}

/// Whether `r` is the TPH requester capability at `offset`.
pub open spec fn tph_matches(snapshot: ConfigSpaceSnapshot, offset: u16, r: Option<TphCapability>) -> bool {
    let base = offset as int;
    match (snapshot.dword_at(base + 4), snapshot.dword_at(base + 8)) {
        (Some(capability), Some(control)) =>
            if tph_table_read(snapshot, base, tph_table_len(capability)) {
                &&& r is Some
                &&& r.unwrap().interrupt_vector_supported == flag_of(capability as int, 1)
                &&& r.unwrap().device_specific_supported == flag_of(capability as int, 2)
                &&& r.unwrap().extended_requester_supported == flag_of(capability as int, 8)
                &&& r.unwrap().st_table_location == bits_of(capability as int, 9, 2)
                &&& r.unwrap().st_table_size == bits_of(capability as int, 16, 11)
                &&& r.unwrap().st_mode_select == bits_of(control as int, 0, 3)
                &&& r.unwrap().st_table@ == Seq::new(tph_table_len(capability) as nat,
                    |i: int| snapshot.word_at(base + 12 + 2 * i).unwrap())
            } else {
                r is None
            },
        _ => r is None,
    }
}

/// The TPH requester registers by offset and mask: from the capability
/// dword at offset + 4, the interrupt vector (0x2), device specific (0x4)
/// and extended requester (0x100) flags, the steering tag table location
/// (bits 10:9) and size (bits 26:16); the mode select in bits 2:0 of the
/// control dword at offset + 8. The table holds, when its location is 1,
/// as many words as its size from offset + 12 on, and is empty otherwise.
pub proof fn lemma_tph_registers(snapshot: ConfigSpaceSnapshot, offset: u16, r: Option<TphCapability>)
    requires
        tph_matches(snapshot, offset, r),
        r is Some,
    ensures
        snapshot.dword_at(offset + 4) is Some,
        snapshot.dword_at(offset + 8) is Some,
        ({
            let c = r.unwrap();
            let o = offset as int;
            let capability = snapshot.dword_at(o + 4).unwrap();
            let control = snapshot.dword_at(o + 8).unwrap();
            &&& c.interrupt_vector_supported == (capability & 0x0000_0002 != 0)
            &&& c.device_specific_supported == (capability & 0x0000_0004 != 0)
            &&& c.extended_requester_supported == (capability & 0x0000_0100 != 0)
            &&& c.st_table_location as u32 == (capability >> 9) & 0x0000_0003
            &&& c.st_table_size as u32 == (capability >> 16) & 0x0000_07ff
            &&& c.st_mode_select as u32 == control & 0x0000_0007
            &&& c.st_table_location == 1 ==> {
                &&& c.st_table@.len() == c.st_table_size
                &&& forall|i: int| 0 <= i < c.st_table_size ==> snapshot.word_at(o + 12 + 2 * i) == Some(#[trigger] c.st_table@[i])
            }
            &&& c.st_table_location != 1 ==> c.st_table@.len() == 0
        }),
{
    vstd::bits::lemma_low_bits_mask_values();
    vstd::arithmetic::power2::lemma2_to64();
    crate::bits::lemma_masks32();
    let o = offset as int;
    let capability = snapshot.dword_at(o + 4).unwrap();
    let control = snapshot.dword_at(o + 8).unwrap();
    crate::bits::lemma_flag32_mask(capability, 1);
    crate::bits::lemma_flag32_mask(capability, 2);
    crate::bits::lemma_flag32_mask(capability, 8);
    crate::bits::lemma_field32_shift_mask(capability, 9, 2);
    crate::bits::lemma_field32_shift_mask(capability, 16, 11);
    crate::bits::lemma_field32_shift_mask(control, 0, 3);
    let c = r.unwrap();
    assert forall|i: int| 0 <= i < tph_table_len(capability) implies
        snapshot.word_at(o + 12 + 2 * i) == Some(#[trigger] c.st_table@[i]) by {
        assert(snapshot.word_at(o + 12 + 2 * i) is Some);
    }
}

/// Decodes the TLP processing hints capability at `offset` from the snapshot; `None` when
/// the registers it needs were not all read.
pub fn decode_tph(snapshot: &ConfigSpaceSnapshot, offset: u16) -> (r: Option<TphCapability>)
    requires
        snapshot.wf(),
    ensures
        tph_matches(*snapshot, offset, r),
{
    let base = offset as u32;
    let capability = read_dword(snapshot, base + 4).ok()?;
    let control = read_dword(snapshot, base + 8).ok()?;

    let st_table_location = byte_field32(capability, 9, 2);
    let st_table_size = word_field32(capability, 16, 11);
    proof {
        crate::bits::lemma_bits_of_bound(capability as int, 16, 11);
        vstd::arithmetic::power2::lemma2_to64();
    }

    let mut st_table: Vec<u16> = Vec::new();
    if st_table_location == 1 {
        let mut index: u16 = 0;
        while index < st_table_size
            invariant
                snapshot.wf(),
                base == offset as u32,
                st_table_size < 2048,
                st_table_size == tph_table_len(capability),
                snapshot.dword_at(base + 4) == Some(capability),
                snapshot.dword_at(base + 8) == Some(control),
                index <= st_table_size,
                st_table@ =~= Seq::new(index as nat, |i: int| snapshot.word_at(base + 12 + 2 * i).unwrap()),
                tph_table_read(*snapshot, base as int, index as int),
            decreases st_table_size - index,
        {
            let entry_offset = base + 12 + (index as u32) * 2;
            let entry = match read_word(snapshot, entry_offset) {
                Ok(entry) => entry,
                Err(_) => {
                    proof {
                        assert(snapshot.word_at(base + 12 + 2 * index) is None);
                    }
                    return None;
                },
            };
            st_table.push(entry);
            index = index + 1;
        }
    } else {
        proof {
            assert(st_table@ =~= Seq::new(0, |i: int| snapshot.word_at(base + 12 + 2 * i).unwrap()));
        }
    }

    Some(TphCapability {
        interrupt_vector_supported: flag32(capability, 1),
        device_specific_supported: flag32(capability, 2),
        extended_requester_supported: flag32(capability, 8),
        st_table_location,
        st_table_size,
        st_mode_select: byte_field32(control, 0, 3),
        st_table,
    })
}

} // verus!
