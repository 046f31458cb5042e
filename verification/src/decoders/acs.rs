//! Access control services capability.
use vstd::prelude::*;
use crate::bits::{bits_of, flag_of, field16, flag16};
use crate::config::ConfigSpaceSnapshot;
use super::{read_byte, read_word};

verus! {

/// The decoded registers of an access control services capability.
#[derive(Clone, Debug, PartialEq, Eq)]
pub struct AcsCapability {
    pub capability: u16,
    pub control: u16,
    pub egress_vector: Vec<u8>,
}

/// The number of bytes of the egress control vector: one bit per function,
/// when the capability register announces egress control.
pub open spec fn acs_egress_len(capability: u16) -> int {
    if flag_of(capability as int, 5) {
        (bits_of(capability as int, 8, 8) + 7) / 8
    } else {
        0
    }
}

/// Whether `r` is the ACS capability at `offset`.
pub open spec fn acs_matches(snapshot: ConfigSpaceSnapshot, offset: u16, r: Option<AcsCapability>) -> bool {
    let base = offset as int;
    match (snapshot.word_at(base + 4), snapshot.word_at(base + 6)) {
        (Some(capability), Some(control)) =>
            if snapshot.covers_range(base + 8, acs_egress_len(capability)) {
                &&& r is Some
                &&& r.unwrap().capability == capability
                &&& r.unwrap().control == control
                &&& r.unwrap().egress_vector@ == snapshot.bytes_of(base + 8, acs_egress_len(capability))
            } else {
                r is None
            },
        _ => r is None,
    }
}

/// The ACS registers by their offsets from the capability: the
/// capability word at 0x04 and the control word at 0x06; when the
/// capability word announces egress control (0x0020), the egress control
/// vector is the bytes from 0x08 on, one bit per function for the number of
/// functions in bits 15:8, rounded up to whole bytes; otherwise it is empty.
pub proof fn lemma_acs_registers(snapshot: ConfigSpaceSnapshot, offset: u16, r: Option<AcsCapability>)
    requires
        acs_matches(snapshot, offset, r),
        r is Some,
    ensures
        ({
            let c = r.unwrap();
            let o = offset as int;
            &&& snapshot.word_at(o + 4) == Some(c.capability)
            &&& snapshot.word_at(o + 6) == Some(c.control)
            &&& c.capability & 0x0020 != 0 ==> {
                let n = (((c.capability >> 8) & 0x00ff) as int + 7) / 8;
                &&& c.egress_vector@.len() == n
                &&& forall|i: int| 0 <= i < n ==> snapshot.byte_at(o + 8 + i) == Some(#[trigger] c.egress_vector@[i])
            }
            &&& c.capability & 0x0020 == 0 ==> c.egress_vector@.len() == 0
        }),
{
    vstd::bits::lemma_low_bits_mask_values();
    vstd::arithmetic::power2::lemma2_to64();
    crate::bits::lemma_masks16();
    let c = r.unwrap();
    let o = offset as int;
    crate::bits::lemma_flag16_mask(c.capability, 5);
    crate::bits::lemma_field16_shift_mask(c.capability, 8, 8);
    let n = acs_egress_len(c.capability);
    assert forall|i: int| 0 <= i < n implies snapshot.byte_at(o + 8 + i) == Some(#[trigger] c.egress_vector@[i]) by {
        assert(snapshot.byte_at(o + 8 + i) is Some);
    }
}

/// Decodes the access control services capability at `offset` from the snapshot; `None` when
/// the registers it needs were not all read.
pub fn decode_acs(snapshot: &ConfigSpaceSnapshot, offset: u16) -> (r: Option<AcsCapability>)
    requires
        snapshot.wf(),
    ensures
        acs_matches(*snapshot, offset, r),
{
    let base = offset as u32;
    let capability = read_word(snapshot, base + 4).ok()?;
    let control = read_word(snapshot, base + 6).ok()?;

    let mut egress_vector: Vec<u8> = Vec::new();
    if flag16(capability, 5) {
        let bits = field16(capability, 8, 8) as u32;
        proof {
            vstd::arithmetic::power2::lemma2_to64();
        }
        let bytes = (bits + 7) / 8;
        let mut index: u32 = 0;
        while index < bytes
            invariant
                snapshot.wf(),
                bytes == acs_egress_len(capability),
                bytes <= 32,
                index <= bytes,
                base == offset as u32,
                snapshot.word_at(base + 4) == Some(capability),
                snapshot.word_at(base + 6) == Some(control),
                egress_vector@ =~= snapshot.bytes_of(base + 8, index as int),
                snapshot.covers_range(base + 8, index as int),
            decreases bytes - index,
        {
            let b = match read_byte(snapshot, base + 8 + index) {
                Ok(b) => b,
                Err(_) => {
                    proof {
                        assert(snapshot.byte_at(base + 8 + index) is None);
                        assert(!snapshot.covers_range(base + 8, acs_egress_len(capability)));
                    }
                    return None;
                },
            };
            egress_vector.push(b);
            index = index + 1;
        }
    } else {
        proof {
            assert(egress_vector@ =~= snapshot.bytes_of(base + 8, 0));
        }
    }

    Some(AcsCapability { capability, control, egress_vector })
}

} // verus!
