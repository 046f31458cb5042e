//! Virtual channel capability.
use vstd::prelude::*;
use crate::bits::{bits_of, byte_field32};
use crate::config::ConfigSpaceSnapshot;
use super::{read_dword, read_word};

verus! {

#[derive(Clone, Copy, Debug, PartialEq, Eq)]
pub struct VcResource {
    pub control: u32,
    pub status: u32,
    pub capability: u32,
}

/// The decoded registers of a virtual channel capability.
#[derive(Clone, Debug, PartialEq, Eq)]
pub struct VcCapability {
    pub evc_count: u8,
    pub lpevc: u8,
    pub reference_clock: u8,
    pub pat_entry_bits: u8,
    pub arbitration_table_position: u8,
    pub port_control: u16,
    pub port_status: u16,
    pub resources: Vec<VcResource>,
}

/// The address of the registers of resource `i` of the capability at `base`.
pub open spec fn vc_entry(base: int, i: int) -> int {
    base + 20 + 12 * i
}

/// Whether the three registers of resource `i` were read.
pub open spec fn vc_resource_read(snapshot: ConfigSpaceSnapshot, base: int, i: int) -> bool {
    &&& snapshot.dword_at(vc_entry(base, i)) is Some
    &&& snapshot.dword_at(vc_entry(base, i) + 4) is Some
    &&& snapshot.dword_at(vc_entry(base, i) + 8) is Some
}

/// Resource `i` of the capability at `base`.
pub open spec fn vc_resource(snapshot: ConfigSpaceSnapshot, base: int, i: int) -> VcResource {
    VcResource {
        control: snapshot.dword_at(vc_entry(base, i)).unwrap(),
        status: snapshot.dword_at(vc_entry(base, i) + 4).unwrap(),
        capability: snapshot.dword_at(vc_entry(base, i) + 8).unwrap(),
    }
}

/// Whether `r` is the virtual channel capability at `offset`: it lists the
/// resources 0 through the low-priority extended VC count.
pub open spec fn vc_matches(snapshot: ConfigSpaceSnapshot, offset: u16, r: Option<VcCapability>) -> bool {
    let base = offset as int;
    match (snapshot.dword_at(base + 4), snapshot.dword_at(base + 8), snapshot.word_at(base + 16), snapshot.word_at(base + 18)) {
        (Some(cr1), Some(cr2), Some(port_control), Some(port_status)) => {
            let count = bits_of(cr1 as int, 4, 3) + 1;
            if forall|i: int| 0 <= i < count ==> #[trigger] vc_resource_read(snapshot, base, i) {
                &&& r is Some
                &&& r.unwrap().evc_count == bits_of(cr1 as int, 0, 3)
                &&& r.unwrap().lpevc == bits_of(cr1 as int, 4, 3)
                &&& r.unwrap().reference_clock == bits_of(cr1 as int, 8, 2)
                &&& r.unwrap().pat_entry_bits == bits_of(cr1 as int, 10, 2)
                &&& r.unwrap().arbitration_table_position == bits_of(cr2 as int, 24, 8)
                &&& r.unwrap().port_control == port_control
                &&& r.unwrap().port_status == port_status
                &&& r.unwrap().resources@ == Seq::new(count as nat, |i: int| vc_resource(snapshot, base, i))
            } else {
                r is None
            }
        },
        _ => r is None,
    }
}

/// The VC registers by offset and mask: from port VC capability 1 (the
/// dword at offset + 4), the extended VC count (bits 2:0), the low-priority
/// extended VC count (bits 6:4), the reference clock (bits 9:8) and the
/// arbitration table entry size (bits 11:10); the arbitration table
/// position in bits 31:24 of port VC capability 2 (offset + 8); the port
/// control and status words at offset + 16 and + 18; and one resource per
/// VC from 0 to the low-priority count, each the three dwords from offset +
/// 20 + 12 times its number.
pub proof fn lemma_vc_registers(snapshot: ConfigSpaceSnapshot, offset: u16, r: Option<VcCapability>)
    requires
        vc_matches(snapshot, offset, r),
        r is Some,
    ensures
        snapshot.dword_at(offset + 4) is Some,
        snapshot.dword_at(offset + 8) is Some,
        ({
            let c = r.unwrap();
            let o = offset as int;
            let cr1 = snapshot.dword_at(o + 4).unwrap();
            let cr2 = snapshot.dword_at(o + 8).unwrap();
            &&& c.evc_count as u32 == cr1 & 0x0000_0007
            &&& c.lpevc as u32 == (cr1 >> 4) & 0x0000_0007
            &&& c.reference_clock as u32 == (cr1 >> 8) & 0x0000_0003
            &&& c.pat_entry_bits as u32 == (cr1 >> 10) & 0x0000_0003
            &&& c.arbitration_table_position as u32 == (cr2 >> 24) & 0x0000_00ff
            &&& snapshot.word_at(o + 16) == Some(c.port_control)
            &&& snapshot.word_at(o + 18) == Some(c.port_status)
            &&& c.resources@.len() == c.lpevc + 1
            &&& forall|i: int| 0 <= i < c.resources@.len() ==> {
                &&& snapshot.dword_at(o + 20 + 12 * i) == Some((#[trigger] c.resources@[i]).control)
                &&& snapshot.dword_at(o + 24 + 12 * i) == Some(c.resources@[i].status)
                &&& snapshot.dword_at(o + 28 + 12 * i) == Some(c.resources@[i].capability)
            }
        }),
{
    vstd::bits::lemma_low_bits_mask_values();
    vstd::arithmetic::power2::lemma2_to64();
    let o = offset as int;
    let cr1 = snapshot.dword_at(o + 4).unwrap();
    let cr2 = snapshot.dword_at(o + 8).unwrap();
    crate::bits::lemma_field32_shift_mask(cr1, 0, 3);
    crate::bits::lemma_field32_shift_mask(cr1, 4, 3);
    crate::bits::lemma_field32_shift_mask(cr1, 8, 2);
    crate::bits::lemma_field32_shift_mask(cr1, 10, 2);
    crate::bits::lemma_field32_shift_mask(cr2, 24, 8);
    let c = r.unwrap();
    assert forall|i: int| 0 <= i < c.resources@.len() implies {
        &&& snapshot.dword_at(o + 20 + 12 * i) == Some((#[trigger] c.resources@[i]).control)
        &&& snapshot.dword_at(o + 24 + 12 * i) == Some(c.resources@[i].status)
        &&& snapshot.dword_at(o + 28 + 12 * i) == Some(c.resources@[i].capability)
    } by {
        assert(vc_resource_read(snapshot, o, i));
        assert(vc_entry(o, i) + 4 == o + 24 + 12 * i);
        assert(vc_entry(o, i) + 8 == o + 28 + 12 * i);
    }
}

/// Decodes the virtual channel capability at `offset` from the snapshot; `None` when
/// the registers it needs were not all read.
pub fn decode_vc(snapshot: &ConfigSpaceSnapshot, offset: u16) -> (r: Option<VcCapability>)
    requires
        snapshot.wf(),
    ensures
        vc_matches(*snapshot, offset, r),
{
    let base = offset as u32;

    let cr1 = read_dword(snapshot, base + 4).ok()?;
    let cr2 = read_dword(snapshot, base + 8).ok()?;
    let port_control = read_word(snapshot, base + 16).ok()?;
    let port_status = read_word(snapshot, base + 18).ok()?;

    let lpevc = byte_field32(cr1, 4, 3);
    proof {
        crate::bits::lemma_bits_of_bound(cr1 as int, 4, 3);
        vstd::arithmetic::power2::lemma2_to64();
    }

    let mut resources: Vec<VcResource> = Vec::new();
    let mut index: u32 = 0;
    while index <= lpevc as u32
        invariant
            snapshot.wf(),
            base == offset as u32,
            lpevc < 8,
            lpevc == bits_of(cr1 as int, 4, 3),
            snapshot.dword_at(base + 4) == Some(cr1),
            snapshot.dword_at(base + 8) == Some(cr2),
            snapshot.word_at(base + 16) == Some(port_control),
            snapshot.word_at(base + 18) == Some(port_status),
            index <= lpevc + 1,
            resources@ =~= Seq::new(index as nat, |i: int| vc_resource(*snapshot, base as int, i)),
            forall|i: int| 0 <= i < index ==> #[trigger] vc_resource_read(*snapshot, base as int, i),
        decreases lpevc + 1 - index,
    {
        let entry = base + 20 + index * 12;
        let control = match read_dword(snapshot, entry) {
            Ok(v) => v,
            Err(_) => {
                proof { assert(!vc_resource_read(*snapshot, base as int, index as int)); }
                return None;
            },
        };
        let status = match read_dword(snapshot, entry + 4) {
            Ok(v) => v,
            Err(_) => {
                proof { assert(!vc_resource_read(*snapshot, base as int, index as int)); }
                return None;
            },
        };
        let capability = match read_dword(snapshot, entry + 8) {
            Ok(v) => v,
            Err(_) => {
                proof { assert(!vc_resource_read(*snapshot, base as int, index as int)); }
                return None;
            },
        };
        resources.push(VcResource { control, status, capability });
        index = index + 1;
    }

    Some(VcCapability {
        evc_count: byte_field32(cr1, 0, 3),
        lpevc,
        reference_clock: byte_field32(cr1, 8, 2),
        pat_entry_bits: byte_field32(cr1, 10, 2),
        arbitration_table_position: byte_field32(cr2, 24, 8),
        port_control,
        port_status,
        resources,
    })
}

} // verus!
