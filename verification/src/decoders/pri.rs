//! Page request interface capability.
use vstd::prelude::*;
use crate::bits::{flag_of, flag16};
use crate::config::ConfigSpaceSnapshot;
use super::{read_dword, read_word};

verus! {

/// The decoded registers of a page request interface capability.
#[derive(Clone, Copy, Debug, PartialEq, Eq)]
pub struct PriCapability {
    pub enable: bool,
    pub reset: bool,
    pub response_failure: bool,
    pub unexpected_group_index: bool,
    pub stopped: bool,
    pub outstanding_capacity: u32,
    pub outstanding_allocation: u32,
}

/// The PRI capability described by its registers.
pub open spec fn pri_layout(control: u16, status: u16, capacity: u32, allocation: u32) -> PriCapability {
    PriCapability {
        enable: flag_of(control as int, 0),
        reset: flag_of(control as int, 1),
        response_failure: flag_of(status as int, 0),
        unexpected_group_index: flag_of(status as int, 1),
        stopped: flag_of(status as int, 2),
        outstanding_capacity: capacity,
        outstanding_allocation: allocation,
    }
}

/// The PRI capability at `offset`, if its registers were read.
pub open spec fn pri_spec(snapshot: ConfigSpaceSnapshot, offset: u16) -> Option<PriCapability> {
    let base = offset as int;
    match (snapshot.word_at(base + 4), snapshot.word_at(base + 6), snapshot.dword_at(base + 8), snapshot.dword_at(base + 12)) {
        (Some(control), Some(status), Some(capacity), Some(allocation)) =>
            Some(pri_layout(control, status, capacity, allocation)),
        _ => None,
    }
}

/// The PRI capability's fields by register offset and mask.
pub proof fn lemma_pri_registers(snapshot: ConfigSpaceSnapshot, offset: u16)
    requires
        pri_spec(snapshot, offset) is Some,
    ensures
        snapshot.word_at(offset + 4) is Some,
        snapshot.word_at(offset + 6) is Some,
        snapshot.dword_at(offset + 8) is Some,
        snapshot.dword_at(offset + 12) is Some,
        ({
            let c = pri_spec(snapshot, offset).unwrap();
            let control = snapshot.word_at(offset + 4).unwrap();
            let status = snapshot.word_at(offset + 6).unwrap();
            let outstanding_capacity = snapshot.dword_at(offset + 8).unwrap();
            let outstanding_allocation = snapshot.dword_at(offset + 12).unwrap();
            &&& c.enable == (control & 0x0001 != 0)
            &&& c.reset == (control & 0x0002 != 0)
            &&& c.response_failure == (status & 0x0001 != 0)
            &&& c.unexpected_group_index == (status & 0x0002 != 0)
            &&& c.stopped == (status & 0x0004 != 0)
            &&& c.outstanding_capacity == outstanding_capacity
            &&& c.outstanding_allocation == outstanding_allocation
        }),
{
    crate::bits::lemma_masks16();
    let control = snapshot.word_at(offset + 4).unwrap();
    let status = snapshot.word_at(offset + 6).unwrap();
    let outstanding_capacity = snapshot.dword_at(offset + 8).unwrap();
    let outstanding_allocation = snapshot.dword_at(offset + 12).unwrap();
    crate::bits::lemma_flag16_mask(control, 0);
    crate::bits::lemma_flag16_mask(control, 1);
    crate::bits::lemma_flag16_mask(status, 0);
    crate::bits::lemma_flag16_mask(status, 1);
    crate::bits::lemma_flag16_mask(status, 2);
}

/// Decodes the page request interface capability at `offset` from the snapshot; `None` when
/// the registers it needs were not all read.
pub fn decode_pri(snapshot: &ConfigSpaceSnapshot, offset: u16) -> (r: Option<PriCapability>)
    requires
        snapshot.wf(),
    ensures
        r == pri_spec(*snapshot, offset),
{
    let base = offset as u32;
    let control = read_word(snapshot, base + 4).ok()?;
    let status = read_word(snapshot, base + 6).ok()?;
    let outstanding_capacity = read_dword(snapshot, base + 8).ok()?;
    let outstanding_allocation = read_dword(snapshot, base + 12).ok()?;

    Some(PriCapability {
        enable: flag16(control, 0),
        reset: flag16(control, 1),
        response_failure: flag16(status, 0),
        unexpected_group_index: flag16(status, 1),
        stopped: flag16(status, 2),
        outstanding_capacity,
        outstanding_allocation,
    })
}

} // verus!
