//! Secondary PCI Express capability.
use vstd::prelude::*;
use crate::bits::{flag_of, flag32};
use crate::config::ConfigSpaceSnapshot;
use super::read_dword;

verus! {

/// The decoded registers of a secondary PCI Express capability.
#[derive(Clone, Copy, Debug, PartialEq, Eq)]
pub struct SecondaryPcieCapability {
    pub perform_equalization: bool,
    pub equalization_request_interrupt: bool,
    pub lane_equalization_control: u32,
}

/// The capability described by link control 3 and the lane equalization control register.
pub open spec fn secondary_pcie_layout(link_control_3: u32, lane: u32) -> SecondaryPcieCapability {
    SecondaryPcieCapability {
        perform_equalization: flag_of(link_control_3 as int, 0),
        equalization_request_interrupt: flag_of(link_control_3 as int, 1),
        lane_equalization_control: lane,
    }
}

/// The secondary PCI Express capability at `offset`, if its registers were read.
pub open spec fn secondary_pcie_spec(snapshot: ConfigSpaceSnapshot, offset: u16) -> Option<SecondaryPcieCapability> {
    let base = offset as int;
    match (snapshot.dword_at(base + 4), snapshot.dword_at(base + 8)) {
        (Some(link_control_3), Some(lane)) => Some(secondary_pcie_layout(link_control_3, lane)),
        _ => None,
    }
}

/// The secondary PCI Express capability's fields by register offset and
/// mask.
pub proof fn lemma_secondary_pcie_registers(snapshot: ConfigSpaceSnapshot, offset: u16)
    requires
        secondary_pcie_spec(snapshot, offset) is Some,
    ensures
        snapshot.dword_at(offset + 4) is Some,
        snapshot.dword_at(offset + 8) is Some,
        ({
            let c = secondary_pcie_spec(snapshot, offset).unwrap();
            let link_control_3 = snapshot.dword_at(offset + 4).unwrap();
            let lane_equalization_control = snapshot.dword_at(offset + 8).unwrap();
            &&& c.perform_equalization == (link_control_3 & 0x0000_0001 != 0)
            &&& c.equalization_request_interrupt == (link_control_3 & 0x0000_0002 != 0)
            &&& c.lane_equalization_control == lane_equalization_control
        }),
{
    crate::bits::lemma_masks32();
    let link_control_3 = snapshot.dword_at(offset + 4).unwrap();
    let lane_equalization_control = snapshot.dword_at(offset + 8).unwrap();
    crate::bits::lemma_flag32_mask(link_control_3, 0);
    crate::bits::lemma_flag32_mask(link_control_3, 1);
}

/// Decodes the secondary PCI Express capability at `offset` from the snapshot; `None` when
/// the registers it needs were not all read.
pub fn decode_secondary_pcie(snapshot: &ConfigSpaceSnapshot, offset: u16) -> (r: Option<SecondaryPcieCapability>)
    requires
        snapshot.wf(),
    ensures
        r == secondary_pcie_spec(*snapshot, offset),
{
    let base = offset as u32;
    let link_control_3 = read_dword(snapshot, base + 4).ok()?;
    let lane_equalization_control = read_dword(snapshot, base + 8).ok()?;

    Some(SecondaryPcieCapability {
        perform_equalization: flag32(link_control_3, 0),
        equalization_request_interrupt: flag32(link_control_3, 1),
        lane_equalization_control,
    })
}

} // verus!
