//! Decoders for the registers of individual capabilities.
use vstd::prelude::*;
use crate::config::{ConfigReadFailure, ConfigSpaceSnapshot, segments_fit, lemma_first_cover_found};
use crate::field::{PciCapability, PciCapabilityKind, PciCapabilityState};

pub mod acs;
pub mod aer;
pub mod ari;
pub mod ats;
pub mod dpc;
pub mod dsn;
pub mod hot_plug;
pub mod ltr;
pub mod msi;
pub mod msix;
pub mod pasid;
pub mod pci_x;
pub mod pcie;
pub mod pm;
pub mod pri;
pub mod ptm;
pub mod secondary_pcie;
pub mod slot_id;
pub mod sriov;
pub mod tph;
pub mod vc;
pub mod vendor;
pub mod vendor_ext;
pub mod vpd;

pub use acs::AcsCapability;
pub use aer::{AerCapability, AerRootGroup, AER_CE_BITS, AER_UE_BITS};
pub use ari::AriCapability;
pub use ats::AtsCapability;
pub use dpc::DpcCapability;
pub use dsn::DsnCapability;
pub use hot_plug::HotPlugCapability;
pub use ltr::LtrCapability;
pub use msi::MsiCapability;
pub use msix::MsiXCapability;
pub use pasid::PasidCapability;
pub use pci_x::PciXCapability;
pub use pcie::PcieCapability;
pub use pm::PmCapability;
pub use pri::PriCapability;
pub use ptm::PtmCapability;
pub use secondary_pcie::SecondaryPcieCapability;
pub use slot_id::SlotIdCapability;
pub use sriov::{SriovCapability, SriovVfBar, SriovVfBarKind};
pub use tph::TphCapability;
pub use vc::{VcCapability, VcResource};
pub use vendor::VendorSpecificCapability;
pub use vendor_ext::VendorExtCapability;
pub use vpd::VpdCapability;

verus! {

/// The decoded registers of a capability.
#[derive(Clone, Debug, PartialEq, Eq)]
pub enum PciCapabilityContent {
    Pm(PmCapability),
    Vpd(VpdCapability),
    SlotId(SlotIdCapability),
    Msi(MsiCapability),
    PciX(PciXCapability),
    VendorSpecific(VendorSpecificCapability),
    HotPlug(HotPlugCapability),
    Pcie(PcieCapability),
    MsiX(MsiXCapability),
    Aer(AerCapability),
    Vc(VcCapability),
    Dsn(DsnCapability),
    Acs(AcsCapability),
    Ari(AriCapability),
    Ats(AtsCapability),
    Sriov(SriovCapability),
    Pri(PriCapability),
    Tph(TphCapability),
    Ltr(LtrCapability),
    SecondaryPcie(SecondaryPcieCapability),
    Ptm(PtmCapability),
    Pasid(PasidCapability),
    Dpc(DpcCapability),
    VendorExt(VendorExtCapability),
}

/// Whether the library decodes the registers of a capability: the standard
/// and extended capabilities that the name table knows and that have a decoder.
pub open spec fn has_decoder(kind: PciCapabilityKind, id: u16) -> bool {
    match kind {
        PciCapabilityKind::Standard =>
            id == 0x01 || id == 0x03 || id == 0x04 || id == 0x05 || id == 0x07 || id == 0x09
                || id == 0x0c || id == 0x10 || id == 0x11,
        PciCapabilityKind::Extended =>
            id == 0x01 || id == 0x02 || id == 0x03 || id == 0x0a || id == 0x0b || id == 0x0c
                || id == 0x0d || id == 0x10 || id == 0x13 || id == 0x15 || id == 0x19 || id == 0x1f,
        PciCapabilityKind::Unknown(_) => false,
    }
}

/// Whether `c` is what the decoder for the capability of this kind and ID,
/// at `offset`, gives: `None` when its registers were not all read.
pub open spec fn content_matches(
    snapshot: ConfigSpaceSnapshot,
    kind: PciCapabilityKind,
    id: u16,
    offset: u16,
    c: Option<PciCapabilityContent>,
) -> bool {
    match kind {
        PciCapabilityKind::Standard =>
            if id == 0x01 { c == (match pm::pm_spec(snapshot, offset) { Some(v) => Some(PciCapabilityContent::Pm(v)), None => None }) }
            else if id == 0x03 { c == (match vpd::vpd_spec(snapshot, offset) { Some(v) => Some(PciCapabilityContent::Vpd(v)), None => None }) }
            else if id == 0x04 { c == (match slot_id::slot_id_spec(snapshot, offset) { Some(v) => Some(PciCapabilityContent::SlotId(v)), None => None }) }
            else if id == 0x05 { c == (match msi::msi_spec(snapshot, offset) { Some(v) => Some(PciCapabilityContent::Msi(v)), None => None }) }
            else if id == 0x07 { c == (match pci_x::pci_x_spec(snapshot, offset) { Some(v) => Some(PciCapabilityContent::PciX(v)), None => None }) }
            else if id == 0x09 {
                match c {
                    Some(PciCapabilityContent::VendorSpecific(v)) => vendor::vendor_specific_matches(snapshot, offset, Some(v)),
                    None => vendor::vendor_specific_matches(snapshot, offset, None),
                    _ => false,
                }
            }
            else if id == 0x0c { c == Some(PciCapabilityContent::HotPlug(HotPlugCapability { hot_plug_capable: true })) }
            else if id == 0x10 { c == (match pcie::pcie_spec(snapshot, offset) { Some(v) => Some(PciCapabilityContent::Pcie(v)), None => None }) }
            else if id == 0x11 { c == (match msix::msix_spec(snapshot, offset) { Some(v) => Some(PciCapabilityContent::MsiX(v)), None => None }) }
            else { c is None },
        PciCapabilityKind::Extended =>
            if id == 0x01 {
                match c {
                    Some(PciCapabilityContent::Aer(v)) => aer::aer_matches(snapshot, offset, Some(v)),
                    None => aer::aer_matches(snapshot, offset, None),
                    _ => false,
                }
            }
            else if id == 0x02 {
                match c {
                    Some(PciCapabilityContent::Vc(v)) => vc::vc_matches(snapshot, offset, Some(v)),
                    None => vc::vc_matches(snapshot, offset, None),
                    _ => false,
                }
            }
            else if id == 0x03 {
                match c {
                    Some(PciCapabilityContent::Dsn(v)) => dsn::dsn_matches(snapshot, offset, Some(v)),
                    None => dsn::dsn_matches(snapshot, offset, None),
                    _ => false,
                }
            }
            else if id == 0x0a {
                match c {
                    Some(PciCapabilityContent::Acs(v)) => acs::acs_matches(snapshot, offset, Some(v)),
                    None => acs::acs_matches(snapshot, offset, None),
                    _ => false,
                }
            }
            else if id == 0x0b { c == (match ari::ari_spec(snapshot, offset) { Some(v) => Some(PciCapabilityContent::Ari(v)), None => None }) }
            else if id == 0x0c { c == (match ats::ats_spec(snapshot, offset) { Some(v) => Some(PciCapabilityContent::Ats(v)), None => None }) }
            else if id == 0x0d {
                match c {
                    Some(PciCapabilityContent::Sriov(v)) => sriov::sriov_matches(snapshot, offset, Some(v)),
                    None => sriov::sriov_matches(snapshot, offset, None),
                    _ => false,
                }
            }
            else if id == 0x10 { c == (match pri::pri_spec(snapshot, offset) { Some(v) => Some(PciCapabilityContent::Pri(v)), None => None }) }
            else if id == 0x13 {
                match c {
                    Some(PciCapabilityContent::Tph(v)) => tph::tph_matches(snapshot, offset, Some(v)),
                    None => tph::tph_matches(snapshot, offset, None),
                    _ => false,
                }
            }
            else if id == 0x15 { c == (match ltr::ltr_spec(snapshot, offset) { Some(v) => Some(PciCapabilityContent::Ltr(v)), None => None }) }
            else if id == 0x19 { c == (match secondary_pcie::secondary_pcie_spec(snapshot, offset) { Some(v) => Some(PciCapabilityContent::SecondaryPcie(v)), None => None }) }
            else if id == 0x1f { c == (match ptm::ptm_spec(snapshot, offset) { Some(v) => Some(PciCapabilityContent::Ptm(v)), None => None }) }
            else { c is None },
        PciCapabilityKind::Unknown(_) => c is None,
    }
}

/// Decodes the registers of the capability of this kind and ID at `offset`.
pub fn decode_capability(snapshot: &ConfigSpaceSnapshot, kind: PciCapabilityKind, id: u16, offset: u16)
    -> (r: Option<PciCapabilityContent>)
    requires
        snapshot.wf(),
    ensures
        content_matches(*snapshot, kind, id, offset, r),
        !has_decoder(kind, id) ==> r is None,
{
    match kind {
        PciCapabilityKind::Standard => match id {
            0x01 => match pm::decode_pm(snapshot, offset) {
                Some(v) => Some(PciCapabilityContent::Pm(v)),
                None => None,
            },
            0x03 => match vpd::decode_vpd(snapshot, offset) {
                Some(v) => Some(PciCapabilityContent::Vpd(v)),
                None => None,
            },
            0x04 => match slot_id::decode_slot_id(snapshot, offset) {
                Some(v) => Some(PciCapabilityContent::SlotId(v)),
                None => None,
            },
            0x05 => match msi::decode_msi(snapshot, offset) {
                Some(v) => Some(PciCapabilityContent::Msi(v)),
                None => None,
            },
            0x07 => match pci_x::decode_pci_x(snapshot, offset) {
                Some(v) => Some(PciCapabilityContent::PciX(v)),
                None => None,
            },
            0x09 => match vendor::decode_vendor_specific(snapshot, offset) {
                Some(v) => Some(PciCapabilityContent::VendorSpecific(v)),
                None => None,
            },
            0x0c => match hot_plug::decode_hot_plug(snapshot, offset) {
                Some(v) => Some(PciCapabilityContent::HotPlug(v)),
                None => None,
            },
            0x10 => match pcie::decode_pcie(snapshot, offset) {
                Some(v) => Some(PciCapabilityContent::Pcie(v)),
                None => None,
            },
            0x11 => match msix::decode_msix(snapshot, offset) {
                Some(v) => Some(PciCapabilityContent::MsiX(v)),
                None => None,
            },
            _ => None,
        },
        PciCapabilityKind::Extended => match id {
            0x01 => match aer::decode_aer(snapshot, offset) {
                Some(v) => Some(PciCapabilityContent::Aer(v)),
                None => None,
            },
            0x02 => match vc::decode_vc(snapshot, offset) {
                Some(v) => Some(PciCapabilityContent::Vc(v)),
                None => None,
            },
            0x03 => match dsn::decode_dsn(snapshot, offset) {
                Some(v) => Some(PciCapabilityContent::Dsn(v)),
                None => None,
            },
            0x0a => match acs::decode_acs(snapshot, offset) {
                Some(v) => Some(PciCapabilityContent::Acs(v)),
                None => None,
            },
            0x0b => match ari::decode_ari(snapshot, offset) {
                Some(v) => Some(PciCapabilityContent::Ari(v)),
                None => None,
            },
            0x0c => match ats::decode_ats(snapshot, offset) {
                Some(v) => Some(PciCapabilityContent::Ats(v)),
                None => None,
            },
            0x0d => match sriov::decode_sriov(snapshot, offset) {
                Some(v) => Some(PciCapabilityContent::Sriov(v)),
                None => None,
            },
            0x10 => match pri::decode_pri(snapshot, offset) {
                Some(v) => Some(PciCapabilityContent::Pri(v)),
                None => None,
            },
            0x13 => match tph::decode_tph(snapshot, offset) {
                Some(v) => Some(PciCapabilityContent::Tph(v)),
                None => None,
            },
            0x15 => match ltr::decode_ltr(snapshot, offset) {
                Some(v) => Some(PciCapabilityContent::Ltr(v)),
                None => None,
            },
            0x19 => match secondary_pcie::decode_secondary_pcie(snapshot, offset) {
                Some(v) => Some(PciCapabilityContent::SecondaryPcie(v)),
                None => None,
            },
            0x1f => match ptm::decode_ptm(snapshot, offset) {
                Some(v) => Some(PciCapabilityContent::Ptm(v)),
                None => None,
            },
            _ => None,
        },
        PciCapabilityKind::Unknown(_) => None,
    }
}

/// Decodes the registers of a capability into its `content`. A capability
/// that has a decoder but whose registers were not all read is marked
/// `Truncated`; other capabilities are left as they are.
pub fn decode_content(snapshot: &ConfigSpaceSnapshot, capability: &mut PciCapability)
    requires
        snapshot.wf(),
    ensures
        final(capability).id == old(capability).id,
        final(capability).kind == old(capability).kind,
        final(capability).offset == old(capability).offset,
        final(capability).next == old(capability).next,
        !has_decoder(old(capability).kind, old(capability).id) ==> *final(capability) == *old(capability),
        has_decoder(old(capability).kind, old(capability).id) ==> {
            ||| final(capability).content is Some
                && final(capability).state == old(capability).state
                && content_matches(*snapshot, old(capability).kind, old(capability).id, old(capability).offset, final(capability).content)
            ||| final(capability).content == old(capability).content
                && final(capability).state == PciCapabilityState::Truncated
                && content_matches(*snapshot, old(capability).kind, old(capability).id, old(capability).offset, None)
        },
{
    let decoded = decode_capability(snapshot, capability.kind, capability.id, capability.offset);
    if decoded.is_some() {
        capability.content = decoded;
    } else if decodes(capability.kind, capability.id) {
        capability.state = PciCapabilityState::Truncated;
    }
}

/// Whether the library decodes the registers of a capability of this kind and ID.
pub fn decodes(kind: PciCapabilityKind, id: u16) -> (r: bool)
    ensures
        r == has_decoder(kind, id),
{
    match kind {
        PciCapabilityKind::Standard =>
            id == 0x01 || id == 0x03 || id == 0x04 || id == 0x05 || id == 0x07 || id == 0x09
                || id == 0x0c || id == 0x10 || id == 0x11,
        PciCapabilityKind::Extended =>
            id == 0x01 || id == 0x02 || id == 0x03 || id == 0x0a || id == 0x0b || id == 0x0c
                || id == 0x0d || id == 0x10 || id == 0x13 || id == 0x15 || id == 0x19 || id == 0x1f,
        PciCapabilityKind::Unknown(_) => false,
    }
}

/// No segment reaches past the 32-bit offset space, so nothing is known there.
pub proof fn lemma_beyond_u32(snapshot: ConfigSpaceSnapshot, a: int)
    requires
        segments_fit(snapshot.segments@),
        a >= u32::MAX,
    ensures
        snapshot.byte_at(a) is None,
{
    if crate::config::first_cover_from(snapshot.segments@, a, 0) is Some {
        lemma_first_cover_found(snapshot.segments@, a, 0);
        let i = crate::config::first_cover_from(snapshot.segments@, a, 0).unwrap();
        assert(snapshot.segments@[i].end_spec() <= u32::MAX);
    }
}

/// Reads the byte at `offset`.
pub fn read_byte(snapshot: &ConfigSpaceSnapshot, offset: u32) -> (r: Result<u8, ConfigReadFailure>)
    requires
        snapshot.wf(),
    ensures
        match r {
            Ok(b) => snapshot.byte_at(offset as int) == Some(b),
            Err(f) => snapshot.byte_at(offset as int) is None
                && snapshot.read_spec(offset, 1) == Err::<Seq<u8>, ConfigReadFailure>(f),
        },
{
    let bytes = match snapshot.read(offset, 1) {
        Ok(bytes) => bytes,
        Err(f) => {
            proof {
                if offset + 1 > u32::MAX {
                    lemma_beyond_u32(*snapshot, offset as int);
                } else {
                    assert(!snapshot.covers_range(offset as int, 1));
                    let a = choose|a: int| offset <= a < offset + 1 && !(snapshot.byte_at(a) is Some);
                    assert(a == offset);
                }
            }
            return Err(f);
        },
    };
    proof {
        assert(bytes@[0] == snapshot.byte_at(offset as int).unwrap());
    }
    Ok(bytes[0])
}

/// Reads the little-endian word at `offset`.
pub fn read_word(snapshot: &ConfigSpaceSnapshot, offset: u32) -> (r: Result<u16, ConfigReadFailure>)
    requires
        snapshot.wf(),
    ensures
        match r {
            Ok(w) => snapshot.word_at(offset as int) == Some(w),
            Err(f) => snapshot.word_at(offset as int) is None
                && snapshot.read_spec(offset, 2) == Err::<Seq<u8>, ConfigReadFailure>(f),
        },
{
    let bytes = match snapshot.read(offset, 2) {
        Ok(bytes) => bytes,
        Err(f) => {
            proof {
                if offset + 2 > u32::MAX {
                    lemma_beyond_u32(*snapshot, offset + 2 - 1);
                } else {
                    assert(!snapshot.covers_range(offset as int, 2));
                    let a = choose|a: int| offset <= a < offset + 2 && !(snapshot.byte_at(a) is Some);
                    assert(a == offset || a == offset + 1 );
                }
            }
            return Err(f);
        },
    };
    proof {
        assert(bytes@[0] == snapshot.byte_at(offset as int).unwrap());
        assert(bytes@[1] == snapshot.byte_at(offset + 1).unwrap());
    }
    Ok(crate::bits::word_from_le(bytes[0], bytes[1]))
}

/// Reads the little-endian double word at `offset`.
pub fn read_dword(snapshot: &ConfigSpaceSnapshot, offset: u32) -> (r: Result<u32, ConfigReadFailure>)
    requires
        snapshot.wf(),
    ensures
        match r {
            Ok(w) => snapshot.dword_at(offset as int) == Some(w),
            Err(f) => snapshot.dword_at(offset as int) is None
                && snapshot.read_spec(offset, 4) == Err::<Seq<u8>, ConfigReadFailure>(f),
        },
{
    let bytes = match snapshot.read(offset, 4) {
        Ok(bytes) => bytes,
        Err(f) => {
            proof {
                if offset + 4 > u32::MAX {
                    lemma_beyond_u32(*snapshot, offset + 4 - 1);
                } else {
                    assert(!snapshot.covers_range(offset as int, 4));
                    let a = choose|a: int| offset <= a < offset + 4 && !(snapshot.byte_at(a) is Some);
                    assert(a == offset || a == offset + 1 || a == offset + 2 || a == offset + 3);
                }
            }
            return Err(f);
        },
    };
    proof {
        assert(bytes@[0] == snapshot.byte_at(offset as int).unwrap());
        assert(bytes@[1] == snapshot.byte_at(offset + 1).unwrap());
        assert(bytes@[2] == snapshot.byte_at(offset + 2).unwrap());
        assert(bytes@[3] == snapshot.byte_at(offset + 3).unwrap());
    }
    Ok(crate::bits::dword_from_le(bytes[0], bytes[1], bytes[2], bytes[3]))
}

} // verus!
