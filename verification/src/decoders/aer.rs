//! Advanced error reporting capability.
use vstd::prelude::*;
use crate::bits::{bits_of, byte_field32};
use crate::config::ConfigSpaceSnapshot;
use super::{read_byte, read_dword};

verus! {

/// The uncorrectable error status bits and their names.
pub const AER_UE_BITS: [(u8, &'static str); 16] = [
    (4, "DLP"),
    (5, "SDES"),
    (12, "TLP"),
    (13, "FCP"),
    (14, "CmpltTO"),
    (15, "CmpltAbrt"),
    (16, "UnxCmplt"),
    (17, "RxOF"),
    (18, "MalfTLP"),
    (19, "ECRC"),
    (20, "UnsupReq"),
    (21, "ACSViol"),
    (22, "UncorrIntErr"),
    (23, "BlockedTLP"),
    (24, "AtomicOpBlocked"),
    (25, "TLPPrefixBlocked"),
];

/// The correctable error status bits and their names.
pub const AER_CE_BITS: [(u8, &'static str); 8] = [
    (0, "RxErr"),
    (6, "BadTLP"),
    (7, "BadDLLP"),
    (8, "Rollover"),
    (9, "Timeout"),
    (13, "AdvNonFatalErr"),
    (14, "CorrIntErr"),
    (15, "HeaderOF"),
];

#[derive(Clone, Copy, Debug, PartialEq, Eq)]
pub struct AerRootGroup {
    pub command: u32,
    pub status: u32,
    pub error_source_id: u32,
}

/// The decoded registers of an advanced error reporting capability.
#[derive(Clone, Copy, Debug, PartialEq, Eq)]
pub struct AerCapability {
    pub version: u8,
    pub ue_status: u32,
    pub ue_mask: u32,
    pub ue_severity: u32,
    pub ce_status: u32,
    pub ce_mask: u32,
    pub capabilities_control: u32,
    pub first_error_pointer: u8,
    pub header_log: [u32; 4],
    pub root: Option<AerRootGroup>,
}

/// Whether the header type register (offset 0x0e) marks a PCI-to-PCI bridge.
pub open spec fn header_is_bridge(snapshot: ConfigSpaceSnapshot) -> bool {
    match snapshot.byte_at(0x0e) {
        Some(header_type) => bits_of(header_type as int, 0, 7) == 1,
        None => false,
    }
}

/// Register `k` (counting double words from the capability header) of the capability at `base`.
pub open spec fn aer_reg(snapshot: ConfigSpaceSnapshot, base: int, k: int) -> u32 {
    snapshot.dword_at(base + 4 * k).unwrap()
}

/// Whether every register that the capability at `base` consists of was read:
/// the header, the six status/mask registers, the header log, and on a bridge
/// the three root registers.
pub open spec fn aer_readable(snapshot: ConfigSpaceSnapshot, base: int) -> bool {
    &&& forall|k: int| 0 <= k <= 10 ==> (#[trigger] snapshot.dword_at(base + 4 * k)) is Some
    &&& header_is_bridge(snapshot) ==> forall|k: int| 11 <= k <= 13 ==> (#[trigger] snapshot.dword_at(base + 4 * k)) is Some
}

/// Whether `r` is the AER capability at `offset`.
pub open spec fn aer_matches(snapshot: ConfigSpaceSnapshot, offset: u16, r: Option<AerCapability>) -> bool {
    let base = offset as int;
    if aer_readable(snapshot, base) {
        &&& r is Some
        &&& r.unwrap().version == bits_of(aer_reg(snapshot, base, 0) as int, 16, 4)
        &&& r.unwrap().ue_status == aer_reg(snapshot, base, 1)
        &&& r.unwrap().ue_mask == aer_reg(snapshot, base, 2)
        &&& r.unwrap().ue_severity == aer_reg(snapshot, base, 3)
        &&& r.unwrap().ce_status == aer_reg(snapshot, base, 4)
        &&& r.unwrap().ce_mask == aer_reg(snapshot, base, 5)
        &&& r.unwrap().capabilities_control == aer_reg(snapshot, base, 6)
        &&& r.unwrap().first_error_pointer == bits_of(aer_reg(snapshot, base, 6) as int, 8, 5)
        &&& r.unwrap().header_log@ == seq![
            aer_reg(snapshot, base, 7),
            aer_reg(snapshot, base, 8),
            aer_reg(snapshot, base, 9),
            aer_reg(snapshot, base, 10),
        ]
        &&& r.unwrap().root == if header_is_bridge(snapshot) {
            Some(AerRootGroup {
                command: aer_reg(snapshot, base, 11),
                status: aer_reg(snapshot, base, 12),
                error_source_id: aer_reg(snapshot, base, 13),
            })
        } else {
            None
        }
    } else {
        r is None
    }
}

/// The AER registers by their offsets from the capability: the version
/// in bits 19:16 of the header dword; uncorrectable status, mask and
/// severity at 0x04, 0x08 and 0x0c; correctable status and mask at 0x10
/// and 0x14; capabilities and control at 0x18, whose bits 12:8 are the
/// first error pointer; the header log at 0x1c to 0x28; and, when the
/// header type byte at 0x0e has 1 in its low seven bits (a bridge), the
/// root command, status and error source id at 0x2c, 0x30 and 0x34.
pub proof fn lemma_aer_registers(snapshot: ConfigSpaceSnapshot, offset: u16, r: Option<AerCapability>)
    requires
        aer_matches(snapshot, offset, r),
        r is Some,
    ensures
        ({
            let c = r.unwrap();
            let o = offset as int;
            let bridge = snapshot.byte_at(0x0e) matches Some(t) && (t as u16) & 0x007f == 1;
            &&& snapshot.dword_at(o) matches Some(header) && c.version as u32 == (header >> 16) & 0x000f
            &&& snapshot.dword_at(o + 0x04) == Some(c.ue_status)
            &&& snapshot.dword_at(o + 0x08) == Some(c.ue_mask)
            &&& snapshot.dword_at(o + 0x0c) == Some(c.ue_severity)
            &&& snapshot.dword_at(o + 0x10) == Some(c.ce_status)
            &&& snapshot.dword_at(o + 0x14) == Some(c.ce_mask)
            &&& snapshot.dword_at(o + 0x18) == Some(c.capabilities_control)
            &&& c.first_error_pointer as u32 == (c.capabilities_control >> 8) & 0x001f
            &&& snapshot.dword_at(o + 0x1c) == Some(c.header_log[0])
            &&& snapshot.dword_at(o + 0x20) == Some(c.header_log[1])
            &&& snapshot.dword_at(o + 0x24) == Some(c.header_log[2])
            &&& snapshot.dword_at(o + 0x28) == Some(c.header_log[3])
            &&& bridge ==> {
                &&& c.root matches Some(g)
                &&& snapshot.dword_at(o + 0x2c) == Some(g.command)
                &&& snapshot.dword_at(o + 0x30) == Some(g.status)
                &&& snapshot.dword_at(o + 0x34) == Some(g.error_source_id)
            }
            &&& !bridge ==> c.root is None
        }),
{
    vstd::bits::lemma_low_bits_mask_values();
    vstd::arithmetic::power2::lemma2_to64();
    let o = offset as int;
    assert(snapshot.dword_at(o + 4 * 0) is Some);
    assert(o + 4 * 0 == o);
    let header = snapshot.dword_at(o).unwrap();
    crate::bits::lemma_field32_shift_mask(header, 16, 4);
    assert(snapshot.dword_at(o + 4 * 6) is Some);
    crate::bits::lemma_field32_shift_mask(snapshot.dword_at(o + 4 * 6).unwrap(), 8, 5);
    assert(snapshot.dword_at(o + 4 * 1) is Some);
    assert(snapshot.dword_at(o + 4 * 2) is Some);
    assert(snapshot.dword_at(o + 4 * 3) is Some);
    assert(snapshot.dword_at(o + 4 * 4) is Some);
    assert(snapshot.dword_at(o + 4 * 5) is Some);
    assert(snapshot.dword_at(o + 4 * 7) is Some);
    assert(snapshot.dword_at(o + 4 * 8) is Some);
    assert(snapshot.dword_at(o + 4 * 9) is Some);
    assert(snapshot.dword_at(o + 4 * 10) is Some);
    if let Some(t) = snapshot.byte_at(0x0e) {
        crate::bits::lemma_field16_shift_mask(t as u16, 0, 7);
        if header_is_bridge(snapshot) {
            assert(snapshot.dword_at(o + 4 * 11) is Some);
            assert(snapshot.dword_at(o + 4 * 12) is Some);
            assert(snapshot.dword_at(o + 4 * 13) is Some);
        }
    }
}

/// Decodes the advanced error reporting capability at `offset` from the snapshot; `None` when
/// the registers it needs were not all read.
pub fn decode_aer(snapshot: &ConfigSpaceSnapshot, offset: u16) -> (r: Option<AerCapability>)
    requires
        snapshot.wf(),
    ensures
        aer_matches(*snapshot, offset, r),
{
    let base = offset as u32;
    let ghost b = base as int;

    let header = read_dword(snapshot, base).ok()?;
    assert(snapshot.dword_at(b + 4 * 0) is Some);
    let version = byte_field32(header, 16, 4);

    let ue_status = read_dword(snapshot, base + 0x04).ok()?;
    assert(snapshot.dword_at(b + 4 * 1) is Some);
    let ue_mask = read_dword(snapshot, base + 0x08).ok()?;
    assert(snapshot.dword_at(b + 4 * 2) is Some);
    let ue_severity = read_dword(snapshot, base + 0x0c).ok()?;
    assert(snapshot.dword_at(b + 4 * 3) is Some);
    let ce_status = read_dword(snapshot, base + 0x10).ok()?;
    assert(snapshot.dword_at(b + 4 * 4) is Some);
    let ce_mask = read_dword(snapshot, base + 0x14).ok()?;
    assert(snapshot.dword_at(b + 4 * 5) is Some);
    let capabilities_control = read_dword(snapshot, base + 0x18).ok()?;
    assert(snapshot.dword_at(b + 4 * 6) is Some);

    let log0 = read_dword(snapshot, base + 0x1c).ok()?;
    assert(snapshot.dword_at(b + 4 * 7) is Some);
    let log1 = read_dword(snapshot, base + 0x20).ok()?;
    assert(snapshot.dword_at(b + 4 * 8) is Some);
    let log2 = read_dword(snapshot, base + 0x24).ok()?;
    assert(snapshot.dword_at(b + 4 * 9) is Some);
    let log3 = read_dword(snapshot, base + 0x28).ok()?;
    assert(snapshot.dword_at(b + 4 * 10) is Some);
    let header_log = [log0, log1, log2, log3];

    let is_bridge = match read_byte(snapshot, 0x0e) {
        Ok(header_type) => byte_field32(header_type as u32, 0, 7) == 1,
        Err(_) => false,
    };

    let root = if is_bridge {
        let command = read_dword(snapshot, base + 0x2c).ok()?;
        assert(snapshot.dword_at(b + 4 * 11) is Some);
        let status = read_dword(snapshot, base + 0x30).ok()?;
        assert(snapshot.dword_at(b + 4 * 12) is Some);
        let error_source_id = read_dword(snapshot, base + 0x34).ok()?;
        assert(snapshot.dword_at(b + 4 * 13) is Some);
        Some(AerRootGroup { command, status, error_source_id })
    } else {
        None
    };

    proof {
        assert forall|k: int| 0 <= k <= 10 implies (#[trigger] snapshot.dword_at(b + 4 * k)) is Some by {
            assert(k == 0 || k == 1 || k == 2 || k == 3 || k == 4 || k == 5 || k == 6 || k == 7 || k == 8 || k == 9 || k == 10);
        }
        if is_bridge {
            assert forall|k: int| 11 <= k <= 13 implies (#[trigger] snapshot.dword_at(b + 4 * k)) is Some by {
                assert(k == 11 || k == 12 || k == 13);
            }
        }
        assert(header_log@ =~= seq![log0, log1, log2, log3]);
    }

    Some(AerCapability {
        version,
        ue_status,
        ue_mask,
        ue_severity,
        ce_status,
        ce_mask,
        capabilities_control,
        first_error_pointer: byte_field32(capabilities_control, 8, 5),
        header_log,
        root,
    })
}

} // verus!
