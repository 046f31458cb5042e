//! Device serial number capability.
use vstd::prelude::*;
use crate::config::ConfigSpaceSnapshot;

verus! {

/// The decoded registers of a device serial number capability.
#[derive(Clone, Copy, Debug, PartialEq, Eq)]
pub struct DsnCapability {
    pub serial: [u8; 8],
}

/// Whether `r` is the serial number capability at `offset`: the eight bytes
/// that follow the capability header.
pub open spec fn dsn_matches(snapshot: ConfigSpaceSnapshot, offset: u16, r: Option<DsnCapability>) -> bool {
    let base = offset as int;
    if snapshot.covers_range(base + 4, 8) {
        r is Some && r.unwrap().serial@ == snapshot.bytes_of(base + 4, 8)
    } else {
        r is None
    }
}

/// The serial number is the eight bytes at offsets 0x04 to 0x0b from the
/// capability, in the order they stand there.
pub proof fn lemma_dsn_bytes(snapshot: ConfigSpaceSnapshot, offset: u16, r: Option<DsnCapability>)
    requires
        dsn_matches(snapshot, offset, r),
    ensures
        r is Some <==> forall|i: int| 0 <= i < 8 ==> (#[trigger] snapshot.byte_at(offset + 4 + i)) is Some,
        r matches Some(c) ==> forall|i: int| 0 <= i < 8 ==> snapshot.byte_at(offset + 4 + i) == Some(#[trigger] c.serial@[i]),
{
    if let Some(c) = r {
        assert forall|i: int| 0 <= i < 8 implies snapshot.byte_at(offset + 4 + i) == Some(#[trigger] c.serial@[i]) by {
            assert(snapshot.byte_at(offset + 4 + i) is Some);
        }
    } else {
        if forall|i: int| 0 <= i < 8 ==> (#[trigger] snapshot.byte_at(offset + 4 + i)) is Some {
            assert(snapshot.covers_range(offset + 4, 8)) by {
                assert forall|a: int| offset + 4 <= a < offset + 4 + 8 implies (#[trigger] snapshot.byte_at(a)) is Some by {
                    assert(snapshot.byte_at(offset + 4 + (a - offset - 4)) is Some);
                }
            }
        }
    }
}

/// Decodes the device serial number capability at `offset` from the snapshot; `None` when
/// the registers it needs were not all read.
pub fn decode_dsn(snapshot: &ConfigSpaceSnapshot, offset: u16) -> (r: Option<DsnCapability>)
    requires
        snapshot.wf(),
    ensures
        dsn_matches(*snapshot, offset, r),
{
    let base = offset as u32;
    let bytes = snapshot.read(base + 4, 8).ok()?;
    let serial = [bytes[0], bytes[1], bytes[2], bytes[3], bytes[4], bytes[5], bytes[6], bytes[7]];
    proof {
        assert(serial@ =~= bytes@);
    }
    Some(DsnCapability { serial })
}

} // verus!
