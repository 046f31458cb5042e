//! Vendor-specific capability.
use vstd::prelude::*;
use crate::config::ConfigSpaceSnapshot;
use super::read_byte;

verus! {

/// The decoded registers of a vendor-specific capability.
#[derive(Clone, Debug, PartialEq, Eq)]
pub struct VendorSpecificCapability {
    pub length: u8,
    pub data: Vec<u8>,
}

/// Whether `r` is the vendor-specific capability at `offset`: its length
/// byte, and that many bytes of payload after it.
pub open spec fn vendor_specific_matches(snapshot: ConfigSpaceSnapshot, offset: u16, r: Option<VendorSpecificCapability>) -> bool {
    let base = offset as int;
    match snapshot.byte_at(base + 2) {
        Some(length) =>
            if snapshot.covers_range(base + 3, length as int) {
                &&& r is Some
                &&& r.unwrap().length == length
                &&& r.unwrap().data@ == snapshot.bytes_of(base + 3, length as int)
            } else {
                r is None
            },
        None => r is None,
    }
}

/// The vendor-specific capability: its length is the byte at offset + 2,
/// and its payload that many bytes from offset + 3 on.
pub proof fn lemma_vendor_specific_bytes(snapshot: ConfigSpaceSnapshot, offset: u16, r: Option<VendorSpecificCapability>)
    requires
        vendor_specific_matches(snapshot, offset, r),
        r is Some,
    ensures
        ({
            let c = r.unwrap();
            &&& snapshot.byte_at(offset + 2) == Some(c.length)
            &&& c.data@.len() == c.length
            &&& forall|i: int| 0 <= i < c.length ==> snapshot.byte_at(offset + 3 + i) == Some(#[trigger] c.data@[i])
        }),
{
    let c = r.unwrap();
    assert forall|i: int| 0 <= i < c.length implies snapshot.byte_at(offset + 3 + i) == Some(#[trigger] c.data@[i]) by {
        assert(snapshot.byte_at(offset + 3 + i) is Some);
    }
}

/// Decodes the vendor-specific capability at `offset` from the snapshot; `None` when
/// the registers it needs were not all read.
pub fn decode_vendor_specific(snapshot: &ConfigSpaceSnapshot, offset: u16) -> (r: Option<VendorSpecificCapability>)
    requires
        snapshot.wf(),
    ensures
        vendor_specific_matches(*snapshot, offset, r),
{
    let base = offset as u32;
    let length = read_byte(snapshot, base + 2).ok()?;
    let data = if length == 0 {
        let empty: Vec<u8> = Vec::new();
        proof {
            assert(empty@ =~= snapshot.bytes_of(base + 3, 0));
        }
        empty
    } else {
        snapshot.read(base + 3, length as u32).ok()?
    };

    Some(VendorSpecificCapability { length, data })
}

} // verus!
