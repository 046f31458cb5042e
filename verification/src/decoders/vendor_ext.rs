//! Vendor-specific extended capability.
use vstd::prelude::*;
use crate::bits::{bits_of, byte_field32, word_field32};
use crate::config::ConfigSpaceSnapshot;
use super::read_dword;

verus! {

/// The decoded registers of a vendor-specific extended capability.
#[derive(Clone, Debug, PartialEq, Eq)]
pub struct VendorExtCapability {
    pub vendor_id: u16,
    pub revision: u8,
    pub length: u16,
    pub data: Vec<u8>,
}

/// The payload length: the capability length less its eight header bytes.
pub open spec fn vendor_ext_payload(header: u32) -> int {
    let length = bits_of(header as int, 20, 12);
    if length > 8 { length - 8 } else { 0 }
}

/// Whether `r` is the vendor-specific extended capability at `offset`.
pub open spec fn vendor_ext_matches(snapshot: ConfigSpaceSnapshot, offset: u16, r: Option<VendorExtCapability>) -> bool {
    let base = offset as int;
    match snapshot.dword_at(base + 4) {
        Some(header) =>
            if snapshot.covers_range(base + 8, vendor_ext_payload(header)) {
                &&& r is Some
                &&& r.unwrap().vendor_id == bits_of(header as int, 0, 16)
                &&& r.unwrap().revision == bits_of(header as int, 16, 4)
                &&& r.unwrap().length == bits_of(header as int, 20, 12)
                &&& r.unwrap().data@ == snapshot.bytes_of(base + 8, vendor_ext_payload(header))
            } else {
                r is None
            },
        None => r is None,
    }
}

/// The vendor-specific extended capability by offset and mask: from the
/// header dword at offset + 4, the vendor id (bits 15:0), the revision
/// (bits 19:16) and the length (bits 31:20); the payload is the bytes from
/// offset + 8 on, the length less eight of them (none when the length is
/// at most eight).
pub proof fn lemma_vendor_ext_registers(snapshot: ConfigSpaceSnapshot, offset: u16, r: Option<VendorExtCapability>)
    requires
        vendor_ext_matches(snapshot, offset, r),
        r is Some,
    ensures
        snapshot.dword_at(offset + 4) is Some,
        ({
            let c = r.unwrap();
            let header = snapshot.dword_at(offset + 4).unwrap();
            let payload = if c.length > 8 { c.length - 8 } else { 0 };
            &&& c.vendor_id as u32 == header & 0x0000_ffff
            &&& c.revision as u32 == (header >> 16) & 0x0000_000f
            &&& c.length as u32 == (header >> 20) & 0x0000_0fff
            &&& c.data@.len() == payload
            &&& forall|i: int| 0 <= i < payload ==> snapshot.byte_at(offset + 8 + i) == Some(#[trigger] c.data@[i])
        }),
{
    vstd::bits::lemma_low_bits_mask_values();
    vstd::arithmetic::power2::lemma2_to64();
    let header = snapshot.dword_at(offset + 4).unwrap();
    crate::bits::lemma_field32_shift_mask(header, 0, 16);
    crate::bits::lemma_field32_shift_mask(header, 16, 4);
    crate::bits::lemma_field32_shift_mask(header, 20, 12);
    let c = r.unwrap();
    let payload = vendor_ext_payload(header);
    assert forall|i: int| 0 <= i < payload implies snapshot.byte_at(offset + 8 + i) == Some(#[trigger] c.data@[i]) by {
        assert(snapshot.byte_at(offset + 8 + i) is Some);
    }
}

/// Decodes the vendor-specific extended capability at `offset` from the snapshot; `None` when
/// the registers it needs were not all read.
pub fn decode_vendor_ext(snapshot: &ConfigSpaceSnapshot, offset: u16) -> (r: Option<VendorExtCapability>)
    requires
        snapshot.wf(),
    ensures
        vendor_ext_matches(*snapshot, offset, r),
{
    let base = offset as u32;
    let header = read_dword(snapshot, base + 4).ok()?;

    let vendor_id = word_field32(header, 0, 16);
    let revision = byte_field32(header, 16, 4);
    let length = word_field32(header, 20, 12);

    let payload = length.saturating_sub(8);
    let data = if payload == 0 {
        let empty: Vec<u8> = Vec::new();
        proof {
            assert(empty@ =~= snapshot.bytes_of(base + 8, 0));
        }
        empty
    } else {
        snapshot.read(base + 8, payload as u32).ok()?
    };

    Some(VendorExtCapability { vendor_id, revision, length, data })
}

} // verus!
