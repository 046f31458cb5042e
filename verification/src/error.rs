//! The errors of talking to the PCI library.
use vstd::prelude::*;
use vstd::string::StringExecFns;
use crate::device::{PciAddress, address_text};
use crate::text::{hex_padded, push_hex};

verus! {

/// Why a request to the PCI library failed.
#[derive(Debug)]
pub enum PciError {
    /// The library context could not be allocated.
    Allocation,
    /// The library could not fill the fields that were asked for.
    DeviceInfo {
        address: PciAddress,
        known_fields: u32,
        requested_fields: u32,
    },
    /// No device has the address that was asked for.
    DeviceNotFound {
        address: PciAddress,
    },
    Message(String),
}

/// The text of an error.
pub open spec fn error_text(e: PciError) -> Seq<char> {
    match e {
        PciError::Allocation => "failed to allocate libpci context"@,
        PciError::DeviceInfo { address, known_fields, requested_fields } =>
            "failed to fill PCI device "@ + address_text(address) + ": known fields=0x"@
                + hex_padded(known_fields as nat, 8) + ", requested fields=0x"@
                + hex_padded(requested_fields as nat, 8),
        PciError::DeviceNotFound { address } =>
            "PCI device "@ + address_text(address) + " not found"@,
        PciError::Message(message) => message@,
    }
}

impl PciError {
    /// The text of the error.
    pub fn message(&self) -> (s: String)
        ensures
            s@ == error_text(*self),
    {
        match self {
            PciError::Allocation => String::from_str("failed to allocate libpci context"),
            PciError::DeviceInfo { address, known_fields, requested_fields } => {
                let mut out = String::from_str("failed to fill PCI device ");
                address.push_to(&mut out);
                out.append(": known fields=0x");
                push_hex(&mut out, *known_fields as u64, 8);
                out.append(", requested fields=0x");
                push_hex(&mut out, *requested_fields as u64, 8);
                proof {
                    assert(out@ =~= error_text(*self));
                }
                out
            },
            PciError::DeviceNotFound { address } => {
                let mut out = String::from_str("PCI device ");
                address.push_to(&mut out);
                out.append(" not found");
                proof {
                    assert(out@ =~= error_text(*self));
                }
                out
            },
            PciError::Message(message) => message.clone(),
        }
    }
}

} // verus!
