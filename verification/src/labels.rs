//! The names under which reasons, states and statuses are shown.
use vstd::prelude::*;
use vstd::string::StringExecFns;
use crate::field::{
    PciCapabilityChainStatus, PciCapabilityKind, PciCapabilityMalformedReason, PciCapabilityState,
    PciFieldUnavailableReason,
};
use crate::text::{hex_padded, push_hex};

verus! {

/// The name of a reason a value is unavailable.
pub open spec fn reason_text(r: PciFieldUnavailableReason) -> Seq<char> {
    match r {
        PciFieldUnavailableReason::PermissionDenied => "PermissionDenied"@,
        PciFieldUnavailableReason::UnsupportedByBackend => "UnsupportedByBackend"@,
        PciFieldUnavailableReason::UnsupportedByLibrary => "UnsupportedByLibrary"@,
        PciFieldUnavailableReason::DeviceUnavailable => "DeviceUnavailable"@,
        PciFieldUnavailableReason::NotBound => "NotBound"@,
        PciFieldUnavailableReason::ReadError => "ReadError"@,
        PciFieldUnavailableReason::Unknown => "Unknown"@,
    }
}

/// The name of a reason a list is malformed.
pub open spec fn malformed_text(r: PciCapabilityMalformedReason) -> Seq<char> {
    match r {
        PciCapabilityMalformedReason::MisalignedOffset => "MisalignedOffset"@,
        PciCapabilityMalformedReason::OffsetOutOfRange => "OffsetOutOfRange"@,
        PciCapabilityMalformedReason::CycleDetected => "CycleDetected"@,
        PciCapabilityMalformedReason::InvalidNextPointer => "InvalidNextPointer"@,
        PciCapabilityMalformedReason::MissingHeader => "MissingHeader"@,
    }
}

/// The name of a capability's state.
pub open spec fn state_text(s: PciCapabilityState) -> Seq<char> {
    match s {
        PciCapabilityState::Valid => "Valid"@,
        PciCapabilityState::Truncated => "Truncated"@,
        PciCapabilityState::Unavailable(r) => "Unavailable("@ + reason_text(r) + ")"@,
        PciCapabilityState::Malformed(r) => "Malformed("@ + malformed_text(r) + ")"@,
    }
}

/// The name of a list's status, with `not_present` for an absent list.
pub open spec fn chain_status_text(s: PciCapabilityChainStatus, not_present: Seq<char>) -> Seq<char> {
    match s {
        PciCapabilityChainStatus::NotPresent => not_present,
        PciCapabilityChainStatus::Complete => "complete"@,
        PciCapabilityChainStatus::Truncated => "truncated"@,
        PciCapabilityChainStatus::Unavailable(r) => "unavailable: "@ + reason_text(r),
        PciCapabilityChainStatus::Malformed(r) => "malformed: "@ + malformed_text(r),
    }
}

/// The name of a capability kind.
pub open spec fn kind_text(k: PciCapabilityKind) -> Seq<char> {
    match k {
        PciCapabilityKind::Standard => "standard"@,
        PciCapabilityKind::Extended => "extended"@,
        PciCapabilityKind::Unknown(_) => "unknown"@,
    }
}

/// A next pointer: `0x` and three hexadecimal digits, or `none`.
pub open spec fn next_text(next: Option<u16>) -> Seq<char> {
    match next {
        Some(n) => "0x"@ + hex_padded(n as nat, 3),
        None => "none"@,
    }
}

/// The name of a reason a value is unavailable.
pub fn reason_str(r: PciFieldUnavailableReason) -> (s: &'static str)
    ensures
        s@ == reason_text(r),
{
    match r {
        PciFieldUnavailableReason::PermissionDenied => "PermissionDenied",
        PciFieldUnavailableReason::UnsupportedByBackend => "UnsupportedByBackend",
        PciFieldUnavailableReason::UnsupportedByLibrary => "UnsupportedByLibrary",
        PciFieldUnavailableReason::DeviceUnavailable => "DeviceUnavailable",
        PciFieldUnavailableReason::NotBound => "NotBound",
        PciFieldUnavailableReason::ReadError => "ReadError",
        PciFieldUnavailableReason::Unknown => "Unknown",
    }
}

/// The name of a reason a list is malformed.
pub fn malformed_str(r: PciCapabilityMalformedReason) -> (s: &'static str)
    ensures
        s@ == malformed_text(r),
{
    match r {
        PciCapabilityMalformedReason::MisalignedOffset => "MisalignedOffset",
        PciCapabilityMalformedReason::OffsetOutOfRange => "OffsetOutOfRange",
        PciCapabilityMalformedReason::CycleDetected => "CycleDetected",
        PciCapabilityMalformedReason::InvalidNextPointer => "InvalidNextPointer",
        PciCapabilityMalformedReason::MissingHeader => "MissingHeader",
    }
}

/// Appends the name of a capability's state.
pub fn push_state(out: &mut String, s: PciCapabilityState)
    ensures
        final(out)@ == old(out)@ + state_text(s),
{
    match s {
        PciCapabilityState::Valid => out.append("Valid"),
        PciCapabilityState::Truncated => out.append("Truncated"),
        PciCapabilityState::Unavailable(r) => {
            out.append("Unavailable(");
            out.append(reason_str(r));
            out.append(")");
            proof {
                assert(out@ =~= old(out)@ + state_text(s));
            }
        },
        PciCapabilityState::Malformed(r) => {
            out.append("Malformed(");
            out.append(malformed_str(r));
            out.append(")");
            proof {
                assert(out@ =~= old(out)@ + state_text(s));
            }
        },
    }
}

/// Appends the name of a list's status, with `not_present` for an absent list.
pub fn push_chain_status(out: &mut String, s: PciCapabilityChainStatus, not_present: &str)
    ensures
        final(out)@ == old(out)@ + chain_status_text(s, not_present@),
{
    match s {
        PciCapabilityChainStatus::NotPresent => out.append(not_present),
        PciCapabilityChainStatus::Complete => out.append("complete"),
        PciCapabilityChainStatus::Truncated => out.append("truncated"),
        PciCapabilityChainStatus::Unavailable(r) => {
            out.append("unavailable: ");
            out.append(reason_str(r));
            proof {
                assert(out@ =~= old(out)@ + chain_status_text(s, not_present@));
            }
        },
        PciCapabilityChainStatus::Malformed(r) => {
            out.append("malformed: ");
            out.append(malformed_str(r));
            proof {
                assert(out@ =~= old(out)@ + chain_status_text(s, not_present@));
            }
        },
    }
}

/// The name of a capability kind.
pub fn kind_str(k: PciCapabilityKind) -> (s: &'static str)
    ensures
        s@ == kind_text(k),
{
    match k {
        PciCapabilityKind::Standard => "standard",
        PciCapabilityKind::Extended => "extended",
        PciCapabilityKind::Unknown(_) => "unknown",
    }
}

/// Appends a next pointer.
pub fn push_next(out: &mut String, next: Option<u16>)
    ensures
        final(out)@ == old(out)@ + next_text(next),
{
    match next {
        Some(n) => {
            out.append("0x");
            push_hex(out, n as u64, 3);
            proof {
                assert(out@ =~= old(out)@ + next_text(next));
            }
        },
        None => out.append("none"),
    }
}

} // verus!
