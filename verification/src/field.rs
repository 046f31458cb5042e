//! Values that may be missing, and the capability list model.
use vstd::prelude::*;
use crate::decoders::PciCapabilityContent;

verus! {

/// A value read from a device, or the reason it could not be read.
#[derive(Clone, Debug, PartialEq, Eq)]
pub enum PciField<T> {
    Available(T),
    Unavailable { reason: PciFieldUnavailableReason },
    NotApplicable,
}

#[derive(Clone, Copy, Debug, PartialEq, Eq, Structural)]
pub enum PciFieldUnavailableReason {
    PermissionDenied,
    UnsupportedByBackend,
    UnsupportedByLibrary,
    DeviceUnavailable,
    NotBound,
    ReadError,
    Unknown,
}

#[derive(Clone, Copy, Debug, PartialEq, Eq, Structural)]
pub enum PciCapabilityState {
    Valid,
    Truncated,
    Unavailable(PciFieldUnavailableReason),
    Malformed(PciCapabilityMalformedReason),
}

#[derive(Clone, Copy, Debug, PartialEq, Eq, Structural)]
pub enum PciCapabilityMalformedReason {
    MisalignedOffset,
    OffsetOutOfRange,
    CycleDetected,
    InvalidNextPointer,
    MissingHeader,
}

#[derive(Clone, Copy, Debug, PartialEq, Eq, Structural)]
pub enum PciCapabilityChainStatus {
    NotPresent,
    Complete,
    Truncated,
    Unavailable(PciFieldUnavailableReason),
    Malformed(PciCapabilityMalformedReason),
}

/// The standard and extended capability lists of a device.
#[derive(Clone, Debug, PartialEq, Eq)]
pub struct PciCapabilityReport {
    pub standard: Vec<PciCapability>,
    pub extended: Vec<PciCapability>,
    pub standard_status: PciCapabilityChainStatus,
    pub extended_status: PciCapabilityChainStatus,
}

#[derive(Clone, Copy, Debug, PartialEq, Eq, Structural)]
pub enum PciCapabilityKind {
    Standard,
    Extended,
    Unknown(u16),
}

/// One entry of a capability list.
///
/// `content` holds the decoded registers of the capability once they have
/// been decoded from a configuration space snapshot.
#[derive(Clone, Debug, PartialEq, Eq)]
pub struct PciCapability {
    pub id: u16,
    pub kind: PciCapabilityKind,
    pub offset: u16,
    pub next: Option<u16>,
    pub state: PciCapabilityState,
    pub content: Option<PciCapabilityContent>,
}

} // verus!
