//! Walking the standard and extended capability lists.
//!
//! A walk reads one capability header at a time: `pending_read` names the
//! bytes it needs next, and once they have been fetched into the snapshot
//! `advance` takes the next step.
use vstd::prelude::*;
use crate::bits::{bits_of, le16, word_from_le, field16};
use crate::config::{ConfigReadFailure, ConfigSpaceSnapshot};
use crate::field::{
    PciCapability, PciCapabilityChainStatus, PciCapabilityKind, PciCapabilityMalformedReason,
    PciCapabilityState,
};

verus! {

/// Which capability list a walk follows.
#[derive(Clone, Copy, Debug, PartialEq, Eq, Structural)]
pub enum ChainKind {
    Standard,
    Extended,
}

impl ChainKind {
    /// The first offset at which a capability of this list may stand.
    pub open spec fn range_start(self) -> int {
        match self { ChainKind::Standard => 0x40, ChainKind::Extended => 0x100 }
    }

    /// The offset past the last one at which a capability of this list may stand.
    pub open spec fn range_end(self) -> int {
        match self { ChainKind::Standard => 0x100, ChainKind::Extended => 0x1000 }
    }

    pub open spec fn in_range(self, v: int) -> bool {
        self.range_start() <= v < self.range_end()
    }

    /// The most capabilities a walk lists before it reports the list truncated.
    pub open spec fn max_nodes(self) -> nat {
        match self { ChainKind::Standard => 48, ChainKind::Extended => 256 }
    }

    /// The length of a capability header.
    pub open spec fn header_len(self) -> u32 {
        match self { ChainKind::Standard => 2, ChainKind::Extended => 4 }
    }

    pub open spec fn capability_kind(self) -> PciCapabilityKind {
        match self { ChainKind::Standard => PciCapabilityKind::Standard, ChainKind::Extended => PciCapabilityKind::Extended }
    }

    /// The capability ID in a header: its first byte, or its first word.
    pub open spec fn header_id(self, h: Seq<u8>) -> u16 {
        match self {
            ChainKind::Standard => h[0] as u16,
            ChainKind::Extended => le16(h[0], h[1]) as u16,
        }
    }

    /// The next pointer in a header: its second byte, or the upper twelve
    /// bits of its second word.
    pub open spec fn header_next(self, h: Seq<u8>) -> u16 {
        match self {
            ChainKind::Standard => h[1] as u16,
            ChainKind::Extended => bits_of(le16(h[2], h[3]), 4, 12) as u16,
        }
    }
}

/// How a walk reads a capability header, and the bounds of each list. A
/// standard header is the ID byte, then the next pointer byte; standard
/// capabilities lie in 0x40..0x100, at most 48 of them. An extended header's
/// ID is its first little-endian word and its next pointer the upper twelve
/// bits of its second word; extended capabilities lie in 0x100..0x1000, at
/// most 256 of them.
pub proof fn lemma_header_layout(h: Seq<u8>)
    requires
        h.len() >= 4,
    ensures
        ChainKind::Standard.header_id(h) == h[0] as u16,
        ChainKind::Standard.header_next(h) == h[1] as u16,
        ChainKind::Extended.header_id(h) == (h[0] as u16) | ((h[1] as u16) << 8u16),
        ChainKind::Extended.header_next(h) == (((h[2] as u16) | ((h[3] as u16) << 8u16)) >> 4u16) & 0x0fff,
        forall|v: int| ChainKind::Standard.in_range(v) <==> 0x40 <= v < 0x100,
        forall|v: int| ChainKind::Extended.in_range(v) <==> 0x100 <= v < 0x1000,
        ChainKind::Standard.max_nodes() == 48,
        ChainKind::Extended.max_nodes() == 256,
{
    let (b0, b1, b2, b3) = (h[0], h[1], h[2], h[3]);
    let w01: u16 = (b0 as u16) | ((b1 as u16) << 8u16);
    let w23: u16 = (b2 as u16) | ((b3 as u16) << 8u16);
    assert(w01 == (b0 as u16) + (b1 as u16) * 256u16 && w23 == (b2 as u16) + (b3 as u16) * 256u16) by (bit_vector)
        requires
            w01 == (b0 as u16) | ((b1 as u16) << 8u16),
            w23 == (b2 as u16) | ((b3 as u16) << 8u16),
    ;
    vstd::bits::lemma_low_bits_mask_values();
    vstd::arithmetic::power2::lemma2_to64();
    crate::bits::lemma_field16_shift_mask(w23, 4, 12);
}

/// The status of a list whose first pointer is unusable.
pub open spec fn malformed_start_spec(kind: ChainKind, start: u16) -> PciCapabilityChainStatus {
    if start == 0 {
        PciCapabilityChainStatus::Malformed(PciCapabilityMalformedReason::InvalidNextPointer)
    } else if !kind.in_range(start as int) {
        PciCapabilityChainStatus::Malformed(PciCapabilityMalformedReason::OffsetOutOfRange)
    } else {
        PciCapabilityChainStatus::Malformed(PciCapabilityMalformedReason::MisalignedOffset)
    }
}

/// Whether some listed capability stands at `offset`.
pub open spec fn visited(caps: Seq<PciCapability>, offset: u16) -> bool {
    exists|i: int| 0 <= i < caps.len() && (#[trigger] caps[i]).offset == offset
}

/// What the walk does after listing `caps`, whose last header points to
/// `next`: finish with a status, or go on (`None`).
pub open spec fn continue_status(kind: ChainKind, caps: Seq<PciCapability>, next: u16) -> Option<PciCapabilityChainStatus> {
    if next == 0 {
        Some(PciCapabilityChainStatus::Complete)
    } else if !kind.in_range(next as int) {
        Some(PciCapabilityChainStatus::Malformed(PciCapabilityMalformedReason::OffsetOutOfRange))
    } else if next % 4 != 0 {
        Some(PciCapabilityChainStatus::Malformed(PciCapabilityMalformedReason::MisalignedOffset))
    } else if caps.len() >= kind.max_nodes() {
        Some(PciCapabilityChainStatus::Truncated)
    } else if visited(caps, next) {
        Some(PciCapabilityChainStatus::Malformed(PciCapabilityMalformedReason::CycleDetected))
    } else {
        None
    }
}

/// Whether a header is all zero bytes.
pub open spec fn all_zero(h: Seq<u8>) -> bool {
    forall|i: int| 0 <= i < h.len() ==> h[i] == 0
}

/// The capability listed from the header read at `offset`.
pub open spec fn header_node(kind: ChainKind, offset: u16, h: Seq<u8>) -> PciCapability {
    let next = kind.header_next(h);
    PciCapability {
        id: kind.header_id(h),
        kind: kind.capability_kind(),
        offset,
        next: if next == 0 { None } else { Some(next) },
        state: PciCapabilityState::Valid,
        content: None,
    }
}

/// A list as found by a walk: its capabilities and how the walk ended.
#[derive(Clone, Debug, PartialEq, Eq)]
pub struct ChainDiscovery {
    pub capabilities: Vec<PciCapability>,
    pub status: PciCapabilityChainStatus,
}

/// Whether the capabilities form a list as a walk finds it: in the list's
/// range, four-byte aligned, at distinct offsets, each pointing to the next,
/// at most as many as the list allows, all valid and not yet decoded.
pub open spec fn chain_wf(kind: ChainKind, caps: Seq<PciCapability>) -> bool {
    &&& caps.len() <= kind.max_nodes()
    &&& forall|i: int| 0 <= i < caps.len() ==> {
        &&& kind.in_range((#[trigger] caps[i]).offset as int)
        &&& caps[i].offset % 4 == 0
        &&& caps[i].kind == kind.capability_kind()
        &&& caps[i].state == PciCapabilityState::Valid
        &&& caps[i].content is None
    }
    &&& forall|i: int, j: int| 0 <= i < j < caps.len() ==> (#[trigger] caps[i]).offset != (#[trigger] caps[j]).offset
    &&& forall|i: int| #![trigger caps[i].next] 0 <= i < caps.len() - 1 ==> caps[i].next == Some(caps[i + 1].offset)
}

/// The list that a walk over `s` finds, having listed `caps` and standing at
/// `current`: the capabilities it lists and how it ends. A header that
/// cannot be read ends it (unavailable when nothing was listed, truncated
/// otherwise); an all-zero header ends it (an absent extended list when it
/// stands first at 0x100, a missing header otherwise); any other header is
/// listed and its next pointer followed, as `continue_status` says.
pub open spec fn walk_from(kind: ChainKind, caps: Seq<PciCapability>, current: u16, s: ConfigSpaceSnapshot)
    -> (Seq<PciCapability>, PciCapabilityChainStatus)
    decreases kind.max_nodes() - caps.len(),
{
    match s.read_spec(current as u32, kind.header_len()) {
        Err(f) => (caps, if caps.len() == 0 {
            PciCapabilityChainStatus::Unavailable(f.reason)
        } else {
            PciCapabilityChainStatus::Truncated
        }),
        Ok(h) => if all_zero(h) {
            (caps, if caps.len() == 0 && kind == ChainKind::Extended && current == 0x100 {
                PciCapabilityChainStatus::NotPresent
            } else {
                PciCapabilityChainStatus::Malformed(PciCapabilityMalformedReason::MissingHeader)
            })
        } else {
            let caps2 = caps.push(header_node(kind, current, h));
            match continue_status(kind, caps2, kind.header_next(h)) {
                Some(status) => (caps2, status),
                None => walk_from(kind, caps2, kind.header_next(h), s),
            }
        },
    }
}

/// The list that a walk over `s` finds from the pointer `start`: malformed at
/// once when the pointer is out of the list's range or misaligned.
pub open spec fn chain_from(kind: ChainKind, start: u16, s: ConfigSpaceSnapshot) -> (Seq<PciCapability>, PciCapabilityChainStatus) {
    if kind.in_range(start as int) && start % 4 == 0 {
        walk_from(kind, Seq::empty(), start, s)
    } else {
        (Seq::empty(), malformed_start_spec(kind, start))
    }
}

/// The standard list as a walk over `s` finds it: unavailable when the
/// common header cannot be read, not present when the status register's
/// capabilities bit is clear, malformed when the capabilities pointer is
/// zero, else the list from that pointer.
pub open spec fn standard_chain(s: ConfigSpaceSnapshot) -> (Seq<PciCapability>, PciCapabilityChainStatus) {
    match s.read_spec(0, 0x40) {
        Err(f) => (Seq::empty(), PciCapabilityChainStatus::Unavailable(f.reason)),
        Ok(h) => if !crate::bits::flag_of(le16(h[6], h[7]), 4) {
            (Seq::empty(), PciCapabilityChainStatus::NotPresent)
        } else if h[0x34] == 0 {
            (Seq::empty(), PciCapabilityChainStatus::Malformed(PciCapabilityMalformedReason::InvalidNextPointer))
        } else {
            chain_from(ChainKind::Standard, h[0x34] as u16, s)
        },
    }
}

/// The extended list as a walk over `s` finds it, from 0x100.
pub open spec fn extended_chain(s: ConfigSpaceSnapshot) -> (Seq<PciCapability>, PciCapabilityChainStatus) {
    chain_from(ChainKind::Extended, 0x100, s)
}

/// Whether the walk over `s` listed `caps[i]` from a readable, non-zero
/// header and went on to the next capability (or to `current`, after the
/// last one).
pub open spec fn step_taken(kind: ChainKind, caps: Seq<PciCapability>, i: int, current: u16, s: ConfigSpaceSnapshot) -> bool {
    let next = if i + 1 < caps.len() { caps[i + 1].offset } else { current };
    &&& s.read_spec(caps[i].offset as u32, kind.header_len()) matches Ok(h)
    &&& !all_zero(h)
    &&& caps[i] == header_node(kind, caps[i].offset, h)
    &&& kind.header_next(h) == next
    &&& continue_status(kind, caps.take(i + 1), next) is None
}

/// Whether a walk over `s` from `start` has listed `caps` and goes on at
/// `current`.
pub open spec fn walked(kind: ChainKind, start: u16, caps: Seq<PciCapability>, current: u16, s: ConfigSpaceSnapshot) -> bool {
    &&& if caps.len() == 0 { current == start } else { caps[0].offset == start }
    &&& forall|i: int| 0 <= i < caps.len() ==> #[trigger] step_taken(kind, caps, i, current, s)
}

proof fn lemma_walked_suffix(kind: ChainKind, start: u16, caps: Seq<PciCapability>, current: u16, s: ConfigSpaceSnapshot, k: int)
    requires
        walked(kind, start, caps, current, s),
        0 <= k <= caps.len(),
    ensures
        walk_from(kind, caps.take(k), if k < caps.len() { caps[k].offset } else { current }, s)
            == walk_from(kind, caps, current, s),
    decreases caps.len() - k,
{
    if k < caps.len() {
        lemma_walked_suffix(kind, start, caps, current, s, k + 1);
        assert(step_taken(kind, caps, k, current, s));
        let h = s.read_spec(caps[k].offset as u32, kind.header_len())->Ok_0;
        assert(caps.take(k).push(header_node(kind, caps[k].offset, h)) =~= caps.take(k + 1));
    } else {
        assert(caps.take(k) =~= caps);
    }
}

/// A walk that has listed `caps` and goes on at `current` ends as a walk
/// from its start ends.
pub proof fn lemma_walked(kind: ChainKind, start: u16, caps: Seq<PciCapability>, current: u16, s: ConfigSpaceSnapshot)
    requires
        walked(kind, start, caps, current, s),
    ensures
        walk_from(kind, Seq::empty(), start, s) == walk_from(kind, caps, current, s),
{
    lemma_walked_suffix(kind, start, caps, current, s, 0);
    assert(caps.take(0) =~= Seq::<PciCapability>::empty());
}

/// A walk that reads a non-zero header at `current` and goes on has walked
/// one capability further.
pub proof fn lemma_walked_step(kind: ChainKind, start: u16, caps: Seq<PciCapability>, current: u16, s: ConfigSpaceSnapshot, h: Seq<u8>)
    requires
        walked(kind, start, caps, current, s),
        s.read_spec(current as u32, kind.header_len()) == Ok::<Seq<u8>, ConfigReadFailure>(h),
        !all_zero(h),
        continue_status(kind, caps.push(header_node(kind, current, h)), kind.header_next(h)) is None,
    ensures
        walked(kind, start, caps.push(header_node(kind, current, h)), kind.header_next(h), s),
{
    let caps2 = caps.push(header_node(kind, current, h));
    let next = kind.header_next(h);
    assert forall|i: int| 0 <= i < caps2.len() implies #[trigger] step_taken(kind, caps2, i, next, s) by {
        if i < caps.len() {
            assert(step_taken(kind, caps, i, current, s));
            assert(caps2.take(i + 1) =~= caps.take(i + 1));
            assert(caps2[i] == caps[i]);
        } else {
            assert(caps2.take(i + 1) =~= caps2);
        }
    }
}

/// A walk along a capability list.
pub struct ChainWalk {
    kind: ChainKind,
    capabilities: Vec<PciCapability>,
    current: u16,
    status: Option<PciCapabilityChainStatus>,
}

impl ChainWalk {
    pub closed spec fn spec_kind(&self) -> ChainKind {
        self.kind
    }

    /// The capabilities listed so far.
    pub closed spec fn spec_capabilities(&self) -> Seq<PciCapability> {
        self.capabilities@
    }

    /// The offset of the header to read next, while the walk goes on.
    pub closed spec fn spec_current(&self) -> u16 {
        self.current
    }

    /// How the walk ended, once it has.
    pub closed spec fn spec_status(&self) -> Option<PciCapabilityChainStatus> {
        self.status
    }

    /// The walk's invariant: its list is well formed, and while it goes on
    /// the next header lies in range, aligned, unvisited, after the last
    /// listed capability (or at the start), with room left in the list.
    pub closed spec fn inv(&self) -> bool {
        &&& chain_wf(self.kind, self.capabilities@)
        &&& self.status is None ==> {
            &&& self.kind.in_range(self.current as int)
            &&& self.current % 4 == 0
            &&& !visited(self.capabilities@, self.current)
            &&& self.capabilities@.len() < self.kind.max_nodes()
            &&& self.capabilities@.len() > 0 ==> self.capabilities@.last().next == Some(self.current)
        }
    }

    /// A walk that begins at `start`; a start pointer out of range or
    /// misaligned ends it at once as malformed.
    pub fn start(kind: ChainKind, start: u16) -> (r: Self)
        ensures
            r.inv(),
            r.spec_kind() == kind,
            r.spec_capabilities().len() == 0,
            (kind.in_range(start as int) && start % 4 == 0) ==> r.spec_status() is None && r.spec_current() == start,
            !(kind.in_range(start as int) && start % 4 == 0) ==> r.spec_status() == Some(malformed_start_spec(kind, start)),
    {
        let (range_start, range_end): (u16, u16) = match kind {
            ChainKind::Standard => (0x40, 0x100),
            ChainKind::Extended => (0x100, 0x1000),
        };
        if !(range_start <= start && start < range_end) || start % 4 != 0 {
            return ChainWalk {
                kind,
                capabilities: Vec::new(),
                current: start,
                status: Some(malformed_start(kind, start)),
            };
        }
        ChainWalk { kind, capabilities: Vec::new(), current: start, status: None }
    }

    /// The standard list, as announced by the common header (offsets 0 to 0x40):
    /// not present when the status register's capabilities bit is clear,
    /// malformed when the capabilities pointer (offset 0x34) is zero,
    /// unavailable when the header cannot be read.
    pub fn standard(snapshot: &ConfigSpaceSnapshot) -> (r: Self)
        requires
            snapshot.wf(),
        ensures
            r.inv(),
            r.spec_kind() == ChainKind::Standard,
            r.spec_capabilities().len() == 0,
            match snapshot.read_spec(0, 0x40) {
                Err(f) => r.spec_status() == Some(PciCapabilityChainStatus::Unavailable(f.reason)),
                Ok(h) => {
                    let status = le16(h[6], h[7]);
                    let pointer = h[0x34] as u16;
                    if !crate::bits::flag_of(status, 4) {
                        r.spec_status() == Some(PciCapabilityChainStatus::NotPresent)
                    } else if pointer == 0 {
                        r.spec_status() == Some(PciCapabilityChainStatus::Malformed(PciCapabilityMalformedReason::InvalidNextPointer))
                    } else if ChainKind::Standard.in_range(pointer as int) && pointer % 4 == 0 {
                        r.spec_status() is None && r.spec_current() == pointer
                    } else {
                        r.spec_status() == Some(malformed_start_spec(ChainKind::Standard, pointer))
                    }
                },
            },
    {
        let header = match snapshot.read(0, 0x40) {
            Ok(bytes) => bytes,
            Err(failure) => {
                return Self::finished(ChainKind::Standard, PciCapabilityChainStatus::Unavailable(failure.reason));
            },
        };
        let status = word_from_le(header[0x06], header[0x07]);
        if !crate::bits::flag16(status, 4) {
            return Self::finished(ChainKind::Standard, PciCapabilityChainStatus::NotPresent);
        }
        let pointer = header[0x34] as u16;
        if pointer == 0 {
            return Self::finished(
                ChainKind::Standard,
                PciCapabilityChainStatus::Malformed(PciCapabilityMalformedReason::InvalidNextPointer),
            );
        }
        Self::start(ChainKind::Standard, pointer)
    }

    /// The extended list, which always begins at 0x100.
    pub fn extended() -> (r: Self)
        ensures
            r.inv(),
            r.spec_kind() == ChainKind::Extended,
            r.spec_capabilities().len() == 0,
            r.spec_status() is None,
            r.spec_current() == 0x100,
    {
        Self::start(ChainKind::Extended, 0x100)
    }

    fn finished(kind: ChainKind, status: PciCapabilityChainStatus) -> (r: Self)
        ensures
            r.inv(),
            r.spec_kind() == kind,
            r.spec_capabilities().len() == 0,
            r.spec_status() == Some(status),
    {
        ChainWalk { kind, capabilities: Vec::new(), current: 0, status: Some(status) }
    }

    /// The bytes the walk needs next: the header at the current offset,
    /// while the walk goes on.
    pub fn pending_read(&self) -> (r: Option<(u32, u32)>)
        requires
            self.inv(),
        ensures
            self.spec_status() is Some ==> r is None,
            self.spec_status() is None ==> r == Some((self.spec_current() as u32, self.spec_kind().header_len())),
            r matches Some((offset, length)) ==> offset + length <= self.spec_kind().range_end(),
    {
        if self.status.is_some() {
            None
        } else {
            let len: u32 = match self.kind {
                ChainKind::Standard => 2,
                ChainKind::Extended => 4,
            };
            Some((self.current as u32, len))
        }
    }

    /// Whether a capability of the list stands at `offset`.
    fn is_visited(&self, offset: u16) -> (r: bool)
        ensures
            r == visited(self.capabilities@, offset),
    {
        let mut i: usize = 0;
        while i < self.capabilities.len()
            invariant
                i <= self.capabilities@.len(),
                forall|j: int| 0 <= j < i ==> (#[trigger] self.capabilities@[j]).offset != offset,
            decreases self.capabilities@.len() - i,
        {
            if self.capabilities[i].offset == offset {
                return true;
            }
            i = i + 1;
        }
        false
    }

    /// Takes the next step, reading the current header from the snapshot: a
    /// header that cannot be read ends the walk (unavailable when nothing was
    /// listed yet, truncated otherwise); an all-zero header ends it (an absent
    /// extended list when it stands at 0x100 first, a missing header
    /// otherwise); any other header is listed and its next pointer followed.
    pub fn advance(&mut self, snapshot: &ConfigSpaceSnapshot)
        requires
            old(self).inv(),
            snapshot.wf(),
        ensures
            final(self).inv(),
            final(self).spec_kind() == old(self).spec_kind(),
            old(self).spec_status() is Some ==> *final(self) == *old(self),
            old(self).spec_status() is None ==> {
                let kind = old(self).spec_kind();
                let caps = old(self).spec_capabilities();
                let current = old(self).spec_current();
                match snapshot.read_spec(current as u32, kind.header_len()) {
                    Err(f) => {
                        &&& final(self).spec_capabilities() == caps
                        &&& final(self).spec_status() == Some(if caps.len() == 0 {
                            PciCapabilityChainStatus::Unavailable(f.reason)
                        } else {
                            PciCapabilityChainStatus::Truncated
                        })
                    },
                    Ok(h) => if all_zero(h) {
                        &&& final(self).spec_capabilities() == caps
                        &&& final(self).spec_status() == Some(
                            if caps.len() == 0 && kind == ChainKind::Extended && current == 0x100 {
                                PciCapabilityChainStatus::NotPresent
                            } else {
                                PciCapabilityChainStatus::Malformed(PciCapabilityMalformedReason::MissingHeader)
                            })
                    } else {
                        &&& final(self).spec_capabilities() == caps.push(header_node(kind, current, h))
                        &&& final(self).spec_status() == continue_status(kind, final(self).spec_capabilities(), kind.header_next(h))
                        &&& final(self).spec_status() is None ==> final(self).spec_current() == kind.header_next(h)
                    },
                }
            },
    {
        if self.status.is_some() {
            return;
        }
        let (header_len, range_start, range_end, max_nodes): (u32, u16, u16, usize) = match self.kind {
            ChainKind::Standard => (2, 0x40, 0x100, 48),
            ChainKind::Extended => (4, 0x100, 0x1000, 256),
        };
        let header = match snapshot.read(self.current as u32, header_len) {
            Ok(bytes) => bytes,
            Err(failure) => {
                self.status = Some(
                    if self.capabilities.len() == 0 {
                        PciCapabilityChainStatus::Unavailable(failure.reason)
                    } else {
                        PciCapabilityChainStatus::Truncated
                    },
                );
                return;
            },
        };

        let mut zero = true;
        let mut k: usize = 0;
        while k < header.len()
            invariant
                k <= header@.len(),
                zero == forall|i: int| 0 <= i < k ==> header@[i] == 0,
            decreases header@.len() - k,
        {
            if header[k] != 0 {
                zero = false;
            }
            k = k + 1;
        }
        if zero {
            let is_extended = match self.kind {
                ChainKind::Standard => false,
                ChainKind::Extended => true,
            };
            self.status = Some(
                if self.capabilities.len() == 0 && is_extended && self.current == 0x100 {
                    PciCapabilityChainStatus::NotPresent
                } else {
                    PciCapabilityChainStatus::Malformed(PciCapabilityMalformedReason::MissingHeader)
                },
            );
            return;
        }

        let (id, next) = match self.kind {
            ChainKind::Standard => (header[0] as u16, header[1] as u16),
            ChainKind::Extended => (
                word_from_le(header[0], header[1]),
                field16(word_from_le(header[2], header[3]), 4, 12),
            ),
        };
        let ghost old_caps = self.capabilities@;
        let current = self.current;
        let node = PciCapability {
            id,
            kind: match self.kind {
                ChainKind::Standard => PciCapabilityKind::Standard,
                ChainKind::Extended => PciCapabilityKind::Extended,
            },
            offset: current,
            next: if next == 0 { None } else { Some(next) },
            state: PciCapabilityState::Valid,
            content: None,
        };
        self.capabilities.push(node);
        proof {
            let caps = self.capabilities@;
            assert(caps.last() == node);
            assert forall|i: int, j: int| 0 <= i < j < caps.len() implies (#[trigger] caps[i]).offset != (#[trigger] caps[j]).offset by {
                if j == caps.len() - 1 {
                    assert(old_caps[i] == caps[i]);
                }
            }
            assert forall|i: int| #![trigger caps[i].next] 0 <= i < caps.len() - 1 implies caps[i].next == Some(caps[i + 1].offset) by {
                if i == caps.len() - 2 {
                    assert(old_caps.last() == caps[i]);
                }
            }
        }

        if next == 0 {
            self.status = Some(PciCapabilityChainStatus::Complete);
            return;
        }
        if !(range_start <= next && next < range_end) {
            self.status = Some(PciCapabilityChainStatus::Malformed(PciCapabilityMalformedReason::OffsetOutOfRange));
            return;
        }
        if next % 4 != 0 {
            self.status = Some(PciCapabilityChainStatus::Malformed(PciCapabilityMalformedReason::MisalignedOffset));
            return;
        }
        if self.capabilities.len() >= max_nodes {
            self.status = Some(PciCapabilityChainStatus::Truncated);
            return;
        }
        if self.is_visited(next) {
            self.status = Some(PciCapabilityChainStatus::Malformed(PciCapabilityMalformedReason::CycleDetected));
            return;
        }
        self.current = next;
    }

    /// A walk's list is well formed, and while the walk goes on it has room
    /// for one more capability.
    pub proof fn lemma_room(&self)
        requires
            self.inv(),
        ensures
            chain_wf(self.spec_kind(), self.spec_capabilities()),
            self.spec_status() is None ==> self.spec_capabilities().len() < self.spec_kind().max_nodes(),
    {
    }

    /// The list the walk found, once it has ended.
    pub fn into_discovery(self) -> (r: Option<ChainDiscovery>)
        requires
            self.inv(),
        ensures
            self.spec_status() is None ==> r is None,
            self.spec_status() matches Some(status) ==> r matches Some(d) && d.status == status
                && d.capabilities@ == self.spec_capabilities()
                && chain_wf(self.spec_kind(), d.capabilities@),
    {
        match self.status {
            Some(status) => Some(ChainDiscovery { capabilities: self.capabilities, status }),
            None => None,
        }
    }
}

/// The status of a list whose first pointer is unusable: a zero pointer,
/// one out of the list's range, or a misaligned one.
pub fn malformed_start(kind: ChainKind, start: u16) -> (r: PciCapabilityChainStatus)
    ensures
        r == malformed_start_spec(kind, start),
{
    let (range_start, range_end): (u16, u16) = match kind {
        ChainKind::Standard => (0x40, 0x100),
        ChainKind::Extended => (0x100, 0x1000),
    };
    if start == 0 {
        PciCapabilityChainStatus::Malformed(PciCapabilityMalformedReason::InvalidNextPointer)
    } else if !(range_start <= start && start < range_end) {
        PciCapabilityChainStatus::Malformed(PciCapabilityMalformedReason::OffsetOutOfRange)
    } else {
        PciCapabilityChainStatus::Malformed(PciCapabilityMalformedReason::MisalignedOffset)
    }
}

} // verus!
