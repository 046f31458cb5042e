//! Discovering and decoding the capabilities of a device.
//!
//! A `CapabilityScan` decides which bytes of configuration space to read, in
//! which order, and what to make of them; the caller performs the reads.
//! `next_read` names the next block to read (or `None` once the scan is
//! over) and `complete_read` takes what reading it gave.
use vstd::prelude::*;
use crate::bits::le16;
use crate::capability::{
    ChainDiscovery, ChainKind, ChainWalk, chain_wf, header_node, all_zero, continue_status, extended_chain, lemma_walked,
    lemma_walked_step, standard_chain, step_taken, walked,
};
use crate::config::{ConfigReadFailure, ConfigSpaceSnapshot};
use crate::decoders::{content_matches, decode_content, has_decoder};
use crate::field::{
    PciCapability, PciCapabilityChainStatus, PciCapabilityReport, PciCapabilityState, PciField,
    PciFieldUnavailableReason,
};
use crate::reader::{BlockRead, ConfigSpaceReader, MIN_READ_BLOCK, failure_contains, in_failed};
use crate::segments::{byte_after_insert, range_unknown};

verus! {

/// Whether every byte known in `s1` is known, with the same value, in `s2`,
/// and every failure recorded in `s1` is still recorded, at the same place,
/// in `s2`.
pub open spec fn snapshot_grows(s1: ConfigSpaceSnapshot, s2: ConfigSpaceSnapshot) -> bool {
    &&& forall|a: int| s1.byte_at(a) is Some ==> #[trigger] s2.byte_at(a) == s1.byte_at(a)
    &&& s1.failures@.len() <= s2.failures@.len()
    &&& forall|k: int| 0 <= k < s1.failures@.len() ==> #[trigger] s2.failures@[k] == s1.failures@[k]
}

/// Whether reading address `a` was tried: it is known, or a recorded
/// failure covers it.
pub open spec fn tried(s: ConfigSpaceSnapshot, a: int) -> bool {
    s.byte_at(a) is Some || in_failed(s.failures@, 0, a)
}

/// Whether reading every address of `[offset, offset + length)` was tried.
pub open spec fn range_tried(s: ConfigSpaceSnapshot, offset: int, length: int) -> bool {
    forall|a: int| offset <= a < offset + length ==> #[trigger] tried(s, a)
}

/// Whether every header that a walk over `s` reads, having listed `caps`
/// and standing at `current`, was tried: the one at `current`, and those
/// the walk goes on to.
pub open spec fn walk_reads_tried(kind: ChainKind, caps: Seq<PciCapability>, current: u16, s: ConfigSpaceSnapshot) -> bool
    decreases kind.max_nodes() - caps.len(),
{
    &&& range_tried(s, current as int, kind.header_len() as int)
    &&& match s.read_spec(current as u32, kind.header_len()) {
        Ok(h) => !all_zero(h) ==> {
            let caps2 = caps.push(header_node(kind, current, h));
            continue_status(kind, caps2, kind.header_next(h)) is None
                ==> walk_reads_tried(kind, caps2, kind.header_next(h), s)
        },
        Err(_) => true,
    }
}

/// Whether every read a walk of the standard list over `s` makes was
/// tried: the common header, and the capability headers from its pointer.
pub open spec fn standard_reads_tried(s: ConfigSpaceSnapshot) -> bool {
    &&& range_tried(s, 0, 0x40)
    &&& match s.read_spec(0, 0x40) {
        Ok(h) => (crate::bits::flag_of(le16(h[6], h[7]), 4) && h[0x34] != 0
            && ChainKind::Standard.in_range(h[0x34] as int) && h[0x34] % 4 == 0)
            ==> walk_reads_tried(ChainKind::Standard, Seq::empty(), h[0x34] as u16, s),
        Err(_) => true,
    }
}

/// Whether every header a walk of the extended list over `s` reads was tried.
pub open spec fn extended_reads_tried(s: ConfigSpaceSnapshot) -> bool {
    walk_reads_tried(ChainKind::Extended, Seq::empty(), 0x100, s)
}

proof fn lemma_walked_reads_suffix(kind: ChainKind, start: u16, caps: Seq<PciCapability>, current: u16, s: ConfigSpaceSnapshot, k: int)
    requires
        walked(kind, start, caps, current, s),
        walk_reads_tried(kind, caps, current, s),
        0 <= k <= caps.len(),
    ensures
        walk_reads_tried(kind, caps.take(k), if k < caps.len() { caps[k].offset } else { current }, s),
    decreases caps.len() - k,
{
    if k < caps.len() {
        lemma_walked_reads_suffix(kind, start, caps, current, s, k + 1);
        assert(step_taken(kind, caps, k, current, s));
        let off = caps[k].offset;
        let h = s.read_spec(off as u32, kind.header_len())->Ok_0;
        assert(caps.take(k).push(header_node(kind, off, h)) =~= caps.take(k + 1));
        assert(s.covers_range(off as int, kind.header_len() as int));
        assert forall|a: int| off <= a < off + kind.header_len() implies #[trigger] tried(s, a) by {
            assert(s.byte_at(a) is Some);
        }
    } else {
        assert(caps.take(k) =~= caps);
    }
}

/// The reads of a walk from its start were all tried, when those of what
/// it has walked so far were and the header it stands at was.
pub proof fn lemma_walked_reads(kind: ChainKind, start: u16, caps: Seq<PciCapability>, current: u16, s: ConfigSpaceSnapshot)
    requires
        walked(kind, start, caps, current, s),
        walk_reads_tried(kind, caps, current, s),
    ensures
        walk_reads_tried(kind, Seq::empty(), start, s),
{
    lemma_walked_reads_suffix(kind, start, caps, current, s, 0);
    assert(caps.take(0) =~= Seq::<PciCapability>::empty());
}

/// Whether every byte of the first 0x40 registers of the standard capability
/// at `offset`, up to the end of the standard range, was tried.
pub open spec fn prefetched(s: ConfigSpaceSnapshot, offset: u16) -> bool {
    forall|a: int| offset <= a < offset + 0x40 && a < 0x100 ==> #[trigger] tried(s, a)
}

/// The end of the prefetch of the standard capability at `offset`: 0x40
/// bytes on, or the end of the standard range.
pub open spec fn prefetch_end(offset: u16) -> int {
    if offset + 0x40 < 0x100 { offset + 0x40 } else { 0x100 }
}

/// Whether the first `n` of the capabilities were prefetched.
pub open spec fn all_prefetched(s: ConfigSpaceSnapshot, caps: Seq<PciCapability>, n: int) -> bool {
    forall|j: int| #![trigger caps[j]] 0 <= j < n ==> prefetched(s, caps[j].offset)
}

/// What was prefetched stays prefetched as the snapshot grows.
pub proof fn lemma_all_prefetched_persist(s1: ConfigSpaceSnapshot, s2: ConfigSpaceSnapshot, caps: Seq<PciCapability>, n: int)
    requires
        all_prefetched(s1, caps, n),
        snapshot_grows(s1, s2),
    ensures
        all_prefetched(s2, caps, n),
{
    assert forall|j: int| #![trigger caps[j]] 0 <= j < n implies prefetched(s2, caps[j].offset) by {
        lemma_prefetched_persists(s1, s2, caps[j].offset);
    }
}

/// Where the payload of the vendor-specific capability at `offset` ends,
/// by its length byte `len`: `len` bytes on from its fourth byte, or the end
/// of the standard range.
pub open spec fn vendor_end(offset: u16, len: u8) -> int {
    if offset + 3 + len < 0x100 { offset + 3 + len } else { 0x100 }
}

/// Whether the payload of `cap`, when it is vendor specific and its length
/// byte is known in `p`, was tried in `s`.
pub open spec fn vendor_fetched(s: ConfigSpaceSnapshot, cap: PciCapability, p: ConfigSpaceSnapshot) -> bool {
    cap.id == 0x09 ==> (p.byte_at(cap.offset + 2) matches Some(len) ==>
        forall|a: int| cap.offset + 3 <= a < vendor_end(cap.offset, len) ==> #[trigger] tried(s, a))
}

/// Whether the payloads of the first `n` of the capabilities were fetched.
pub open spec fn all_vendor_fetched(s: ConfigSpaceSnapshot, caps: Seq<PciCapability>, n: int, p: ConfigSpaceSnapshot) -> bool {
    forall|j: int| #![trigger caps[j]] 0 <= j < n ==> vendor_fetched(s, caps[j], p)
}

/// What was fetched stays fetched as the snapshot grows.
pub proof fn lemma_all_vendor_persist(s1: ConfigSpaceSnapshot, s2: ConfigSpaceSnapshot, caps: Seq<PciCapability>, n: int, p: ConfigSpaceSnapshot)
    requires
        all_vendor_fetched(s1, caps, n, p),
        snapshot_grows(s1, s2),
    ensures
        all_vendor_fetched(s2, caps, n, p),
{
    assert forall|j: int| #![trigger caps[j]] 0 <= j < n implies vendor_fetched(s2, caps[j], p) by {
        let cap = caps[j];
        if cap.id == 0x09 && p.byte_at(cap.offset + 2) is Some {
            let len = p.byte_at(cap.offset + 2)->Some_0;
            assert forall|a: int| cap.offset + 3 <= a < vendor_end(cap.offset, len) implies #[trigger] tried(s2, a) by {
                assert(vendor_fetched(s1, caps[j], p));
                assert(tried(s1, a));
                if s1.byte_at(a) is None {
                    let k = choose|k: int| 0 <= k < s1.failures@.len() && #[trigger] failure_contains(s1.failures@[k], a);
                    assert(s2.failures@[k] == s1.failures@[k]);
                    assert(failure_contains(s2.failures@[k], a));
                }
            }
        }
    }
}

/// What was tried stays tried as the snapshot grows.
pub proof fn lemma_prefetched_persists(s1: ConfigSpaceSnapshot, s2: ConfigSpaceSnapshot, offset: u16)
    requires
        prefetched(s1, offset),
        snapshot_grows(s1, s2),
    ensures
        prefetched(s2, offset),
{
    assert forall|a: int| offset <= a < offset + 0x40 && a < 0x100 implies #[trigger] tried(s2, a) by {
        assert(tried(s1, a));
        if s1.byte_at(a) is None {
            let k = choose|k: int| 0 <= k < s1.failures@.len() && #[trigger] failure_contains(s1.failures@[k], a);
            assert(s2.failures@[k] == s1.failures@[k]);
            assert(failure_contains(s2.failures@[k], a));
        }
    }
}

/// Whether the header of every listed capability can be read from the
/// snapshot, and the capability is the one listed from that header.
pub open spec fn headers_read(kind: ChainKind, caps: Seq<PciCapability>, s: ConfigSpaceSnapshot) -> bool {
    forall|i: int| #![trigger caps[i]] 0 <= i < caps.len() ==>
        (s.read_spec(caps[i].offset as u32, kind.header_len()) matches Ok(h)
            && caps[i] == header_node(kind, caps[i].offset, h))
}

/// What a list's status says of its capabilities: a complete list ends in
/// a capability without a next pointer, and a list that is absent or could
/// not be read at all has no capabilities.
pub open spec fn status_consistent(status: PciCapabilityChainStatus, caps: Seq<PciCapability>) -> bool {
    match status {
        PciCapabilityChainStatus::Complete => caps.len() > 0 && caps.last().next is None,
        PciCapabilityChainStatus::NotPresent => caps.len() == 0,
        PciCapabilityChainStatus::Unavailable(_) => caps.len() == 0,
        _ => true,
    }
}

/// Whether `caps` with `status` is a list as a walk over `s` finds it.
pub open spec fn found_chain(kind: ChainKind, caps: Seq<PciCapability>, status: PciCapabilityChainStatus, s: ConfigSpaceSnapshot) -> bool {
    &&& chain_wf(kind, caps)
    &&& headers_read(kind, caps, s)
    &&& status_consistent(status, caps)
}

/// Whether `cap` is `found` after decoding its registers from `s`.
pub open spec fn decoded_from(s: ConfigSpaceSnapshot, found: PciCapability, cap: PciCapability) -> bool {
    &&& cap.id == found.id
    &&& cap.kind == found.kind
    &&& cap.offset == found.offset
    &&& cap.next == found.next
    &&& !has_decoder(found.kind, found.id) ==> cap == found
    &&& has_decoder(found.kind, found.id) ==> {
        ||| cap.content is Some && cap.state == found.state
            && content_matches(s, found.kind, found.id, found.offset, cap.content)
        ||| cap.content == found.content && cap.state == PciCapabilityState::Truncated
            && content_matches(s, found.kind, found.id, found.offset, None)
    }
}

/// The capability field of a device: unavailable when the common header
/// could not be read (for the reason the standard list gives, if it gives
/// one), not applicable when neither list is present, else the report.
pub open spec fn capabilities_from_report_spec(report: PciCapabilityReport, header_readable: bool) -> PciField<PciCapabilityReport> {
    if !header_readable {
        PciField::Unavailable {
            reason: match report.standard_status {
                PciCapabilityChainStatus::Unavailable(reason) => reason,
                _ => PciFieldUnavailableReason::ReadError,
            },
        }
    } else if report.standard_status == PciCapabilityChainStatus::NotPresent
        && report.extended_status == PciCapabilityChainStatus::NotPresent {
        PciField::NotApplicable
    } else {
        PciField::Available(report)
    }
}

/// The capability field of a device, from its report and whether its
/// common header could be read.
pub fn capabilities_from_report(report: PciCapabilityReport, header_readable: bool) -> (r: PciField<PciCapabilityReport>)
    ensures
        r == capabilities_from_report_spec(report, header_readable),
{
    if !header_readable {
        let reason = match report.standard_status {
            PciCapabilityChainStatus::Unavailable(reason) => reason,
            _ => PciFieldUnavailableReason::ReadError,
        };
        return PciField::Unavailable { reason };
    }
    let standard_absent = match report.standard_status {
        PciCapabilityChainStatus::NotPresent => true,
        _ => false,
    };
    let extended_absent = match report.extended_status {
        PciCapabilityChainStatus::NotPresent => true,
        _ => false,
    };
    if standard_absent && extended_absent {
        PciField::NotApplicable
    } else {
        PciField::Available(report)
    }
}

/// A read that succeeds on a snapshot succeeds, with the same bytes, on any
/// snapshot that knows at least its bytes.
pub proof fn lemma_read_persists(s1: ConfigSpaceSnapshot, s2: ConfigSpaceSnapshot, offset: u32, length: u32)
    requires
        snapshot_grows(s1, s2),
        s1.read_spec(offset, length) is Ok,
    ensures
        s2.read_spec(offset, length) == s1.read_spec(offset, length),
{
    assert(s1.covers_range(offset as int, length as int));
    assert forall|a: int| offset <= a < offset + length implies (#[trigger] s2.byte_at(a)) is Some by {
        assert(s1.byte_at(a) is Some);
    }
    assert(s2.bytes_of(offset as int, length as int) =~= s1.bytes_of(offset as int, length as int)) by {
        assert forall|k: int| 0 <= k < length implies #[trigger] s2.bytes_of(offset as int, length as int)[k]
            == s1.bytes_of(offset as int, length as int)[k] by {
            assert(s1.byte_at(offset + k) is Some);
        }
    }
}

/// The headers of a list stay readable as the snapshot grows.
pub proof fn lemma_headers_persist(kind: ChainKind, caps: Seq<PciCapability>, s1: ConfigSpaceSnapshot, s2: ConfigSpaceSnapshot)
    requires
        headers_read(kind, caps, s1),
        snapshot_grows(s1, s2),
    ensures
        headers_read(kind, caps, s2),
{
    assert forall|i: int| #![trigger caps[i]] 0 <= i < caps.len() implies
        (s2.read_spec(caps[i].offset as u32, kind.header_len()) matches Ok(h)
            && caps[i] == header_node(kind, caps[i].offset, h)) by {
        lemma_read_persists(s1, s2, caps[i].offset as u32, kind.header_len());
    }
}

/// Growing is transitive.
pub proof fn lemma_grows_trans(s1: ConfigSpaceSnapshot, s2: ConfigSpaceSnapshot, s3: ConfigSpaceSnapshot)
    requires
        snapshot_grows(s1, s2),
        snapshot_grows(s2, s3),
    ensures
        snapshot_grows(s1, s3),
{
    assert forall|a: int| s1.byte_at(a) is Some implies #[trigger] s3.byte_at(a) == s1.byte_at(a) by {
        assert(s2.byte_at(a) == s1.byte_at(a));
    }
    assert forall|k: int| 0 <= k < s1.failures@.len() implies #[trigger] s3.failures@[k] == s1.failures@[k] by {
        assert(s2.failures@[k] == s1.failures@[k]);
    }
}

/// What a walk has found stays found as the snapshot grows.
pub proof fn lemma_walked_persists(kind: ChainKind, start: u16, caps: Seq<PciCapability>, current: u16, s1: ConfigSpaceSnapshot, s2: ConfigSpaceSnapshot)
    requires
        walked(kind, start, caps, current, s1),
        snapshot_grows(s1, s2),
    ensures
        walked(kind, start, caps, current, s2),
{
    assert forall|i: int| 0 <= i < caps.len() implies #[trigger] step_taken(kind, caps, i, current, s2) by {
        assert(step_taken(kind, caps, i, current, s1));
        lemma_read_persists(s1, s2, caps[i].offset as u32, kind.header_len());
    }
}

#[derive(Clone, Copy, Debug, PartialEq, Eq, Structural)]
enum ScanStage {
    /// Reading the common header, to learn whether it can be read.
    Header,
    /// Reading the common header again, where the standard list starts.
    StandardHeader,
    StandardWalk,
    ExtendedWalk,
    /// Reading the first registers of each standard capability.
    Prefetch,
    /// Reading the payloads of vendor-specific capabilities.
    VendorPrefetch,
    Done,
}

/// The capability part of inspecting a device, as a state machine driven
/// by block reads.
pub struct CapabilityScan {
    reader: ConfigSpaceReader,
    stage: ScanStage,
    header_readable: bool,
    walk: ChainWalk,
    standard: ChainDiscovery,
    extended: ChainDiscovery,
    index: usize,
    result: Option<PciField<PciCapabilityReport>>,
    found_standard: Ghost<Seq<PciCapability>>,
    found_extended: Ghost<Seq<PciCapability>>,
    report: Ghost<PciCapabilityReport>,
    header_snapshot: Ghost<ConfigSpaceSnapshot>,
    standard_snapshot: Ghost<ConfigSpaceSnapshot>,
    extended_snapshot: Ghost<ConfigSpaceSnapshot>,
    prefetch_snapshot: Ghost<ConfigSpaceSnapshot>,
    walk_start: Ghost<u16>,
}

impl CapabilityScan {
    /// The configuration space read so far.
    pub closed spec fn spec_snapshot(&self) -> ConfigSpaceSnapshot {
        self.reader.spec_snapshot()
    }

    /// The block that the caller is to read next.
    pub closed spec fn outstanding(&self) -> Option<BlockRead> {
        self.reader.outstanding()
    }

    /// The blocks still to read in the current fetch; the last is read next.
    pub closed spec fn spec_pending(&self) -> Seq<BlockRead> {
        self.reader.spec_pending()
    }

    /// Whether the scan is over.
    pub closed spec fn spec_done(&self) -> bool {
        self.stage == ScanStage::Done
    }

    /// Whether the common header (offsets 0 to 0x40) could be read.
    pub closed spec fn spec_header_readable(&self) -> bool {
        self.header_readable
    }

    /// The standard list as its walk found it, before decoding.
    pub closed spec fn spec_found_standard(&self) -> Seq<PciCapability> {
        self.found_standard@
    }

    /// The extended list as its walk found it.
    pub closed spec fn spec_found_extended(&self) -> Seq<PciCapability> {
        self.found_extended@
    }

    /// The report the scan built.
    pub closed spec fn spec_report(&self) -> PciCapabilityReport {
        self.report@
    }

    /// The outcome of the scan, once it is over.
    pub closed spec fn spec_result(&self) -> Option<PciField<PciCapabilityReport>> {
        self.result
    }

    /// The snapshot as it stood once the common header had first been read.
    pub closed spec fn spec_header_snapshot(&self) -> ConfigSpaceSnapshot {
        self.header_snapshot@
    }

    /// The snapshot as it stood when the walk of the standard list ended.
    pub closed spec fn spec_standard_snapshot(&self) -> ConfigSpaceSnapshot {
        self.standard_snapshot@
    }

    /// The snapshot as it stood when the walk of the extended list ended.
    pub closed spec fn spec_extended_snapshot(&self) -> ConfigSpaceSnapshot {
        self.extended_snapshot@
    }

    /// The snapshot as it stood when the first registers of every standard
    /// capability had been fetched.
    pub closed spec fn spec_prefetch_snapshot(&self) -> ConfigSpaceSnapshot {
        self.prefetch_snapshot@
    }

    /// What holds of a finished scan, whatever the reads gave. The snapshot
    /// only grew, from the first read of the common header through the end
    /// of each walk to the end. The common header counts as readable exactly
    /// when that first read gave all of it, and every byte of it was tried
    /// then. Each list is the list that a walk over the snapshot of its end
    /// finds, every header that walk reads (the common header included, for
    /// the standard list) was tried in that snapshot, and the list is one a
    /// walk over the final snapshot finds too. When the common header was readable, the
    /// first 0x40 registers of every standard capability (within the
    /// standard range) were tried by the end of the prefetch, and the payload
    /// of every vendor-specific one whose length byte was known by then was
    /// tried too. The report holds both lists with their statuses, the
    /// standard capabilities decoded from the final snapshot when the common
    /// header was readable; and the result is the capability field made
    /// from the report.
    pub open spec fn outcome(&self) -> bool {
        let s = self.spec_snapshot();
        let report = self.spec_report();
        &&& snapshot_grows(self.spec_header_snapshot(), self.spec_standard_snapshot())
        &&& snapshot_grows(self.spec_standard_snapshot(), self.spec_extended_snapshot())
        &&& snapshot_grows(self.spec_extended_snapshot(), s)
        &&& self.spec_header_readable() <==> self.spec_header_snapshot().read_spec(0, 0x40) is Ok
        &&& range_tried(self.spec_header_snapshot(), 0, 0x40)
        &&& standard_chain(self.spec_standard_snapshot()) == (self.spec_found_standard(), report.standard_status)
        &&& standard_reads_tried(self.spec_standard_snapshot())
        &&& extended_chain(self.spec_extended_snapshot()) == (self.spec_found_extended(), report.extended_status)
        &&& extended_reads_tried(self.spec_extended_snapshot())
        &&& found_chain(ChainKind::Standard, self.spec_found_standard(), report.standard_status, s)
        &&& found_chain(ChainKind::Extended, self.spec_found_extended(), report.extended_status, s)
        &&& report.extended@ == self.spec_found_extended()
        &&& report.standard@.len() == self.spec_found_standard().len()
        &&& self.spec_header_readable() ==> forall|i: int| 0 <= i < report.standard@.len()
            ==> decoded_from(s, self.spec_found_standard()[i], #[trigger] report.standard@[i])
        &&& !self.spec_header_readable() ==> report.standard@ == self.spec_found_standard()
        &&& self.spec_header_readable() ==> {
            let n = self.spec_found_standard().len() as int;
            let p = self.spec_prefetch_snapshot();
            &&& snapshot_grows(self.spec_extended_snapshot(), p)
            &&& snapshot_grows(p, s)
            &&& all_prefetched(p, self.spec_found_standard(), n)
            &&& all_prefetched(s, self.spec_found_standard(), n)
            &&& all_vendor_fetched(s, self.spec_found_standard(), n, p)
        }
        &&& self.spec_result() == Some(capabilities_from_report_spec(report, self.spec_header_readable()))
    }

    /// While the standard list is walked: the common header announces the
    /// list at the walk's start, and the walk has followed it from there.
    closed spec fn standard_walk_ok(&self, s: ConfigSpaceSnapshot) -> bool {
        let start = self.walk_start@;
        &&& s.read_spec(0, 0x40) matches Ok(h)
        &&& crate::bits::flag_of(le16(h[6], h[7]), 4)
        &&& h[0x34] != 0
        &&& h[0x34] as u16 == start
        &&& ChainKind::Standard.in_range(start as int)
        &&& start % 4 == 0
        &&& walked(ChainKind::Standard, start, self.walk.spec_capabilities(), self.walk.spec_current(), s)
    }

    /// The standard list is the one a walk finds on the snapshot of its end.
    closed spec fn standard_exact(&self, s: ConfigSpaceSnapshot) -> bool {
        &&& standard_chain(self.standard_snapshot@) == (self.standard.capabilities@, self.standard.status)
        &&& standard_reads_tried(self.standard_snapshot@)
        &&& snapshot_grows(self.header_snapshot@, self.standard_snapshot@)
        &&& snapshot_grows(self.standard_snapshot@, s)
    }

    /// The extended list is the one a walk finds on the snapshot of its end.
    closed spec fn extended_exact(&self, s: ConfigSpaceSnapshot) -> bool {
        &&& extended_chain(self.extended_snapshot@) == (self.extended.capabilities@, self.extended.status)
        &&& extended_reads_tried(self.extended_snapshot@)
        &&& snapshot_grows(self.standard_snapshot@, self.extended_snapshot@)
        &&& snapshot_grows(self.extended_snapshot@, s)
    }

    /// While the vendor-specific payloads are fetched: the first registers
    /// of every standard capability were fetched by `prefetch_snapshot`, and
    /// the payloads before `index` by `s`.
    closed spec fn vendor_ok(&self, s: ConfigSpaceSnapshot) -> bool {
        let caps = self.standard.capabilities@;
        let p = self.prefetch_snapshot@;
        &&& snapshot_grows(self.extended_snapshot@, p)
        &&& snapshot_grows(p, s)
        &&& all_prefetched(p, caps, caps.len() as int)
        &&& all_vendor_fetched(s, caps, self.index as int, p)
    }

    /// Once both walks have ended: how the common header read, and both
    /// lists as the walks found them.
    closed spec fn lists_exact(&self, s: ConfigSpaceSnapshot) -> bool {
        &&& snapshot_grows(self.header_snapshot@, s)
        &&& range_tried(self.header_snapshot@, 0, 0x40)
        &&& (self.header_readable <==> self.header_snapshot@.read_spec(0, 0x40) is Ok)
        &&& self.standard_exact(s)
        &&& self.extended_exact(s)
    }

    /// The lists stay as found as the snapshot grows.
    proof fn lemma_lists_grow(&self, s1: ConfigSpaceSnapshot, s2: ConfigSpaceSnapshot)
        requires
            self.lists_exact(s1),
            snapshot_grows(s1, s2),
        ensures
            self.lists_exact(s2),
    {
        lemma_grows_trans(self.header_snapshot@, s1, s2);
        lemma_grows_trans(self.standard_snapshot@, s1, s2);
        lemma_grows_trans(self.extended_snapshot@, s1, s2);
    }

    /// What the scan has learnt so far, relative to the snapshot `s`: how
    /// the common header read, and what each walk found.
    closed spec fn history_ok(&self, s: ConfigSpaceSnapshot) -> bool {
        &&& snapshot_grows(self.header_snapshot@, s)
        &&& range_tried(self.header_snapshot@, 0, 0x40)
        &&& (self.header_readable <==> self.header_snapshot@.read_spec(0, 0x40) is Ok)
        &&& match self.stage {
            ScanStage::StandardWalk => match self.walk.spec_status() {
                None => self.standard_walk_ok(s),
                Some(status) => standard_chain(s) == (self.walk.spec_capabilities(), status) && standard_reads_tried(s),
            },
            ScanStage::ExtendedWalk => {
                &&& self.standard_exact(s)
                &&& match self.walk.spec_status() {
                    None => walked(ChainKind::Extended, 0x100, self.walk.spec_capabilities(), self.walk.spec_current(), s),
                    Some(status) => extended_chain(s) == (self.walk.spec_capabilities(), status) && extended_reads_tried(s),
                }
            },
            ScanStage::Prefetch | ScanStage::VendorPrefetch => self.standard_exact(s) && self.extended_exact(s),
            _ => true,
        }
    }

    /// What the scan has learnt stays learnt as the snapshot grows, while
    /// no walk has just ended.
    proof fn lemma_history_grows(&self, s1: ConfigSpaceSnapshot, s2: ConfigSpaceSnapshot)
        requires
            self.history_ok(s1),
            snapshot_grows(s1, s2),
            self.stage == ScanStage::StandardWalk || self.stage == ScanStage::ExtendedWalk ==> self.walk.spec_status() is None,
        ensures
            self.history_ok(s2),
    {
        lemma_grows_trans(self.header_snapshot@, s1, s2);
        match self.stage {
            ScanStage::StandardWalk => {
                lemma_read_persists(s1, s2, 0, 0x40);
                lemma_walked_persists(ChainKind::Standard, self.walk_start@, self.walk.spec_capabilities(), self.walk.spec_current(), s1, s2);
            },
            ScanStage::ExtendedWalk => {
                lemma_grows_trans(self.standard_snapshot@, s1, s2);
                lemma_walked_persists(ChainKind::Extended, 0x100, self.walk.spec_capabilities(), self.walk.spec_current(), s1, s2);
            },
            ScanStage::Prefetch | ScanStage::VendorPrefetch => {
                lemma_grows_trans(self.standard_snapshot@, s1, s2);
                lemma_grows_trans(self.extended_snapshot@, s1, s2);
            },
            _ => {},
        }
    }

    closed spec fn walk_ok(&self) -> bool {
        let s = self.reader.spec_snapshot();
        let kind = if self.stage == ScanStage::StandardWalk { ChainKind::Standard } else { ChainKind::Extended };
        &&& self.walk.spec_kind() == kind
        &&& headers_read(kind, self.walk.spec_capabilities(), s)
        &&& self.walk.spec_status() matches Some(status) ==> status_consistent(status, self.walk.spec_capabilities())
    }

    closed spec fn standard_ok(&self) -> bool {
        found_chain(ChainKind::Standard, self.standard.capabilities@, self.standard.status, self.reader.spec_snapshot())
    }

    closed spec fn extended_ok(&self) -> bool {
        found_chain(ChainKind::Extended, self.extended.capabilities@, self.extended.status, self.reader.spec_snapshot())
    }

    /// The scan's invariant.
    pub closed spec fn inv(&self) -> bool {
        &&& self.reader.inv()
        &&& self.reader.fetch_end() <= 0x1000
        &&& self.walk.inv()
        &&& (self.stage == ScanStage::Header || self.stage == ScanStage::StandardHeader) ==> {
            &&& self.reader.fetch_valid()
            &&& self.reader.fetch_start() == 0
            &&& self.reader.fetch_end() == 0x40
        }
        &&& (self.stage == ScanStage::StandardWalk || self.stage == ScanStage::ExtendedWalk) ==> {
            &&& self.reader.fetch_valid()
            &&& self.reader.fetch_start() == self.walk.spec_current()
            &&& self.reader.fetch_end() == self.walk.spec_current() + self.walk.spec_kind().header_len()
        }
        &&& self.stage != ScanStage::Header && self.stage != ScanStage::Done ==> self.history_ok(self.reader.spec_snapshot())
        &&& match self.stage {
            ScanStage::Header | ScanStage::StandardHeader => true,
            ScanStage::StandardWalk => self.walk_ok() && self.walk.spec_status() is None,
            ScanStage::ExtendedWalk => self.walk_ok() && self.walk.spec_status() is None && self.standard_ok(),
            ScanStage::Prefetch | ScanStage::VendorPrefetch => {
                &&& self.standard_ok()
                &&& self.extended_ok()
                &&& self.header_readable
                &&& self.index < self.standard.capabilities@.len()
                &&& self.stage == ScanStage::Prefetch ==> {
                    let offset = self.standard.capabilities@[self.index as int].offset;
                    &&& self.reader.fetch_valid()
                    &&& self.reader.fetch_start() == offset
                    &&& self.reader.fetch_end() == prefetch_end(offset)
                    &&& all_prefetched(self.reader.spec_snapshot(), self.standard.capabilities@, self.index as int)
                }
                &&& self.stage == ScanStage::VendorPrefetch ==> {
                    let s = self.reader.spec_snapshot();
                    let caps = self.standard.capabilities@;
                    let p = self.prefetch_snapshot@;
                    let offset = caps[self.index as int].offset;
                    &&& all_prefetched(s, caps, caps.len() as int)
                    &&& self.vendor_ok(s)
                    &&& caps[self.index as int].id == 0x09
                    &&& s.byte_at(offset + 2) matches Some(len)
                    &&& self.reader.fetch_valid()
                    &&& self.reader.fetch_start() == offset + 3
                    &&& self.reader.fetch_end() == vendor_end(offset, len)
                }
            },
            ScanStage::Done => self.outcome() && self.reader.outstanding() is None,
        }
    }

    closed spec fn rank(&self) -> nat {
        match self.stage {
            ScanStage::Header => 6,
            ScanStage::StandardHeader => 5,
            ScanStage::StandardWalk => 4,
            ScanStage::ExtendedWalk => 3,
            ScanStage::Prefetch => 2,
            ScanStage::VendorPrefetch => 1,
            ScanStage::Done => 0,
        }
    }

    closed spec fn progress_left(&self) -> nat {
        match self.stage {
            ScanStage::StandardWalk | ScanStage::ExtendedWalk =>
                (self.walk.spec_kind().max_nodes() + 1 - self.walk.spec_capabilities().len()) as nat,
            ScanStage::Prefetch | ScanStage::VendorPrefetch =>
                (self.standard.capabilities@.len() - self.index) as nat,
            _ => 0,
        }
    }

    /// A measure that every decision of the scan lowers.
    closed spec fn measure(&self) -> nat {
        self.rank() * 300 + self.progress_left()
    }

    /// A scan that starts by reading the common header.
    pub fn new() -> (r: Self)
        ensures
            r.inv(),
            !r.spec_done(),
    {
        let mut reader = ConfigSpaceReader::new(0..0x1000);
        reader.begin_fetch(0, 0x40);
        CapabilityScan {
            reader,
            stage: ScanStage::Header,
            header_readable: false,
            walk: ChainWalk::extended(),
            standard: ChainDiscovery { capabilities: Vec::new(), status: PciCapabilityChainStatus::NotPresent },
            extended: ChainDiscovery { capabilities: Vec::new(), status: PciCapabilityChainStatus::NotPresent },
            index: 0,
            result: None,
            found_standard: Ghost(Seq::empty()),
            found_extended: Ghost(Seq::empty()),
            report: Ghost(vstd::pervasive::arbitrary()),
            header_snapshot: Ghost(vstd::pervasive::arbitrary()),
            standard_snapshot: Ghost(vstd::pervasive::arbitrary()),
            extended_snapshot: Ghost(vstd::pervasive::arbitrary()),
            prefetch_snapshot: Ghost(vstd::pervasive::arbitrary()),
            walk_start: Ghost(0),
        }
    }

    /// The next block to read, or `None` once the scan is over. Planning
    /// records nothing: the snapshot changes only through `complete_read`.
    pub fn next_read(&mut self) -> (r: Option<BlockRead>)
        requires
            old(self).inv(),
        ensures
            final(self).inv(),
            r is None <==> final(self).spec_done(),
            r matches Some(b) ==> final(self).outstanding() == Some(b),
            r matches Some(b) ==> {
                &&& 1 <= b.length
                &&& b.offset + b.length <= 0x1000
                &&& range_unknown(final(self).spec_snapshot().segments@, b.offset as int, b.length as int)
            },
            final(self).spec_snapshot() == old(self).spec_snapshot(),
            old(self).spec_done() ==> *final(self) == *old(self),
    {
        if self.stage == ScanStage::Done {
            return None;
        }
        loop
            invariant
                self.inv(),
                self.stage != ScanStage::Done,
                old(self).stage != ScanStage::Done,
                self.spec_snapshot() == old(self).spec_snapshot(),
            decreases self.measure(),
        {
            match self.reader.next_block() {
                Some(b) => {
                    return Some(b);
                },
                None => {
                    self.fetch_done();
                    if self.stage == ScanStage::Done {
                        return None;
                    }
                },
            }
        }
    }

    /// Takes what reading the outstanding block gave: its bytes, or `None`
    /// when the read failed.
    pub fn complete_read(&mut self, data: Option<Vec<u8>>)
        requires
            old(self).inv(),
        ensures
            final(self).inv(),
            final(self).spec_done() == old(self).spec_done(),
            final(self).spec_header_readable() == old(self).spec_header_readable(),
            final(self).spec_found_standard() == old(self).spec_found_standard(),
            final(self).spec_found_extended() == old(self).spec_found_extended(),
            final(self).spec_report() == old(self).spec_report(),
            final(self).spec_result() == old(self).spec_result(),
            snapshot_grows(old(self).spec_snapshot(), final(self).spec_snapshot()),
            old(self).spec_done() ==> *final(self) == *old(self),
            old(self).outstanding() is None ==> *final(self) == *old(self),
            old(self).outstanding() matches Some(b) ==> {
                let succeeded = data matches Some(bytes) && bytes@.len() == b.length;
                &&& (succeeded || b.length <= MIN_READ_BLOCK) ==>
                    final(self).spec_pending() == old(self).spec_pending().drop_last()
                &&& (!succeeded && b.length > MIN_READ_BLOCK) ==> final(self).spec_pending() == old(self).spec_pending().drop_last()
                    .push(BlockRead { offset: (b.offset + b.length / 2) as u32, length: (b.length - b.length / 2) as u32 })
                    .push(BlockRead { offset: b.offset, length: (b.length / 2) as u32 })
                &&& succeeded ==> {
                    &&& final(self).spec_snapshot().read_spec(b.offset, b.length) == Ok::<Seq<u8>, ConfigReadFailure>(data.unwrap()@)
                    &&& forall|a: int| #[trigger] final(self).spec_snapshot().byte_at(a)
                        == byte_after_insert(old(self).spec_snapshot().segments@, b.offset as int, data.unwrap()@, a)
                    &&& final(self).spec_snapshot().failures == old(self).spec_snapshot().failures
                }
                &&& !succeeded ==> {
                    &&& final(self).spec_snapshot().segments == old(self).spec_snapshot().segments
                    &&& b.length <= MIN_READ_BLOCK ==> final(self).spec_snapshot().failures@ == old(self).spec_snapshot().failures@.push(
                        ConfigReadFailure { offset: b.offset, length: b.length, reason: PciFieldUnavailableReason::ReadError })
                    &&& b.length > MIN_READ_BLOCK ==> final(self).spec_snapshot().failures == old(self).spec_snapshot().failures
                }
            },
    {
        let ghost s1 = self.reader.spec_snapshot();
        self.reader.complete_block(data);
        proof {
            let s2 = self.reader.spec_snapshot();
            self.lemma_grown(*old(self), s1, s2);
        }
    }

    /// The configuration space read so far.
    pub fn snapshot(&self) -> (r: &ConfigSpaceSnapshot)
        requires
            self.inv(),
        ensures
            *r == self.spec_snapshot(),
            r.wf(),
    {
        self.reader.snapshot()
    }

    /// The outcome of the scan, once it is over.
    pub fn into_result(self) -> (r: Option<PciField<PciCapabilityReport>>)
        requires
            self.inv(),
        ensures
            r == self.spec_result(),
            self.spec_done() ==> r is Some && self.outcome(),
    {
        self.result
    }

    /// Everything but the reader left as it was, the invariant survives a
    /// snapshot that only grew.
    proof fn lemma_grown(&self, before: Self, s1: ConfigSpaceSnapshot, s2: ConfigSpaceSnapshot)
        requires
            before.inv(),
            self.reader.inv(),
            s1 == before.reader.spec_snapshot(),
            s2 == self.reader.spec_snapshot(),
            snapshot_grows(s1, s2),
            self.reader.fetch_end() == before.reader.fetch_end(),
            self.stage == before.stage,
            self.header_readable == before.header_readable,
            self.walk == before.walk,
            self.standard == before.standard,
            self.extended == before.extended,
            self.index == before.index,
            self.result == before.result,
            self.found_standard == before.found_standard,
            self.found_extended == before.found_extended,
            self.report == before.report,
            self.header_snapshot == before.header_snapshot,
            self.standard_snapshot == before.standard_snapshot,
            self.extended_snapshot == before.extended_snapshot,
            self.prefetch_snapshot == before.prefetch_snapshot,
            self.walk_start == before.walk_start,
            self.reader.fetch_valid() == before.reader.fetch_valid(),
            self.reader.fetch_start() == before.reader.fetch_start(),
            before.stage == ScanStage::Done ==> self.reader == before.reader,
        ensures
            self.inv(),
    {
        if self.stage != ScanStage::Header && self.stage != ScanStage::Done {
            assert(self.history_ok(s1));
            self.lemma_history_grows(s1, s2);
        }
        match self.stage {
            ScanStage::StandardWalk => {
                lemma_headers_persist(ChainKind::Standard, self.walk.spec_capabilities(), s1, s2);
            },
            ScanStage::ExtendedWalk => {
                lemma_headers_persist(ChainKind::Extended, self.walk.spec_capabilities(), s1, s2);
                lemma_headers_persist(ChainKind::Standard, self.standard.capabilities@, s1, s2);
            },
            ScanStage::Prefetch | ScanStage::VendorPrefetch => {
                lemma_headers_persist(ChainKind::Standard, self.standard.capabilities@, s1, s2);
                lemma_headers_persist(ChainKind::Extended, self.extended.capabilities@, s1, s2);
                if self.stage == ScanStage::Prefetch {
                    lemma_all_prefetched_persist(s1, s2, self.standard.capabilities@, self.index as int);
                } else {
                    lemma_all_prefetched_persist(s1, s2, self.standard.capabilities@, self.standard.capabilities@.len() as int);
                    lemma_grows_trans(self.prefetch_snapshot@, s1, s2);
                    lemma_all_vendor_persist(s1, s2, self.standard.capabilities@, self.index as int, self.prefetch_snapshot@);
                }
            },
            _ => {},
        }
    }

    /// Acts on the end of the current fetch.
    fn fetch_done(&mut self)
        requires
            old(self).inv(),
            old(self).stage != ScanStage::Done,
            old(self).reader.outstanding() is None,
            old(self).reader.fetch_valid() ==> (old(self).reader.fetch_result_spec() is Ok <==> old(self).spec_snapshot().covers_range(
                old(self).reader.fetch_start(), old(self).reader.fetch_end() - old(self).reader.fetch_start())),
            old(self).reader.fetch_valid() ==> forall|a: int| old(self).reader.fetch_start() <= a < old(self).reader.fetch_end()
                ==> #[trigger] old(self).spec_snapshot().byte_at(a) is Some || in_failed(old(self).spec_snapshot().failures@, 0, a),
        ensures
            final(self).inv(),
            final(self).measure() < old(self).measure(),
            final(self).spec_snapshot() == old(self).spec_snapshot(),
    {
        match self.stage {
            ScanStage::Header => {
                self.header_readable = self.reader.fetch_result().is_ok();
                self.header_snapshot = Ghost(self.reader.spec_snapshot());
                self.reader.begin_fetch(0, 0x40);
                self.stage = ScanStage::StandardHeader;
            },
            ScanStage::StandardHeader => {
                self.start_standard();
            },
            ScanStage::StandardWalk | ScanStage::ExtendedWalk => {
                self.walk_step();
            },
            ScanStage::Prefetch => {
                proof {
                    let s = self.reader.spec_snapshot();
                    let caps = self.standard.capabilities@;
                    let offset = caps[self.index as int].offset;
                    assert forall|a: int| offset <= a < offset + 0x40 && a < 0x100 implies #[trigger] tried(s, a) by {
                        assert(s.byte_at(a) is Some || in_failed(s.failures@, 0, a));
                    }
                    assert(all_prefetched(s, caps, self.index + 1));
                }
                self.index = self.index + 1;
                self.next_prefetch();
            },
            ScanStage::VendorPrefetch => {
                proof {
                    let s = self.reader.spec_snapshot();
                    let caps = self.standard.capabilities@;
                    let pre = self.prefetch_snapshot@;
                    let cap = caps[self.index as int];
                    if pre.byte_at(cap.offset + 2) is Some {
                        let len = pre.byte_at(cap.offset + 2)->Some_0;
                        assert(s.byte_at(cap.offset + 2) == Some(len));
                        assert forall|a: int| cap.offset + 3 <= a < vendor_end(cap.offset, len) implies #[trigger] tried(s, a) by {
                            assert(s.byte_at(a) is Some || in_failed(s.failures@, 0, a));
                        }
                    }
                    assert(vendor_fetched(s, caps[self.index as int], pre));
                    assert(all_vendor_fetched(s, caps, self.index + 1, pre));
                }
                self.index = self.index + 1;
                self.next_vendor();
            },
            ScanStage::Done => {},
        }
    }

    /// Reads where the common header puts the standard list, and starts
    /// walking it.
    fn start_standard(&mut self)
        requires
            old(self).inv(),
            old(self).stage == ScanStage::StandardHeader,
            old(self).reader.outstanding() is None,
            old(self).reader.fetch_valid() ==> forall|a: int| old(self).reader.fetch_start() <= a < old(self).reader.fetch_end()
                ==> #[trigger] old(self).spec_snapshot().byte_at(a) is Some || in_failed(old(self).spec_snapshot().failures@, 0, a),
        ensures
            final(self).inv(),
            final(self).measure() < old(self).measure(),
            final(self).spec_snapshot() == old(self).spec_snapshot(),
    {
        let ghost s = self.reader.spec_snapshot();
        let walk = ChainWalk::standard(self.reader.snapshot());
        self.walk_start = Ghost(walk.spec_current());
        self.walk = walk;
        self.stage = ScanStage::StandardWalk;
        proof {
            if self.walk.spec_status() is None {
                assert(walked(ChainKind::Standard, self.walk_start@, self.walk.spec_capabilities(), self.walk.spec_current(), s));
                assert(self.standard_walk_ok(s));
            } else {
                assert(self.walk.spec_capabilities() =~= Seq::<PciCapability>::empty());
                assert(standard_chain(s) == (self.walk.spec_capabilities(), self.walk.spec_status()->Some_0));
                assert(old(self).reader.fetch_valid() && old(self).reader.fetch_start() == 0 && old(self).reader.fetch_end() == 0x40);
                assert forall|a: int| 0 <= a < 0 + 0x40 implies #[trigger] tried(s, a) by {
                    assert(old(self).reader.fetch_start() <= a < old(self).reader.fetch_end());
                    assert(old(self).spec_snapshot().byte_at(a) is Some || in_failed(old(self).spec_snapshot().failures@, 0, a));
                }
                assert(standard_reads_tried(s));
            }
            assert(self.history_ok(s));
        }
        self.continue_walk();
    }

    /// Takes the next step of the walk, from the header just fetched.
    fn walk_step(&mut self)
        requires
            old(self).inv(),
            old(self).stage == ScanStage::StandardWalk || old(self).stage == ScanStage::ExtendedWalk,
            old(self).reader.outstanding() is None,
            old(self).reader.fetch_valid() ==> forall|a: int| old(self).reader.fetch_start() <= a < old(self).reader.fetch_end()
                ==> #[trigger] old(self).spec_snapshot().byte_at(a) is Some || in_failed(old(self).spec_snapshot().failures@, 0, a),
        ensures
            final(self).inv(),
            final(self).measure() < old(self).measure(),
            final(self).spec_snapshot() == old(self).spec_snapshot(),
    {
        let ghost kind = self.walk.spec_kind();
        let ghost caps = self.walk.spec_capabilities();
        let ghost current = self.walk.spec_current();
        let ghost s = self.reader.spec_snapshot();
        proof {
            self.walk.lemma_room();
        }
        self.walk.advance(self.reader.snapshot());
        proof {
            let caps2 = self.walk.spec_capabilities();
            match s.read_spec(current as u32, kind.header_len()) {
                Ok(h) => {
                    if !all_zero(h) {
                        assert forall|i: int| #![trigger caps2[i]] 0 <= i < caps2.len() implies
                            (s.read_spec(caps2[i].offset as u32, kind.header_len()) matches Ok(h2)
                                && caps2[i] == header_node(kind, caps2[i].offset, h2)) by {
                            if i < caps.len() {
                                assert(caps2[i] == caps[i]);
                            }
                        }
                    }
                },
                Err(_) => {},
            }
            assert(self.walk_left() < old(self).progress_left());
            let start: u16 = if kind == ChainKind::Standard { self.walk_start@ } else { 0x100 };
            assert(walked(kind, start, caps, current, s));
            match s.read_spec(current as u32, kind.header_len()) {
                Ok(h) => {
                    if !all_zero(h) && self.walk.spec_status() is None {
                        lemma_walked_step(kind, start, caps, current, s, h);
                    }
                },
                Err(_) => {},
            }
            if self.walk.spec_status() is Some {
                lemma_walked(kind, start, caps, current, s);
                assert(old(self).reader.fetch_valid() && old(self).reader.fetch_start() == current
                    && old(self).reader.fetch_end() == current + kind.header_len());
                assert forall|a: int| current <= a < current + kind.header_len() implies #[trigger] tried(s, a) by {
                    assert(old(self).reader.fetch_start() <= a < old(self).reader.fetch_end());
                    assert(old(self).spec_snapshot().byte_at(a) is Some || in_failed(old(self).spec_snapshot().failures@, 0, a));
                }
                assert(walk_reads_tried(kind, caps, current, s));
                lemma_walked_reads(kind, start, caps, current, s);
                if kind == ChainKind::Standard {
                    assert(s.read_spec(0, 0x40) is Ok);
                    assert(s.covers_range(0, 0x40));
                    assert forall|a: int| 0 <= a < 0 + 0x40 implies #[trigger] tried(s, a) by {
                        assert(s.byte_at(a) is Some);
                    }
                    assert(standard_reads_tried(s));
                } else {
                    assert(extended_reads_tried(s));
                }
            }
        }
        self.continue_walk();
    }

    /// Reads the header the walk needs next, or, when the walk is over,
    /// moves on to the next stage.
    fn continue_walk(&mut self)
        requires
            old(self).reader.inv(),
            old(self).reader.fetch_end() <= 0x1000,
            old(self).walk.inv(),
            old(self).stage == ScanStage::StandardWalk || old(self).stage == ScanStage::ExtendedWalk,
            old(self).walk_ok(),
            old(self).stage == ScanStage::ExtendedWalk ==> old(self).standard_ok(),
            old(self).reader.outstanding() is None,
            old(self).history_ok(old(self).spec_snapshot()),
        ensures
            final(self).inv(),
            final(self).measure() <= old(self).rank() * 300 + old(self).walk_left(),
            final(self).spec_snapshot() == old(self).spec_snapshot(),
    {
        match self.walk.pending_read() {
            Some((offset, length)) => {
                self.reader.begin_fetch(offset, length);
                proof {
                    self.lemma_history_grows(old(self).spec_snapshot(), self.spec_snapshot());
                    if self.stage == ScanStage::StandardWalk {
                        lemma_headers_persist(ChainKind::Standard, self.walk.spec_capabilities(), old(self).spec_snapshot(), self.spec_snapshot());
                    } else {
                        lemma_headers_persist(ChainKind::Extended, self.walk.spec_capabilities(), old(self).spec_snapshot(), self.spec_snapshot());
                        lemma_headers_persist(ChainKind::Standard, self.standard.capabilities@, old(self).spec_snapshot(), self.spec_snapshot());
                    }
                }
            },
            None => {
                let mut walk = ChainWalk::extended();
                std::mem::swap(&mut walk, &mut self.walk);
                let discovery = match walk.into_discovery() {
                    Some(d) => d,
                    None => {
                        proof { assert(false); }
                        return;
                    },
                };
                if self.stage == ScanStage::StandardWalk {
                    self.standard = discovery;
                    self.standard_snapshot = Ghost(self.reader.spec_snapshot());
                    self.stage = ScanStage::ExtendedWalk;
                    self.reader.begin_fetch(0x100, 4);
                    proof {
                        lemma_headers_persist(ChainKind::Standard, self.standard.capabilities@, old(self).spec_snapshot(), self.spec_snapshot());
                    }
                } else {
                    self.extended = discovery;
                    self.extended_snapshot = Ghost(self.reader.spec_snapshot());
                    if self.header_readable {
                        self.index = 0;
                        self.stage = ScanStage::Prefetch;
                        self.next_prefetch();
                    } else {
                        self.finish();
                    }
                }
            },
        }
    }

    closed spec fn walk_left(&self) -> nat {
        if self.walk.spec_status() is None {
            (self.walk.spec_kind().max_nodes() + 1 - self.walk.spec_capabilities().len()) as nat
        } else {
            0
        }
    }

    /// Fetches the first registers of the next valid standard capability
    /// from `index` on, up to the end of the standard range; past the last
    /// one, moves on to the vendor-specific payloads.
    fn next_prefetch(&mut self)
        requires
            old(self).reader.inv(),
            old(self).reader.fetch_end() <= 0x1000,
            old(self).walk.inv(),
            old(self).standard_ok(),
            old(self).extended_ok(),
            old(self).header_readable,
            old(self).index <= old(self).standard.capabilities@.len(),
            old(self).reader.outstanding() is None,
            old(self).lists_exact(old(self).spec_snapshot()),
            all_prefetched(old(self).spec_snapshot(), old(self).standard.capabilities@, old(self).index as int),
        ensures
            final(self).inv(),
            final(self).measure() <= 600 + old(self).standard.capabilities@.len() - old(self).index,
            final(self).spec_snapshot() == old(self).spec_snapshot(),
    {
        self.stage = ScanStage::Prefetch;
        while self.index < self.standard.capabilities.len()
            invariant
                self.reader == old(self).reader,
                self.walk == old(self).walk,
                self.standard == old(self).standard,
                self.extended == old(self).extended,
                self.header_readable,
                self.reader.inv(),
                self.reader.fetch_end() <= 0x1000,
                self.walk.inv(),
                self.reader.outstanding() is None,
                self.stage == ScanStage::Prefetch,
                old(self).index <= self.index <= self.standard.capabilities@.len(),
                self.standard_ok(),
                self.extended_ok(),
                self.header_snapshot == old(self).header_snapshot,
                self.standard_snapshot == old(self).standard_snapshot,
                self.extended_snapshot == old(self).extended_snapshot,
                self.lists_exact(self.reader.spec_snapshot()),
                all_prefetched(self.reader.spec_snapshot(), self.standard.capabilities@, self.index as int),
            decreases self.standard.capabilities@.len() - self.index,
        {
            let valid = match self.standard.capabilities[self.index].state {
                PciCapabilityState::Valid => true,
                _ => false,
            };
            if valid {
                let start = self.standard.capabilities[self.index].offset as u32;
                let end: u32 = if start + 0x40 < 0x100 { start + 0x40 } else { 0x100 };
                self.reader.begin_fetch(start, end - start);
                proof {
                    self.lemma_lists_grow(old(self).spec_snapshot(), self.spec_snapshot());
                    lemma_all_prefetched_persist(old(self).spec_snapshot(), self.spec_snapshot(), self.standard.capabilities@, self.index as int);
                    lemma_headers_persist(ChainKind::Standard, self.standard.capabilities@, old(self).spec_snapshot(), self.spec_snapshot());
                    lemma_headers_persist(ChainKind::Extended, self.extended.capabilities@, old(self).spec_snapshot(), self.spec_snapshot());
                }
                return;
            }
            self.index = self.index + 1;
        }
        self.index = 0;
        self.prefetch_snapshot = Ghost(self.reader.spec_snapshot());
        self.next_vendor();
    }

    /// Fetches the payload of the next vendor-specific standard capability
    /// from `index` on, as long as its length byte announces, up to the end
    /// of the standard range; past the last one, decodes and finishes.
    fn next_vendor(&mut self)
        requires
            old(self).reader.inv(),
            old(self).reader.fetch_end() <= 0x1000,
            old(self).walk.inv(),
            old(self).standard_ok(),
            old(self).extended_ok(),
            old(self).header_readable,
            old(self).index <= old(self).standard.capabilities@.len(),
            old(self).reader.outstanding() is None,
            old(self).lists_exact(old(self).spec_snapshot()),
            all_prefetched(old(self).spec_snapshot(), old(self).standard.capabilities@, old(self).standard.capabilities@.len() as int),
            old(self).vendor_ok(old(self).spec_snapshot()),
        ensures
            final(self).inv(),
            final(self).measure() <= 300 + old(self).standard.capabilities@.len() - old(self).index,
            final(self).spec_snapshot() == old(self).spec_snapshot(),
    {
        self.stage = ScanStage::VendorPrefetch;
        while self.index < self.standard.capabilities.len()
            invariant
                self.reader == old(self).reader,
                self.walk == old(self).walk,
                self.standard == old(self).standard,
                self.extended == old(self).extended,
                self.header_readable,
                self.reader.inv(),
                self.reader.fetch_end() <= 0x1000,
                self.walk.inv(),
                self.reader.outstanding() is None,
                self.stage == ScanStage::VendorPrefetch,
                old(self).index <= self.index <= self.standard.capabilities@.len(),
                self.standard_ok(),
                self.extended_ok(),
                self.header_snapshot == old(self).header_snapshot,
                self.standard_snapshot == old(self).standard_snapshot,
                self.extended_snapshot == old(self).extended_snapshot,
                self.lists_exact(self.reader.spec_snapshot()),
                all_prefetched(self.reader.spec_snapshot(), self.standard.capabilities@, self.standard.capabilities@.len() as int),
                self.prefetch_snapshot == old(self).prefetch_snapshot,
                self.vendor_ok(self.reader.spec_snapshot()),
            decreases self.standard.capabilities@.len() - self.index,
        {
            let id = self.standard.capabilities[self.index].id;
            let offset = self.standard.capabilities[self.index].offset;
            let valid = match self.standard.capabilities[self.index].state {
                PciCapabilityState::Valid => true,
                _ => false,
            };
            if id == 0x09 && valid {
                proof {
                    assert(ChainKind::Standard.in_range(self.standard.capabilities@[self.index as int].offset as int));
                }
                match self.reader.snapshot().read(offset as u32 + 2, 1) {
                    Ok(bytes) => {
                        let start = offset as u32 + 3;
                        let announced = start + bytes[0] as u32;
                        let end: u32 = if announced < 0x100 { announced } else { 0x100 };
                        proof {
                            let s = self.reader.spec_snapshot();
                            assert(s.covers_range(offset + 2, 1));
                            assert(s.byte_at(offset + 2) is Some);
                            assert(bytes@[0] == s.bytes_of(offset + 2, 1)[0]);
                            assert(s.byte_at(offset + 2) == Some(bytes@[0]));
                        }
                        if end > start {
                            self.reader.begin_fetch(start, end - start);
                            proof {
                                lemma_grows_trans(self.prefetch_snapshot@, old(self).spec_snapshot(), self.spec_snapshot());
                                lemma_all_vendor_persist(old(self).spec_snapshot(), self.spec_snapshot(),
                                    self.standard.capabilities@, self.index as int, self.prefetch_snapshot@);
                                self.lemma_lists_grow(old(self).spec_snapshot(), self.spec_snapshot());
                                lemma_all_prefetched_persist(old(self).spec_snapshot(), self.spec_snapshot(),
                                    self.standard.capabilities@, self.standard.capabilities@.len() as int);
                                lemma_headers_persist(ChainKind::Standard, self.standard.capabilities@, old(self).spec_snapshot(), self.spec_snapshot());
                                lemma_headers_persist(ChainKind::Extended, self.extended.capabilities@, old(self).spec_snapshot(), self.spec_snapshot());
                            }
                            return;
                        }
                    },
                    Err(_) => {
                        proof {
                            let s = self.reader.spec_snapshot();
                            assert(!s.covers_range(offset + 2, 1));
                            assert(s.byte_at(offset + 2) is None);
                        }
                    },
                }
            }
            proof {
                let s = self.reader.spec_snapshot();
                let caps = self.standard.capabilities@;
                assert(vendor_fetched(s, caps[self.index as int], self.prefetch_snapshot@));
            }
            self.index = self.index + 1;
        }
        self.finish();
    }

    /// Decodes the standard capabilities, when the common header could be
    /// read, and builds the result.
    fn finish(&mut self)
        requires
            old(self).reader.inv(),
            old(self).reader.fetch_end() <= 0x1000,
            old(self).walk.inv(),
            old(self).reader.outstanding() is None,
            old(self).standard_ok(),
            old(self).extended_ok(),
            old(self).lists_exact(old(self).spec_snapshot()),
            old(self).header_readable ==> all_prefetched(old(self).spec_snapshot(), old(self).standard.capabilities@,
                old(self).standard.capabilities@.len() as int),
            old(self).header_readable ==> old(self).vendor_ok(old(self).spec_snapshot()),
            old(self).header_readable ==> old(self).index == old(self).standard.capabilities@.len(),
        ensures
            final(self).inv(),
            final(self).stage == ScanStage::Done,
            final(self).spec_snapshot() == old(self).spec_snapshot(),
    {
        let ghost s = self.reader.spec_snapshot();
        let mut standard: Vec<PciCapability> = Vec::new();
        std::mem::swap(&mut standard, &mut self.standard.capabilities);
        let ghost found_standard = standard@;
        if self.header_readable {
            let snapshot = self.reader.snapshot();
            let mut i: usize = 0;
            while i < standard.len()
                invariant
                    i <= standard@.len(),
                    standard@.len() == found_standard.len(),
                    *snapshot == s,
                    snapshot.wf(),
                    forall|j: int| 0 <= j < i ==> decoded_from(s, found_standard[j], #[trigger] standard@[j]),
                    forall|j: int| i <= j < standard@.len() ==> #[trigger] standard@[j] == found_standard[j],
                decreases standard@.len() - i,
            {
                decode_content(snapshot, &mut standard[i]);
                i = i + 1;
            }
        }
        let mut extended: Vec<PciCapability> = Vec::new();
        std::mem::swap(&mut extended, &mut self.extended.capabilities);
        let report = PciCapabilityReport {
            standard,
            extended,
            standard_status: self.standard.status,
            extended_status: self.extended.status,
        };
        self.found_standard = Ghost(found_standard);
        self.found_extended = Ghost(report.extended@);
        self.report = Ghost(report);
        self.result = Some(capabilities_from_report(report, self.header_readable));
        self.stage = ScanStage::Done;
    }
}

} // verus!
