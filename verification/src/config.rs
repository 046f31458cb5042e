//! Snapshots of PCI configuration space.
use vstd::prelude::*;
use core::ops::Range;
use crate::field::PciFieldUnavailableReason;

verus! {

/// How much of configuration space to read.
#[derive(Clone, Copy, Debug, PartialEq, Eq, Structural)]
pub enum ConfigReadLevel {
    Header,
    Standard,
    Extended,
}

impl ConfigReadLevel {
    /// The end (exclusive) of the range that a level covers; every range starts at 0.
    pub open spec fn spec_end(self) -> u32 {
        match self {
            ConfigReadLevel::Header => 0x040,
            ConfigReadLevel::Standard => 0x100,
            ConfigReadLevel::Extended => 0x1000,
        }
    }

    /// The byte range of configuration space that this level covers.
    pub fn range(self) -> (r: Range<u32>)
        ensures
            r.start == 0,
            r.end == self.spec_end(),
    {
        match self {
            ConfigReadLevel::Header => 0x000..0x040,
            ConfigReadLevel::Standard => 0x000..0x100,
            ConfigReadLevel::Extended => 0x000..0x1000,
        }
    }
}

/// A run of bytes read from configuration space, starting at `offset`.
#[derive(Debug, PartialEq, Eq)]
pub struct ConfigSegment {
    pub offset: u32,
    pub bytes: Vec<u8>,
}

impl Clone for ConfigSegment {
    fn clone(&self) -> (c: Self)
        ensures
            c.offset == self.offset,
            c.bytes@ == self.bytes@,
    {
        let bytes = self.bytes.clone();
        proof {
            assert(bytes@ =~= self.bytes@);
        }
        ConfigSegment { offset: self.offset, bytes }
    }
}

/// A range of configuration space that could not be read.
#[derive(Clone, Copy, Debug, PartialEq, Eq, Structural)]
pub struct ConfigReadFailure {
    pub offset: u32,
    pub length: u32,
    pub reason: PciFieldUnavailableReason,
}

/// What was read of a device's configuration space: the requested range,
/// the segments that were read and the ranges that failed.
#[derive(Debug, PartialEq, Eq)]
pub struct ConfigSpaceSnapshot {
    pub requested: Range<u32>,
    pub segments: Vec<ConfigSegment>,
    pub failures: Vec<ConfigReadFailure>,
}

impl Clone for ConfigSpaceSnapshot {
    fn clone(&self) -> (c: Self)
        ensures
            c.requested == self.requested,
            c.failures@ == self.failures@,
            c.segments@.len() == self.segments@.len(),
            forall|i: int| #![trigger c.segments@[i]] 0 <= i < c.segments@.len() ==>
                c.segments@[i].offset == self.segments@[i].offset && c.segments@[i].bytes@ == self.segments@[i].bytes@,
            forall|a: int| #[trigger] c.byte_at(a) == self.byte_at(a),
    {
        let segments = self.segments.clone();
        proof {
            assert forall|i: int| #![trigger segments@[i]] 0 <= i < segments@.len() implies
                segments@[i].offset == self.segments@[i].offset && segments@[i].bytes@ == self.segments@[i].bytes@ by {
                assert(cloned::<ConfigSegment>(self.segments[i], segments[i]));
            }
        }
        let c = ConfigSpaceSnapshot {
            requested: self.requested.start..self.requested.end,
            segments,
            failures: self.failures.clone(),
        };
        proof {
            assert forall|a: int| #[trigger] c.byte_at(a) == self.byte_at(a) by {
                lemma_byte_in_same(c.segments@, self.segments@, a);
            }
        }
        c
    }
}

impl ConfigSegment {
    /// The offset just past the last byte of the segment.
    pub open spec fn end_spec(self) -> int {
        self.offset as int + self.bytes@.len()
    }

    /// Whether the segment holds the byte at address `a`.
    pub open spec fn covers(self, a: int) -> bool {
        self.offset <= a < self.end_spec()
    }
}

/// The index of the first segment, from index `k` on, that holds address `a`.
pub open spec fn first_cover_from(segs: Seq<ConfigSegment>, a: int, k: int) -> Option<int>
    decreases segs.len() - k,
{
    if k < 0 || k >= segs.len() {
        None
    } else if segs[k].covers(a) {
        Some(k)
    } else {
        first_cover_from(segs, a, k + 1)
    }
}

/// Segments with the same offsets and bytes hold the same first cover.
proof fn lemma_first_cover_same(s1: Seq<ConfigSegment>, s2: Seq<ConfigSegment>, a: int, k: int)
    requires
        s1.len() == s2.len(),
        forall|i: int| #![trigger s1[i]] 0 <= i < s1.len() ==> s1[i].offset == s2[i].offset && s1[i].bytes@ == s2[i].bytes@,
    ensures
        first_cover_from(s1, a, k) == first_cover_from(s2, a, k),
    decreases s1.len() - k,
{
    if 0 <= k < s1.len() {
        assert(s1[k].offset == s2[k].offset && s1[k].bytes@ == s2[k].bytes@);
        lemma_first_cover_same(s1, s2, a, k + 1);
    }
}

/// Segments with the same offsets and bytes hold the same byte at every address.
proof fn lemma_byte_in_same(s1: Seq<ConfigSegment>, s2: Seq<ConfigSegment>, a: int)
    requires
        s1.len() == s2.len(),
        forall|i: int| #![trigger s1[i]] 0 <= i < s1.len() ==> s1[i].offset == s2[i].offset && s1[i].bytes@ == s2[i].bytes@,
    ensures
        byte_in(s1, a) == byte_in(s2, a),
{
    lemma_first_cover_same(s1, s2, a, 0);
    if let Some(i) = first_cover_from(s1, a, 0) {
        lemma_first_cover_found(s1, a, 0);
        assert(s1[i].offset == s2[i].offset && s1[i].bytes@ == s2[i].bytes@);
    }
}

/// The byte at address `a`, taken from the first segment that holds it.
pub open spec fn byte_in(segs: Seq<ConfigSegment>, a: int) -> Option<u8> {
    match first_cover_from(segs, a, 0) {
        Some(i) => Some(segs[i].bytes@[a - segs[i].offset]),
        None => None,
    }
}

/// Whether a failure overlaps the range `[offset, offset + length)`, with both
/// ends saturated at `u32::MAX`.
pub open spec fn failure_overlaps(f: ConfigReadFailure, offset: int, length: int) -> bool {
    let failure_end = if f.offset + f.length > u32::MAX { u32::MAX as int } else { f.offset + f.length };
    let range_end = if offset + length > u32::MAX { u32::MAX as int } else { offset + length };
    f.offset < range_end && offset < failure_end
}

/// The index of the first failure, from index `k` on, that overlaps a range.
pub open spec fn first_overlap_from(fs: Seq<ConfigReadFailure>, offset: int, length: int, k: int) -> Option<int>
    decreases fs.len() - k,
{
    if k < 0 || k >= fs.len() {
        None
    } else if failure_overlaps(fs[k], offset, length) {
        Some(k)
    } else {
        first_overlap_from(fs, offset, length, k + 1)
    }
}

/// The failure reported for an unreadable range: the first recorded failure
/// that overlaps it, or a read error over the range itself.
pub open spec fn failure_for(fs: Seq<ConfigReadFailure>, offset: u32, length: u32) -> ConfigReadFailure {
    match first_overlap_from(fs, offset as int, length as int, 0) {
        Some(i) => fs[i],
        None => ConfigReadFailure { offset, length, reason: PciFieldUnavailableReason::ReadError },
    }
}

/// Whether every segment ends within the 32-bit offset space.
pub open spec fn segments_fit(segs: Seq<ConfigSegment>) -> bool {
    forall|i: int| 0 <= i < segs.len() ==> #[trigger] segs[i].end_spec() <= u32::MAX
}

/// Whether the segments are sorted by offset and do not overlap.
pub open spec fn segments_disjoint(segs: Seq<ConfigSegment>) -> bool {
    forall|i: int, j: int| 0 <= i < j < segs.len() ==> #[trigger] segs[i].end_spec() <= #[trigger] segs[j].offset
}

pub proof fn lemma_first_cover_found(segs: Seq<ConfigSegment>, a: int, k: int)
    requires
        first_cover_from(segs, a, k) is Some,
    ensures
        k <= first_cover_from(segs, a, k).unwrap() < segs.len(),
        0 <= k,
        segs[first_cover_from(segs, a, k).unwrap()].covers(a),
        forall|j: int| k <= j < first_cover_from(segs, a, k).unwrap() ==> !#[trigger] segs[j].covers(a),
    decreases segs.len() - k,
{
    if k < 0 || k >= segs.len() {
    } else if segs[k].covers(a) {
    } else {
        lemma_first_cover_found(segs, a, k + 1);
    }
}

pub proof fn lemma_first_cover_none(segs: Seq<ConfigSegment>, a: int, k: int)
    requires
        0 <= k,
        first_cover_from(segs, a, k) is None,
    ensures
        forall|j: int| k <= j < segs.len() ==> !#[trigger] segs[j].covers(a),
    decreases segs.len() - k,
{
    if k >= segs.len() {
    } else {
        lemma_first_cover_none(segs, a, k + 1);
    }
}

/// In sorted disjoint segments, the segment that holds an address is the
/// first one that does.
pub proof fn lemma_disjoint_cover(segs: Seq<ConfigSegment>, a: int, i: int, k: int)
    requires
        segments_disjoint(segs),
        0 <= k <= i < segs.len(),
        segs[i].covers(a),
    ensures
        first_cover_from(segs, a, k) == Some(i),
    decreases i - k,
{
    if k < i {
        assert(segs[k].end_spec() <= segs[i].offset);
        lemma_disjoint_cover(segs, a, i, k + 1);
    }
}

/// No segment holds the address, so no byte is known there.
pub proof fn lemma_no_cover(segs: Seq<ConfigSegment>, a: int, k: int)
    requires
        0 <= k,
        forall|j: int| k <= j < segs.len() ==> !#[trigger] segs[j].covers(a),
    ensures
        first_cover_from(segs, a, k) is None,
    decreases segs.len() - k,
{
    if k < segs.len() {
        lemma_no_cover(segs, a, k + 1);
    }
}

pub proof fn lemma_first_overlap_found(fs: Seq<ConfigReadFailure>, offset: int, length: int, k: int)
    requires
        first_overlap_from(fs, offset, length, k) is Some,
    ensures
        0 <= k <= first_overlap_from(fs, offset, length, k).unwrap() < fs.len(),
    decreases fs.len() - k,
{
    if k < 0 || k >= fs.len() {
    } else if failure_overlaps(fs[k], offset, length) {
    } else {
        lemma_first_overlap_found(fs, offset, length, k + 1);
    }
}

impl ConfigSpaceSnapshot {
    /// The byte at address `a`, if it was read.
    pub open spec fn byte_at(self, a: int) -> Option<u8> {
        byte_in(self.segments@, a)
    }

    /// Whether every byte of `[offset, offset + length)` was read.
    pub open spec fn covers_range(self, offset: int, length: int) -> bool {
        forall|a: int| offset <= a < offset + length ==> (#[trigger] self.byte_at(a)) is Some
    }

    /// The bytes of `[offset, offset + length)`, for a range that was read.
    pub open spec fn bytes_of(self, offset: int, length: int) -> Seq<u8> {
        Seq::new(length as nat, |k: int| self.byte_at(offset + k).unwrap())
    }

    /// The little-endian word at address `a`, if both of its bytes were read.
    pub open spec fn word_at(self, a: int) -> Option<u16> {
        match (self.byte_at(a), self.byte_at(a + 1)) {
            (Some(b0), Some(b1)) => Some(crate::bits::le16(b0, b1) as u16),
            _ => None,
        }
    }

    /// The little-endian double word at address `a`, if its four bytes were read.
    pub open spec fn dword_at(self, a: int) -> Option<u32> {
        match (self.byte_at(a), self.byte_at(a + 1), self.byte_at(a + 2), self.byte_at(a + 3)) {
            (Some(b0), Some(b1), Some(b2), Some(b3)) => Some(crate::bits::le32(b0, b1, b2, b3) as u32),
            _ => None,
        }
    }

    /// The result of reading `[offset, offset + length)` from the snapshot.
    pub open spec fn read_spec(self, offset: u32, length: u32) -> Result<Seq<u8>, ConfigReadFailure> {
        if length == 0 || offset + length > u32::MAX {
            Err(ConfigReadFailure { offset, length, reason: PciFieldUnavailableReason::ReadError })
        } else if self.covers_range(offset as int, length as int) {
            Ok(self.bytes_of(offset as int, length as int))
        } else {
            Err(failure_for(self.failures@, offset, length))
        }
    }

    /// Whether every segment ends within the 32-bit offset space.
    pub open spec fn wf(self) -> bool {
        segments_fit(self.segments@)
    }

    /// An empty snapshot of the requested range.
    pub fn new(requested: Range<u32>) -> (s: Self)
        ensures
            s.requested == requested,
            s.segments@.len() == 0,
            s.failures@.len() == 0,
            s.wf(),
    {
        ConfigSpaceSnapshot { requested, segments: Vec::new(), failures: Vec::new() }
    }

    /// The index of the first segment that holds address `a`.
    pub fn segment_covering(&self, a: u32) -> (r: Option<usize>)
        requires
            segments_fit(self.segments@),
        ensures
            match r {
                Some(i) => first_cover_from(self.segments@, a as int, 0) == Some(i as int),
                None => first_cover_from(self.segments@, a as int, 0) is None,
            },
    {
        let mut i: usize = 0;
        while i < self.segments.len()
            invariant
                segments_fit(self.segments@),
                i <= self.segments@.len(),
                first_cover_from(self.segments@, a as int, 0) == first_cover_from(self.segments@, a as int, i as int),
            decreases self.segments@.len() - i,
        {
            let segment = &self.segments[i];
            let end = segment_end(segment);
            if segment.offset <= a && a < end {
                return Some(i);
            }
            i = i + 1;
        }
        None
    }

    /// The first recorded failure that overlaps `[offset, offset + length)`,
    /// or a read error over that range when none does.
    pub fn failure_for_range(&self, offset: u32, length: u32) -> (f: ConfigReadFailure)
        ensures
            f == failure_for(self.failures@, offset, length),
    {
        let mut i: usize = 0;
        let range_end = offset.saturating_add(length);
        while i < self.failures.len()
            invariant
                i <= self.failures@.len(),
                range_end == if offset + length > u32::MAX { u32::MAX as int } else { offset + length },
                first_overlap_from(self.failures@, offset as int, length as int, 0)
                    == first_overlap_from(self.failures@, offset as int, length as int, i as int),
            decreases self.failures@.len() - i,
        {
            let failure = self.failures[i];
            let failure_end = failure.offset.saturating_add(failure.length);
            if failure.offset < range_end && offset < failure_end {
                return failure;
            }
            i = i + 1;
        }
        ConfigReadFailure { offset, length, reason: PciFieldUnavailableReason::ReadError }
    }

    /// Reads `[offset, offset + length)` from the bytes already in the snapshot.
    pub fn read(&self, offset: u32, length: u32) -> (r: Result<Vec<u8>, ConfigReadFailure>)
        requires
            self.wf(),
        ensures
            match r {
                Ok(bytes) => self.read_spec(offset, length) == Ok::<Seq<u8>, ConfigReadFailure>(bytes@),
                Err(f) => self.read_spec(offset, length) == Err::<Seq<u8>, ConfigReadFailure>(f),
            },
    {
        if length == 0 || offset > u32::MAX - length {
            return Err(ConfigReadFailure { offset, length, reason: PciFieldUnavailableReason::ReadError });
        }
        let end = offset + length;
        let mut bytes: Vec<u8> = Vec::new();
        let mut cursor = offset;
        while cursor < end
            invariant
                self.wf(),
                offset <= cursor <= end,
                end == offset + length,
                bytes@.len() == cursor - offset,
                self.covers_range(offset as int, cursor - offset),
                forall|k: int| 0 <= k < bytes@.len() ==> #[trigger] bytes@[k] == self.byte_at(offset + k).unwrap(),
            decreases end - cursor,
        {
            let index = match self.segment_covering(cursor) {
                Some(index) => index,
                None => {
                    proof {
                        assert(self.byte_at(cursor as int) is None);
                    }
                    return Err(self.failure_for_range(offset, length));
                },
            };
            proof {
                lemma_first_cover_found(self.segments@, cursor as int, 0);
            }
            let segment = &self.segments[index];
            let b = segment.bytes[(cursor - segment.offset) as usize];
            bytes.push(b);
            cursor = cursor + 1;
            proof {
                assert forall|a: int| offset <= a < offset + (cursor - offset) implies (#[trigger] self.byte_at(a)) is Some by {
                    if a < cursor - 1 {
                    }
                }
            }
        }
        proof {
            assert(bytes@ =~= self.bytes_of(offset as int, length as int));
        }
        Ok(bytes)
    }
}

/// The offset just past the last byte of a segment.
pub fn segment_end(segment: &ConfigSegment) -> (r: u32)
    requires
        segment.end_spec() <= u32::MAX,
    ensures
        r == segment.end_spec(),
{
    segment.offset + segment.bytes.len() as u32
}

/// Whether every segment of a snapshot ends within the 32-bit offset space.
pub fn segments_in_range(snapshot: &ConfigSpaceSnapshot) -> (r: bool)
    ensures
        r == segments_fit(snapshot.segments@),
{
    let mut i: usize = 0;
    while i < snapshot.segments.len()
        invariant
            i <= snapshot.segments@.len(),
            forall|j: int| 0 <= j < i ==> #[trigger] snapshot.segments@[j].end_spec() <= u32::MAX,
        decreases snapshot.segments@.len() - i,
    {
        let segment = &snapshot.segments[i];
        if segment.bytes.len() > (u32::MAX - segment.offset) as usize {
            proof {
                assert(!(snapshot.segments@[i as int].end_spec() <= u32::MAX));
            }
            return false;
        }
        i = i + 1;
    }
    true
}

} // verus!
