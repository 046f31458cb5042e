//! Filling a configuration space snapshot from block reads.
//!
//! The reads themselves are done by the caller: `next_block` names the block
//! to read next, `complete_block` takes what the read gave. A block that
//! cannot be read is split in halves, down to blocks of `MIN_READ_BLOCK`
//! bytes, since a backend may refuse a large read of which parts are readable.
use vstd::prelude::*;
use core::ops::Range;
use crate::config::{ConfigReadFailure, ConfigSegment, ConfigSpaceSnapshot, byte_in, segment_end,
    lemma_first_cover_found, lemma_first_cover_none};
use crate::field::PciFieldUnavailableReason;
use crate::segments::{insert_segment, segments_merged, range_unknown, byte_after_insert,
    lemma_merged_disjoint, lemma_byte_in_cover};

verus! {

/// Blocks of at most this many bytes are not split further.
pub const MIN_READ_BLOCK: u32 = 16;

/// A block of configuration space to read.
#[derive(Clone, Copy, Debug, PartialEq, Eq, Structural)]
pub struct BlockRead {
    pub offset: u32,
    pub length: u32,
}

impl BlockRead {
    pub open spec fn contains(self, a: int) -> bool {
        self.offset <= a < self.offset + self.length
    }
}

/// Whether two ranges share no address.
pub open spec fn ranges_apart(o1: int, l1: int, o2: int, l2: int) -> bool {
    o1 + l1 <= o2 || o2 + l2 <= o1
}

/// Whether a failure covers address `a`.
pub open spec fn failure_contains(f: ConfigReadFailure, a: int) -> bool {
    f.offset <= a < f.offset + f.length
}

/// Whether some pending block contains address `a`.
pub open spec fn in_pending(pending: Seq<BlockRead>, a: int) -> bool {
    exists|i: int| 0 <= i < pending.len() && #[trigger] pending[i].contains(a)
}

/// Whether some failure recorded from index `k0` on covers address `a`.
pub open spec fn in_failed(fs: Seq<ConfigReadFailure>, k0: int, a: int) -> bool {
    exists|k: int| k0 <= k < fs.len() && #[trigger] failure_contains(fs[k], a)
}

/// Reads configuration space into a snapshot, one fetch at a time.
pub struct ConfigSpaceReader {
    snapshot: ConfigSpaceSnapshot,
    /// Blocks still to read; the last one is read next.
    pending: Vec<BlockRead>,
    cursor: u32,
    end: u32,
    first_failure: Option<ConfigReadFailure>,
    fetch_start: Ghost<int>,
    failures_at_start: Ghost<int>,
    fetch_valid: Ghost<bool>,
}

impl ConfigSpaceReader {
    /// The snapshot read so far.
    pub closed spec fn spec_snapshot(&self) -> ConfigSpaceSnapshot {
        self.snapshot
    }

    /// The blocks still to read in the current fetch; the last is read next.
    pub closed spec fn spec_pending(&self) -> Seq<BlockRead> {
        self.pending@
    }

    /// How far the current fetch has looked through its range: the bytes
    /// before this address are known, pending or failed.
    pub closed spec fn spec_cursor(&self) -> int {
        self.cursor as int
    }

    /// The block that `next_block` names and `complete_block` expects.
    pub closed spec fn outstanding(&self) -> Option<BlockRead> {
        if self.pending@.len() > 0 { Some(self.pending@.last()) } else { None }
    }

    /// The start of the range of the current fetch.
    pub closed spec fn fetch_start(&self) -> int {
        self.fetch_start@
    }

    /// The end of the range of the current fetch.
    pub closed spec fn fetch_end(&self) -> int {
        self.end as int
    }

    /// Whether the current fetch was given a non-empty range within the 32-bit offset space.
    pub closed spec fn fetch_valid(&self) -> bool {
        self.fetch_valid@
    }

    /// What the current fetch reports: the first failure it recorded, if any.
    pub closed spec fn fetch_result_spec(&self) -> Result<(), ConfigReadFailure> {
        match self.first_failure {
            Some(f) => Err(f),
            None => Ok(()),
        }
    }

    closed spec fn pending_ok(&self, b: BlockRead) -> bool {
        &&& b.length >= 1
        &&& self.fetch_start@ <= b.offset
        &&& b.offset + b.length <= self.cursor
        &&& range_unknown(self.snapshot.segments@, b.offset as int, b.length as int)
    }

    closed spec fn failure_ok(&self, f: ConfigReadFailure) -> bool {
        &&& f.length >= 1
        &&& self.fetch_start@ <= f.offset
        &&& f.offset + f.length <= self.cursor
        &&& range_unknown(self.snapshot.segments@, f.offset as int, f.length as int)
        &&& forall|i: int| 0 <= i < self.pending@.len() ==>
            ranges_apart(f.offset as int, f.length as int, (#[trigger] self.pending@[i]).offset as int, self.pending@[i].length as int)
    }

    closed spec fn accounted(&self, a: int) -> bool {
        ||| byte_in(self.snapshot.segments@, a) is Some
        ||| in_pending(self.pending@, a)
        ||| in_failed(self.snapshot.failures@, self.failures_at_start@, a)
    }

    /// The reader's invariant.
    pub closed spec fn inv(&self) -> bool {
        &&& segments_merged(self.snapshot.segments@)
        &&& self.cursor <= self.end
        &&& 0 <= self.failures_at_start@ <= self.snapshot.failures@.len()
        &&& !self.fetch_valid@ ==> {
            &&& self.first_failure is Some
            &&& self.pending@.len() == 0
            &&& self.cursor == self.end
        }
        &&& self.fetch_valid@ ==> {
            &&& self.fetch_start@ <= self.cursor
            &&& self.first_failure == if self.snapshot.failures@.len() == self.failures_at_start@ {
                None
            } else {
                Some(self.snapshot.failures@[self.failures_at_start@])
            }
            &&& forall|i: int| 0 <= i < self.pending@.len() ==> self.pending_ok(#[trigger] self.pending@[i])
            &&& forall|i: int, j: int| 0 <= i < j < self.pending@.len() ==>
                ranges_apart((#[trigger] self.pending@[i]).offset as int, self.pending@[i].length as int,
                    (#[trigger] self.pending@[j]).offset as int, self.pending@[j].length as int)
            &&& forall|k: int| self.failures_at_start@ <= k < self.snapshot.failures@.len() ==>
                self.failure_ok(#[trigger] self.snapshot.failures@[k])
            &&& forall|a: int| self.fetch_start@ <= a < self.cursor ==> #[trigger] self.accounted(a)
        }
    }

    /// A reader with an empty snapshot of the requested range.
    pub fn new(requested: Range<u32>) -> (r: Self)
        ensures
            r.inv(),
            r.spec_snapshot().requested == requested,
            r.spec_snapshot().segments@.len() == 0,
            r.spec_snapshot().failures@.len() == 0,
            r.outstanding() is None,
    {
        ConfigSpaceReader {
            snapshot: ConfigSpaceSnapshot::new(requested),
            pending: Vec::new(),
            cursor: 0,
            end: 0,
            first_failure: None,
            fetch_start: Ghost(0),
            failures_at_start: Ghost(0),
            fetch_valid: Ghost(true),
        }
    }

    /// The snapshot read so far.
    pub fn snapshot(&self) -> (r: &ConfigSpaceSnapshot)
        requires
            self.inv(),
        ensures
            *r == self.spec_snapshot(),
            r.wf(),
            segments_merged(r.segments@),
    {
        proof {
            lemma_merged_disjoint(self.snapshot.segments@);
        }
        &self.snapshot
    }

    /// Records a read error over `[offset, offset + length)`.
    fn record_failure(&mut self, offset: u32, length: u32) -> (f: ConfigReadFailure)
        ensures
            f == (ConfigReadFailure { offset, length, reason: PciFieldUnavailableReason::ReadError }),
            final(self).snapshot.failures@ == old(self).snapshot.failures@.push(f),
            final(self).snapshot.segments == old(self).snapshot.segments,
            final(self).snapshot.requested == old(self).snapshot.requested,
            final(self).pending == old(self).pending,
            final(self).cursor == old(self).cursor,
            final(self).end == old(self).end,
            final(self).first_failure == old(self).first_failure,
            final(self).fetch_start == old(self).fetch_start,
            final(self).failures_at_start == old(self).failures_at_start,
            final(self).fetch_valid == old(self).fetch_valid,
    {
        let failure = ConfigReadFailure { offset, length, reason: PciFieldUnavailableReason::ReadError };
        self.snapshot.failures.push(failure);
        failure
    }

    /// Starts fetching `[offset, offset + length)`: the bytes of the range that
    /// the snapshot lacks will be named, in order, by `next_block`. An empty
    /// range, or one that leaves the 32-bit offset space, is recorded as a
    /// failure and fetches nothing.
    pub fn begin_fetch(&mut self, offset: u32, length: u32)
        requires
            old(self).inv(),
        ensures
            final(self).inv(),
            final(self).spec_snapshot().segments == old(self).spec_snapshot().segments,
            final(self).spec_snapshot().requested == old(self).spec_snapshot().requested,
            (length == 0 || offset + length > u32::MAX) ==> {
                let f = ConfigReadFailure { offset, length, reason: PciFieldUnavailableReason::ReadError };
                &&& final(self).spec_snapshot().failures@ == old(self).spec_snapshot().failures@.push(f)
                &&& final(self).fetch_result_spec() == Err::<(), ConfigReadFailure>(f)
                &&& !final(self).fetch_valid()
                &&& final(self).outstanding() is None
            },
            !(length == 0 || offset + length > u32::MAX) ==> {
                &&& final(self).spec_snapshot().failures == old(self).spec_snapshot().failures
                &&& final(self).fetch_result_spec() == Ok::<(), ConfigReadFailure>(())
                &&& final(self).fetch_valid()
                &&& final(self).fetch_start() == offset
                &&& final(self).fetch_end() == offset + length
                &&& final(self).outstanding() is None
                &&& final(self).spec_pending().len() == 0
                &&& final(self).spec_cursor() == offset
            },
    {
        self.pending = Vec::new();
        if length == 0 || offset > u32::MAX - length {
            let at_start = self.snapshot.failures.len();
            let failure = self.record_failure(offset, length);
            self.first_failure = Some(failure);
            self.cursor = 0;
            self.end = 0;
            self.fetch_start = Ghost(0);
            self.failures_at_start = Ghost(at_start as int);
            self.fetch_valid = Ghost(false);
            return;
        }
        self.cursor = offset;
        self.end = offset + length;
        self.first_failure = None;
        self.fetch_start = Ghost(offset as int);
        self.failures_at_start = Ghost(self.snapshot.failures@.len() as int);
        self.fetch_valid = Ghost(true);
    }

    /// The offset of the first segment that starts after `a`.
    fn next_segment_start(&self, a: u32) -> (r: Option<u32>)
        requires
            segments_merged(self.snapshot.segments@),
        ensures
            match r {
                Some(s) => {
                    &&& s > a
                    &&& exists|i: int| 0 <= i < self.snapshot.segments@.len() && (#[trigger] self.snapshot.segments@[i]).offset == s
                    &&& forall|i: int| 0 <= i < self.snapshot.segments@.len() && (#[trigger] self.snapshot.segments@[i]).offset > a
                        ==> self.snapshot.segments@[i].offset >= s
                },
                None => forall|i: int| 0 <= i < self.snapshot.segments@.len() ==> (#[trigger] self.snapshot.segments@[i]).offset <= a,
            },
    {
        let mut i: usize = 0;
        while i < self.snapshot.segments.len()
            invariant
                segments_merged(self.snapshot.segments@),
                i <= self.snapshot.segments@.len(),
                forall|j: int| 0 <= j < i ==> (#[trigger] self.snapshot.segments@[j]).offset <= a,
            decreases self.snapshot.segments@.len() - i,
        {
            let s = self.snapshot.segments[i].offset;
            if s > a {
                proof {
                    assert forall|j: int| 0 <= j < self.snapshot.segments@.len() && (#[trigger] self.snapshot.segments@[j]).offset > a
                        implies self.snapshot.segments@[j].offset >= s by {
                        if j > i {
                            assert(self.snapshot.segments@[i as int].end_spec() < self.snapshot.segments@[j].offset);
                        }
                    }
                }
                return Some(s);
            }
            i = i + 1;
        }
        None
    }

    /// The block to read next, or `None` once the fetch has read, or tried to
    /// read, every byte of its range.
    pub fn next_block(&mut self) -> (r: Option<BlockRead>)
        requires
            old(self).inv(),
        ensures
            final(self).inv(),
            final(self).spec_snapshot() == old(self).spec_snapshot(),
            final(self).fetch_result_spec() == old(self).fetch_result_spec(),
            final(self).fetch_valid() == old(self).fetch_valid(),
            final(self).fetch_start() == old(self).fetch_start(),
            final(self).fetch_end() == old(self).fetch_end(),
            r == final(self).outstanding(),
            old(self).outstanding() is Some ==> r == old(self).outstanding(),
            r matches Some(b) ==> {
                &&& b.length >= 1
                &&& old(self).fetch_start() <= b.offset
                &&& b.offset + b.length <= old(self).fetch_end()
                &&& range_unknown(final(self).spec_snapshot().segments@, b.offset as int, b.length as int)
            },
            r is None && final(self).fetch_valid() ==> (
                final(self).fetch_result_spec() is Ok <==> final(self).spec_snapshot().covers_range(
                    final(self).fetch_start(), final(self).fetch_end() - final(self).fetch_start())
            ),
            r is None && final(self).fetch_valid() ==> forall|a: int| final(self).fetch_start() <= a < final(self).fetch_end()
                ==> #[trigger] final(self).spec_snapshot().byte_at(a) is Some || in_failed(final(self).spec_snapshot().failures@, 0, a),
            old(self).spec_pending().len() > 0 ==> *final(self) == *old(self),
            old(self).spec_pending().len() == 0 ==> match r {
                Some(b) => {
                    &&& final(self).spec_pending() == seq![b]
                    &&& old(self).spec_cursor() <= b.offset
                    &&& old(self).spec_snapshot().covers_range(old(self).spec_cursor(), b.offset - old(self).spec_cursor())
                    &&& b.offset + b.length == old(self).fetch_end()
                        || old(self).spec_snapshot().byte_at(b.offset + b.length) is Some
                    &&& final(self).spec_cursor() == b.offset + b.length
                },
                None => {
                    &&& old(self).spec_snapshot().covers_range(old(self).spec_cursor(), old(self).fetch_end() - old(self).spec_cursor())
                    &&& final(self).spec_cursor() == old(self).fetch_end()
                },
            },
    {
        let n = self.pending.len();
        if n > 0 {
            let b = self.pending[n - 1];
            return Some(b);
        }
        while self.cursor < self.end
            invariant
                self.inv(),
                self.pending@.len() == 0,
                old(self).pending@.len() == 0,
                old(self).cursor <= self.cursor,
                self.snapshot.covers_range(old(self).cursor as int, self.cursor - old(self).cursor),
                self.snapshot == old(self).snapshot,
                self.first_failure == old(self).first_failure,
                self.fetch_valid == old(self).fetch_valid,
                self.fetch_start == old(self).fetch_start,
                self.failures_at_start == old(self).failures_at_start,
                self.end == old(self).end,
            decreases self.end - self.cursor,
        {
            let cursor = self.cursor;
            match self.snapshot.segment_covering(cursor) {
                Some(i) => {
                    proof {
                        lemma_first_cover_found(self.snapshot.segments@, cursor as int, 0);
                    }
                    let seg_end = segment_end(&self.snapshot.segments[i]);
                    let next = if seg_end < self.end { seg_end } else { self.end };
                    let ghost pre = *self;
                    self.cursor = next;
                    proof {
                        lemma_merged_disjoint(self.snapshot.segments@);
                        assert forall|a: int| self.fetch_start@ <= a < next implies #[trigger] self.accounted(a) by {
                            if a >= cursor {
                                lemma_byte_in_cover(self.snapshot.segments@, a, i as int);
                            } else {
                                assert(pre.accounted(a));
                            }
                        }
                        assert forall|a: int| old(self).cursor <= a < next implies (#[trigger] self.snapshot.byte_at(a)) is Some by {
                            if a >= cursor {
                                lemma_byte_in_cover(self.snapshot.segments@, a, i as int);
                            }
                        }
                        assert forall|k: int| self.failures_at_start@ <= k < self.snapshot.failures@.len() implies
                            self.failure_ok(#[trigger] self.snapshot.failures@[k]) by {
                            assert(pre.failure_ok(self.snapshot.failures@[k]));
                        }
                    }
                },
                None => {
                    proof {
                        lemma_first_cover_none(self.snapshot.segments@, cursor as int, 0);
                    }
                    let next_start = self.next_segment_start(cursor);
                    let gap_end = match next_start {
                        Some(s) => if s < self.end { s } else { self.end },
                        None => self.end,
                    };
                    proof {
                        if gap_end < self.end {
                            let segs = self.snapshot.segments@;
                            let j = choose|j: int| 0 <= j < segs.len() && (#[trigger] segs[j]).offset == gap_end;
                            lemma_merged_disjoint(segs);
                            lemma_byte_in_cover(segs, gap_end as int, j);
                        }
                    }
                    let block = BlockRead { offset: cursor, length: gap_end - cursor };
                    proof {
                        let segs = self.snapshot.segments@;
                        assert forall|a: int| cursor <= a < gap_end implies #[trigger] byte_in(segs, a) is None by {
                            assert forall|j: int| 0 <= j < segs.len() implies !#[trigger] segs[j].covers(a) by {
                                if segs[j].covers(a) {
                                    if segs[j].offset <= cursor {
                                        assert(segs[j].covers(cursor as int));
                                    }
                                }
                            }
                            crate::segments::lemma_byte_in_none(segs, a);
                        }
                    }
                    let ghost pre = *self;
                    self.pending.push(block);
                    self.cursor = gap_end;
                    proof {
                        assert(self.pending@[0] == block);
                        assert forall|a: int| self.fetch_start@ <= a < gap_end implies #[trigger] self.accounted(a) by {
                            if a >= cursor {
                                assert(self.pending@[0].contains(a));
                            } else {
                                assert(pre.accounted(a));
                                assert(!in_pending(pre.pending@, a));
                            }
                        }
                        assert forall|k: int| self.failures_at_start@ <= k < self.snapshot.failures@.len() implies
                            self.failure_ok(#[trigger] self.snapshot.failures@[k]) by {
                            assert(pre.failure_ok(self.snapshot.failures@[k]));
                        }
                        assert(self.pending_ok(self.pending@[0]));
                        assert(self.pending@ =~= seq![block]);
                    }
                    return Some(block);
                },
            }
        }
        proof {
            if self.fetch_valid@ {
                assert forall|a: int| self.fetch_start@ <= a < self.end implies
                    #[trigger] self.snapshot.byte_at(a) is Some || in_failed(self.snapshot.failures@, 0, a) by {
                    assert(self.accounted(a));
                    if in_failed(self.snapshot.failures@, self.failures_at_start@, a) {
                        let k = choose|k: int| self.failures_at_start@ <= k < self.snapshot.failures@.len()
                            && #[trigger] failure_contains(self.snapshot.failures@[k], a);
                        assert(failure_contains(self.snapshot.failures@[k], a));
                    }
                }
                let segs = self.snapshot.segments@;
                if self.first_failure is None {
                    assert forall|a: int| self.fetch_start@ <= a < self.fetch_start@ + (self.end - self.fetch_start@)
                        implies (#[trigger] self.snapshot.byte_at(a)) is Some by {
                        assert(self.accounted(a));
                    }
                } else {
                    let f = self.snapshot.failures@[self.failures_at_start@];
                    assert(self.failure_ok(f));
                    assert(byte_in(segs, f.offset as int) is None);
                    assert(self.snapshot.byte_at(f.offset as int) is None);
                    assert(!self.snapshot.covers_range(self.fetch_start@, self.end - self.fetch_start@));
                }
            }
        }
        None
    }

    /// Takes the outcome of reading the outstanding block: its bytes, or
    /// `None` when the read failed. Bytes of another length than the block's
    /// count as a failed read. A failed block of more than `MIN_READ_BLOCK`
    /// bytes is split in halves, to be read in turn; a smaller one is
    /// recorded as a failure. Without an outstanding block nothing happens.
    pub fn complete_block(&mut self, data: Option<Vec<u8>>)
        requires
            old(self).inv(),
        ensures
            final(self).inv(),
            final(self).spec_snapshot().requested == old(self).spec_snapshot().requested,
            final(self).fetch_valid() == old(self).fetch_valid(),
            final(self).fetch_start() == old(self).fetch_start(),
            final(self).fetch_end() == old(self).fetch_end(),
            forall|a: int| old(self).spec_snapshot().byte_at(a) is Some
                ==> #[trigger] final(self).spec_snapshot().byte_at(a) == old(self).spec_snapshot().byte_at(a),
            old(self).outstanding() is None ==> *final(self) == *old(self),
            old(self).outstanding() matches Some(b) ==> {
                let succeeded = data matches Some(bytes) && bytes@.len() == b.length;
                &&& final(self).spec_cursor() == old(self).spec_cursor()
                &&& (succeeded || b.length <= MIN_READ_BLOCK) ==> final(self).spec_pending() == old(self).spec_pending().drop_last()
                &&& (!succeeded && b.length > MIN_READ_BLOCK) ==> final(self).spec_pending() == old(self).spec_pending().drop_last()
                    .push(BlockRead { offset: (b.offset + b.length / 2) as u32, length: (b.length - b.length / 2) as u32 })
                    .push(BlockRead { offset: b.offset, length: (b.length / 2) as u32 })
                &&& succeeded ==> {
                    &&& forall|a: int| #[trigger] final(self).spec_snapshot().byte_at(a)
                        == byte_after_insert(old(self).spec_snapshot().segments@, b.offset as int, data.unwrap()@, a)
                    &&& final(self).spec_snapshot().read_spec(b.offset, b.length) == Ok::<Seq<u8>, ConfigReadFailure>(data.unwrap()@)
                    &&& final(self).spec_snapshot().failures == old(self).spec_snapshot().failures
                    &&& final(self).fetch_result_spec() == old(self).fetch_result_spec()
                }
                &&& !succeeded ==> {
                    &&& final(self).spec_snapshot().segments == old(self).spec_snapshot().segments
                    &&& b.length <= MIN_READ_BLOCK ==> {
                        let f = ConfigReadFailure { offset: b.offset, length: b.length, reason: PciFieldUnavailableReason::ReadError };
                        &&& final(self).spec_snapshot().failures@ == old(self).spec_snapshot().failures@.push(f)
                        &&& final(self).fetch_result_spec() == match old(self).fetch_result_spec() {
                            Ok(_) => Err::<(), ConfigReadFailure>(f),
                            Err(g) => Err::<(), ConfigReadFailure>(g),
                        }
                    }
                    &&& b.length > MIN_READ_BLOCK ==> {
                        &&& final(self).spec_snapshot().failures == old(self).spec_snapshot().failures
                        &&& final(self).fetch_result_spec() == old(self).fetch_result_spec()
                        &&& final(self).outstanding() == Some(BlockRead { offset: b.offset, length: (b.length / 2) as u32 })
                    }
                }
            },
    {
        let n = self.pending.len();
        if n == 0 {
            return;
        }
        let ghost old_pending = self.pending@;
        let block = self.pending.pop().unwrap();
        proof {
            assert(old_pending[n - 1] == block);
            assert(self.pending@ == old_pending.drop_last());
            assert(self.fetch_valid@);
            assert(self.pending_ok(block)) by {
                assert(old(self).pending_ok(old_pending[n - 1]));
            }
        }
        let succeeded = match &data {
            Some(bytes) => bytes.len() == block.length as usize,
            None => false,
        };
        if succeeded {
            let bytes = data.unwrap();
            let ghost old_segs = self.snapshot.segments@;
            insert_segment(&mut self.snapshot.segments, block.offset, bytes);
            proof {
                let segs = self.snapshot.segments@;
                assert(self.snapshot.covers_range(block.offset as int, block.length as int)) by {
                    assert forall|a: int| block.offset <= a < block.offset + block.length
                        implies (#[trigger] self.snapshot.byte_at(a)) is Some by {
                        assert(byte_in(segs, a) == byte_after_insert(old_segs, block.offset as int, bytes@, a));
                    }
                }
                assert(self.snapshot.bytes_of(block.offset as int, block.length as int) =~= bytes@) by {
                    assert forall|k: int| 0 <= k < block.length implies
                        #[trigger] self.snapshot.bytes_of(block.offset as int, block.length as int)[k] == bytes@[k] by {
                        assert(byte_in(segs, block.offset + k) == byte_after_insert(old_segs, block.offset as int, bytes@, block.offset + k));
                    }
                }
                self.lemma_after_insert(*old(self), block, bytes@, old_segs);
                assert forall|a: int| byte_in(old_segs, a) is Some
                    implies #[trigger] byte_in(self.snapshot.segments@, a) == byte_in(old_segs, a) by {
                    if block.offset <= a < block.offset + block.length {
                        assert(byte_in(old_segs, a) is None);
                    }
                }
            }
        } else if block.length <= MIN_READ_BLOCK {
            let failure = self.record_failure(block.offset, block.length);
            if self.first_failure.is_none() {
                self.first_failure = Some(failure);
            }
            proof {
                self.lemma_after_failure(*old(self), block);
            }
        } else {
            let left = block.length / 2;
            let right = BlockRead { offset: block.offset + left, length: block.length - left };
            let first = BlockRead { offset: block.offset, length: left };
            self.pending.push(right);
            self.pending.push(first);
            proof {
                self.lemma_after_split(*old(self), block, first, right);
            }
        }
    }

    proof fn lemma_after_insert(&self, before: Self, block: BlockRead, bytes: Seq<u8>, old_segs: Seq<ConfigSegment>)
        requires
            before.inv(),
            before.fetch_valid@,
            before.pending@.len() > 0,
            block == before.pending@.last(),
            bytes.len() == block.length,
            old_segs == before.snapshot.segments@,
            self.pending@ == before.pending@.drop_last(),
            self.snapshot.failures == before.snapshot.failures,
            self.snapshot.requested == before.snapshot.requested,
            self.cursor == before.cursor,
            self.end == before.end,
            self.first_failure == before.first_failure,
            self.fetch_start == before.fetch_start,
            self.failures_at_start == before.failures_at_start,
            self.fetch_valid == before.fetch_valid,
            segments_merged(self.snapshot.segments@),
            forall|a: int| #[trigger] byte_in(self.snapshot.segments@, a) == byte_after_insert(old_segs, block.offset as int, bytes, a),
        ensures
            self.inv(),
    {
        let segs = self.snapshot.segments@;
        let n = before.pending@.len();
        assert(before.pending_ok(before.pending@[n - 1]));
        assert forall|i: int| 0 <= i < self.pending@.len() implies self.pending_ok(#[trigger] self.pending@[i]) by {
            let b = self.pending@[i];
            assert(before.pending@[i] == b);
            assert(before.pending_ok(b));
            assert(ranges_apart(b.offset as int, b.length as int, block.offset as int, block.length as int));
            assert forall|a: int| b.offset <= a < b.offset + b.length implies (#[trigger] byte_in(segs, a)) is None by {
                assert(byte_in(old_segs, a) is None);
            }
        }
        assert forall|i: int, j: int| 0 <= i < j < self.pending@.len() implies
            ranges_apart((#[trigger] self.pending@[i]).offset as int, self.pending@[i].length as int,
                (#[trigger] self.pending@[j]).offset as int, self.pending@[j].length as int) by {
            assert(before.pending@[i] == self.pending@[i]);
            assert(before.pending@[j] == self.pending@[j]);
        }
        assert forall|k: int| self.failures_at_start@ <= k < self.snapshot.failures@.len() implies
            self.failure_ok(#[trigger] self.snapshot.failures@[k]) by {
            let f = self.snapshot.failures@[k];
            assert(before.failure_ok(f));
            assert(ranges_apart(f.offset as int, f.length as int, block.offset as int, block.length as int)) by {
                assert(before.pending@[n - 1] == block);
            }
            assert forall|a: int| f.offset <= a < f.offset + f.length implies (#[trigger] byte_in(segs, a)) is None by {
                assert(byte_in(old_segs, a) is None);
            }
            assert forall|i: int| 0 <= i < self.pending@.len() implies
                ranges_apart(f.offset as int, f.length as int, (#[trigger] self.pending@[i]).offset as int, self.pending@[i].length as int) by {
                assert(before.pending@[i] == self.pending@[i]);
            }
        }
        assert forall|a: int| self.fetch_start@ <= a < self.cursor implies #[trigger] self.accounted(a) by {
            assert(before.accounted(a));
            if byte_in(old_segs, a) is Some {
                assert(byte_in(segs, a) is Some);
            } else if in_pending(before.pending@, a) {
                let i = choose|i: int| 0 <= i < before.pending@.len() && #[trigger] before.pending@[i].contains(a);
                if i == n - 1 {
                    assert(byte_in(segs, a) is Some);
                } else {
                    assert(self.pending@[i].contains(a));
                }
            }
        }
    }

    proof fn lemma_after_failure(&self, before: Self, block: BlockRead)
        requires
            before.inv(),
            before.fetch_valid@,
            before.pending@.len() > 0,
            block == before.pending@.last(),
            self.pending@ == before.pending@.drop_last(),
            self.snapshot.segments == before.snapshot.segments,
            self.snapshot.requested == before.snapshot.requested,
            self.snapshot.failures@ == before.snapshot.failures@.push(
                ConfigReadFailure { offset: block.offset, length: block.length, reason: PciFieldUnavailableReason::ReadError }),
            self.cursor == before.cursor,
            self.end == before.end,
            self.first_failure == match before.first_failure {
                Some(f) => Some(f),
                None => Some(ConfigReadFailure { offset: block.offset, length: block.length, reason: PciFieldUnavailableReason::ReadError }),
            },
            self.fetch_start == before.fetch_start,
            self.failures_at_start == before.failures_at_start,
            self.fetch_valid == before.fetch_valid,
        ensures
            self.inv(),
    {
        let n = before.pending@.len();
        let fs = self.snapshot.failures@;
        let f = fs.last();
        assert(before.pending_ok(before.pending@[n - 1]));
        assert forall|i: int| 0 <= i < self.pending@.len() implies self.pending_ok(#[trigger] self.pending@[i]) by {
            assert(before.pending@[i] == self.pending@[i]);
            assert(before.pending_ok(self.pending@[i]));
        }
        assert forall|i: int, j: int| 0 <= i < j < self.pending@.len() implies
            ranges_apart((#[trigger] self.pending@[i]).offset as int, self.pending@[i].length as int,
                (#[trigger] self.pending@[j]).offset as int, self.pending@[j].length as int) by {
            assert(before.pending@[i] == self.pending@[i]);
            assert(before.pending@[j] == self.pending@[j]);
        }
        assert forall|k: int| self.failures_at_start@ <= k < fs.len() implies self.failure_ok(#[trigger] fs[k]) by {
            if k < fs.len() - 1 {
                assert(before.failure_ok(before.snapshot.failures@[k]));
                assert forall|i: int| 0 <= i < self.pending@.len() implies
                    ranges_apart(fs[k].offset as int, fs[k].length as int, (#[trigger] self.pending@[i]).offset as int, self.pending@[i].length as int) by {
                    assert(before.pending@[i] == self.pending@[i]);
                }
            } else {
                assert forall|i: int| 0 <= i < self.pending@.len() implies
                    ranges_apart(fs[k].offset as int, fs[k].length as int, (#[trigger] self.pending@[i]).offset as int, self.pending@[i].length as int) by {
                    assert(before.pending@[i] == self.pending@[i]);
                    assert(ranges_apart(before.pending@[i].offset as int, before.pending@[i].length as int,
                        before.pending@[n - 1].offset as int, before.pending@[n - 1].length as int));
                }
            }
        }
        assert forall|a: int| self.fetch_start@ <= a < self.cursor implies #[trigger] self.accounted(a) by {
            assert(before.accounted(a));
            if byte_in(before.snapshot.segments@, a) is Some {
            } else if in_pending(before.pending@, a) {
                let i = choose|i: int| 0 <= i < before.pending@.len() && #[trigger] before.pending@[i].contains(a);
                if i == n - 1 {
                    assert(failure_contains(fs[fs.len() - 1], a));
                } else {
                    assert(self.pending@[i].contains(a));
                }
            } else {
                let k = choose|k: int| self.failures_at_start@ <= k < before.snapshot.failures@.len()
                    && #[trigger] failure_contains(before.snapshot.failures@[k], a);
                assert(fs[k] == before.snapshot.failures@[k]);
                assert(failure_contains(fs[k], a));
            }
        }
    }

    proof fn lemma_after_split(&self, before: Self, block: BlockRead, first: BlockRead, right: BlockRead)
        requires
            before.inv(),
            before.fetch_valid@,
            before.pending@.len() > 0,
            block == before.pending@.last(),
            block.length > MIN_READ_BLOCK,
            first == (BlockRead { offset: block.offset, length: (block.length / 2) as u32 }),
            right == (BlockRead { offset: (block.offset + block.length / 2) as u32, length: (block.length - block.length / 2) as u32 }),
            self.pending@ == before.pending@.drop_last().push(right).push(first),
            self.snapshot == before.snapshot,
            self.cursor == before.cursor,
            self.end == before.end,
            self.first_failure == before.first_failure,
            self.fetch_start == before.fetch_start,
            self.failures_at_start == before.failures_at_start,
            self.fetch_valid == before.fetch_valid,
        ensures
            self.inv(),
    {
        let n = before.pending@.len();
        let p = self.pending@;
        assert(before.pending_ok(before.pending@[n - 1]));
        assert(p.len() == n + 1);
        assert(p[n - 1] == right);
        assert(p[n as int] == first);
        assert forall|i: int| 0 <= i < p.len() implies self.pending_ok(#[trigger] p[i]) by {
            if i < n - 1 {
                assert(before.pending@[i] == p[i]);
                assert(before.pending_ok(p[i]));
            }
        }
        assert forall|i: int, j: int| 0 <= i < j < p.len() implies
            ranges_apart((#[trigger] p[i]).offset as int, p[i].length as int,
                (#[trigger] p[j]).offset as int, p[j].length as int) by {
            if j < n - 1 {
                assert(before.pending@[i] == p[i]);
                assert(before.pending@[j] == p[j]);
            } else {
                assert(before.pending@[i] == p[i] || i >= n - 1);
                if i < n - 1 {
                    assert(ranges_apart(before.pending@[i].offset as int, before.pending@[i].length as int,
                        block.offset as int, block.length as int));
                }
            }
        }
        assert forall|k: int| self.failures_at_start@ <= k < self.snapshot.failures@.len() implies
            self.failure_ok(#[trigger] self.snapshot.failures@[k]) by {
            let f = self.snapshot.failures@[k];
            assert(before.failure_ok(f));
            assert(ranges_apart(f.offset as int, f.length as int, block.offset as int, block.length as int)) by {
                assert(before.pending@[n - 1] == block);
            }
            assert forall|i: int| 0 <= i < p.len() implies
                ranges_apart(f.offset as int, f.length as int, (#[trigger] p[i]).offset as int, p[i].length as int) by {
                if i < n - 1 {
                    assert(before.pending@[i] == p[i]);
                }
            }
        }
        assert forall|a: int| self.fetch_start@ <= a < self.cursor implies #[trigger] self.accounted(a) by {
            assert(before.accounted(a));
            if byte_in(before.snapshot.segments@, a) is Some {
            } else if in_pending(before.pending@, a) {
                let i = choose|i: int| 0 <= i < before.pending@.len() && #[trigger] before.pending@[i].contains(a);
                if i == n - 1 {
                    if a < block.offset + block.length / 2 {
                        assert(p[n as int].contains(a));
                    } else {
                        assert(p[n - 1].contains(a));
                    }
                } else {
                    assert(p[i].contains(a));
                }
            } else {
            }
        }
    }

    /// What the current fetch reports: the first failure it recorded, if any.
    pub fn fetch_result(&self) -> (r: Result<(), ConfigReadFailure>)
        ensures
            r == self.fetch_result_spec(),
    {
        match self.first_failure {
            Some(failure) => Err(failure),
            None => Ok(()),
        }
    }

    /// Reads `[offset, offset + length)` once it has been fetched: the failure
    /// of the fetch, if it failed, or else the bytes from the snapshot.
    pub fn read_fetched(&self, offset: u32, length: u32) -> (r: Result<Vec<u8>, ConfigReadFailure>)
        requires
            self.inv(),
        ensures
            match self.fetch_result_spec() {
                Err(f) => r == Err::<Vec<u8>, ConfigReadFailure>(f),
                Ok(_) => match r {
                    Ok(bytes) => self.spec_snapshot().read_spec(offset, length) == Ok::<Seq<u8>, ConfigReadFailure>(bytes@),
                    Err(f) => self.spec_snapshot().read_spec(offset, length) == Err::<Seq<u8>, ConfigReadFailure>(f),
                },
            },
    {
        if let Some(failure) = self.first_failure {
            return Err(failure);
        }
        self.snapshot().read(offset, length)
    }
}

} // verus!
