//! Keeping the segments of a snapshot sorted and merged.
use vstd::prelude::*;
use crate::config::{
    ConfigSegment, byte_in, first_cover_from, segments_disjoint, segments_fit, segment_end,
    lemma_disjoint_cover, lemma_no_cover, lemma_first_cover_found,
};

verus! {

/// Whether the segments are sorted, non-empty, separated by gaps (touching
/// segments have been merged) and within the 32-bit offset space.
pub open spec fn segments_merged(segs: Seq<ConfigSegment>) -> bool {
    &&& segments_fit(segs)
    &&& forall|i: int| 0 <= i < segs.len() ==> (#[trigger] segs[i]).bytes@.len() > 0
    &&& forall|i: int, j: int| 0 <= i < j < segs.len() ==> #[trigger] segs[i].end_spec() < #[trigger] segs[j].offset
}

pub proof fn lemma_merged_disjoint(segs: Seq<ConfigSegment>)
    requires
        segments_merged(segs),
    ensures
        segments_disjoint(segs),
{
}

/// In sorted disjoint segments, the byte at an address is the one of the
/// segment that holds it, if any does.
pub proof fn lemma_byte_in_cover(segs: Seq<ConfigSegment>, a: int, i: int)
    requires
        segments_disjoint(segs),
        0 <= i < segs.len(),
        segs[i].covers(a),
    ensures
        byte_in(segs, a) == Some(segs[i].bytes@[a - segs[i].offset]),
{
    lemma_disjoint_cover(segs, a, i, 0);
}

pub proof fn lemma_byte_in_none(segs: Seq<ConfigSegment>, a: int)
    requires
        forall|j: int| 0 <= j < segs.len() ==> !#[trigger] segs[j].covers(a),
    ensures
        byte_in(segs, a) is None,
{
    lemma_no_cover(segs, a, 0);
}

/// A known byte comes from a segment that holds its address.
pub proof fn lemma_byte_in_some(segs: Seq<ConfigSegment>, a: int) -> (i: int)
    requires
        byte_in(segs, a) is Some,
    ensures
        0 <= i < segs.len(),
        segs[i].covers(a),
        byte_in(segs, a) == Some(segs[i].bytes@[a - segs[i].offset]),
{
    lemma_first_cover_found(segs, a, 0);
    first_cover_from(segs, a, 0).unwrap()
}

/// The bytes known after inserting `bytes` at `offset`: those of the new
/// range, and elsewhere the ones known before.
pub open spec fn byte_after_insert(segs: Seq<ConfigSegment>, offset: int, bytes: Seq<u8>, a: int) -> Option<u8> {
    if offset <= a < offset + bytes.len() {
        Some(bytes[a - offset])
    } else {
        byte_in(segs, a)
    }
}

/// Whether no byte of `[offset, offset + length)` is known.
pub open spec fn range_unknown(segs: Seq<ConfigSegment>, offset: int, length: int) -> bool {
    forall|a: int| offset <= a < offset + length ==> (#[trigger] byte_in(segs, a)) is None
}

/// Inserts the bytes of a block just read, which the reader only ever asks
/// for where nothing is known yet, merging them with the segments they
/// touch, so that the segments stay sorted and separated by gaps.
pub(crate) fn insert_segment(segments: &mut Vec<ConfigSegment>, offset: u32, bytes: Vec<u8>)
    requires
        segments_merged(old(segments)@),
        bytes@.len() > 0,
        offset + bytes@.len() <= u32::MAX,
        range_unknown(old(segments)@, offset as int, bytes@.len() as int),
    ensures
        segments_merged(final(segments)@),
        forall|a: int| #[trigger] byte_in(final(segments)@, a) == byte_after_insert(old(segments)@, offset as int, bytes@, a),
{
    let ghost old_segs = segments@;
    let ghost new_bytes = bytes@;
    let ghost new_end = offset + bytes@.len();
    proof {
        lemma_merged_disjoint(old_segs);
    }

    // position of the first segment that starts after the new bytes
    let mut p: usize = 0;
    while p < segments.len() && segments[p].offset < offset
        invariant
            segments@ == old_segs,
            p <= segments@.len(),
            forall|i: int| 0 <= i < p ==> (#[trigger] segments@[i]).offset < offset,
        decreases segments@.len() - p,
    {
        p = p + 1;
    }

    proof {
        // segments before p end at or before the new bytes; the others start after them
        assert forall|i: int| 0 <= i < p implies #[trigger] old_segs[i].end_spec() <= offset by {
            if old_segs[i].end_spec() > offset {
                assert(old_segs[i].covers(offset as int));
                lemma_byte_in_cover(old_segs, offset as int, i);
            }
        }
        assert forall|i: int| p <= i < old_segs.len() implies #[trigger] old_segs[i].offset >= new_end by {
            if i == p {
                assert(old_segs[i].offset >= offset);
            } else {
                assert(old_segs[p as int].end_spec() < old_segs[i].offset);
            }
            if old_segs[i].offset < new_end {
                assert(old_segs[i].covers(old_segs[i].offset as int));
                lemma_byte_in_cover(old_segs, old_segs[i].offset as int, i);
            }
        }
    }

    let mut seg = ConfigSegment { offset, bytes };
    let mut idx = p;

    // merge with the segment that starts where the new bytes end
    if idx < segments.len() && segments[idx].offset == offset + seg.bytes.len() as u32 {
        let mut next = segments.remove(idx);
        seg.bytes.append(&mut next.bytes);
    }
    let ghost mid = segments@;
    let ghost merged_next = mid.len() < old_segs.len();
    proof {
        assert(seg.offset == offset);
        if merged_next {
            assert(mid == old_segs.remove(p as int));
            assert(seg.bytes@ == new_bytes + old_segs[p as int].bytes@);
        } else {
            assert(mid == old_segs);
            assert(seg.bytes@ == new_bytes);
        }
    }

    // merge with the segment that ends where the new bytes start
    if idx > 0 && segment_end(&segments[idx - 1]) == offset {
        let mut prev = segments.remove(idx - 1);
        prev.bytes.append(&mut seg.bytes);
        seg = prev;
        idx = idx - 1;
    }
    let ghost merged_prev = idx < p;
    let ghost before = segments@;
    proof {
        if merged_prev {
            assert(idx == p - 1);
            assert(before == mid.remove(idx as int));
            assert(seg.offset == old_segs[idx as int].offset);
        } else {
            assert(before == mid);
            assert(seg.offset == offset);
        }
    }

    segments.insert(idx, seg);

    proof {
        let q = if merged_next { p + 1 } else { p as int };
        assert(segments@ =~= old_segs.subrange(0, idx as int) + seq![seg] + old_segs.subrange(q, old_segs.len() as int));
        if merged_prev {
            assert(seg.bytes@ =~= old_segs[idx as int].bytes@ + (if merged_next { new_bytes + old_segs[p as int].bytes@ } else { new_bytes }));
        }
        lemma_insert_shape(old_segs, offset as int, new_bytes, p as int, merged_prev, merged_next, seg, segments@);
    }
}

/// The bytes of the segment that the new bytes are merged into.
pub open spec fn merged_bytes(old_segs: Seq<ConfigSegment>, new_bytes: Seq<u8>, p: int, merged_prev: bool, merged_next: bool) -> Seq<u8> {
    let middle = if merged_next { new_bytes + old_segs[p].bytes@ } else { new_bytes };
    if merged_prev { old_segs[p - 1].bytes@ + middle } else { middle }
}

/// The segments after inserting new bytes at position `p`, merged with the
/// segment before them (`merged_prev`) and the one after them (`merged_next`).
pub proof fn lemma_insert_shape(
    old_segs: Seq<ConfigSegment>,
    offset: int,
    new_bytes: Seq<u8>,
    p: int,
    merged_prev: bool,
    merged_next: bool,
    seg: ConfigSegment,
    segs: Seq<ConfigSegment>,
)
    requires
        segments_merged(old_segs),
        new_bytes.len() > 0,
        offset + new_bytes.len() <= u32::MAX,
        0 <= p <= old_segs.len(),
        forall|i: int| 0 <= i < p ==> #[trigger] old_segs[i].end_spec() <= offset,
        forall|i: int| p <= i < old_segs.len() ==> #[trigger] old_segs[i].offset >= offset + new_bytes.len(),
        merged_prev <==> (p > 0 && old_segs[p - 1].end_spec() == offset),
        merged_next <==> (p < old_segs.len() && old_segs[p].offset == offset + new_bytes.len()),
        seg.offset == if merged_prev { old_segs[p - 1].offset as int } else { offset },
        seg.bytes@ == merged_bytes(old_segs, new_bytes, p, merged_prev, merged_next),
        segs == old_segs.subrange(0, if merged_prev { p - 1 } else { p }) + seq![seg]
            + old_segs.subrange(if merged_next { p + 1 } else { p }, old_segs.len() as int),
    ensures
        segments_merged(segs),
        forall|a: int| #[trigger] byte_in(segs, a) == byte_after_insert(old_segs, offset, new_bytes, a),
{
    let idx = if merged_prev { p - 1 } else { p };
    let q = if merged_next { p + 1 } else { p };
    let shift = q - idx - 1;
    let new_end = offset + new_bytes.len();
    lemma_merged_disjoint(old_segs);
    assert(segs.len() == old_segs.len() - shift);
    assert(segs[idx] == seg);
    assert forall|i: int| 0 <= i < idx implies #[trigger] segs[i] == old_segs[i] by {}
    assert forall|i: int| idx < i < segs.len() implies #[trigger] segs[i] == old_segs[i + shift] by {}
    let hi = seg.end_spec();
    assert(hi == (if merged_next { old_segs[p].end_spec() } else { new_end }));

    // the result is sorted, separated and fits
    assert forall|i: int, j: int| 0 <= i < j < segs.len() implies #[trigger] segs[i].end_spec() < #[trigger] segs[j].offset by {
        if j < idx {
        } else if j == idx {
            assert(old_segs[i].end_spec() < seg.offset) by {
                if merged_prev {
                    assert(old_segs[i].end_spec() < old_segs[p - 1].offset);
                } else if i == p - 1 {
                } else {
                    assert(old_segs[i].end_spec() < old_segs[p - 1].offset);
                    assert(old_segs[p - 1].end_spec() <= offset);
                }
            }
        } else if i == idx {
            assert(hi < old_segs[j + shift].offset) by {
                if merged_next {
                    assert(old_segs[p].end_spec() < old_segs[j + shift].offset);
                } else if j + shift == p {
                } else {
                    assert(old_segs[p].end_spec() < old_segs[j + shift].offset);
                }
            }
        } else if i < idx {
            assert(old_segs[i].end_spec() < old_segs[j + shift].offset);
        } else {
            assert(old_segs[i + shift].end_spec() < old_segs[j + shift].offset);
        }
    }
    assert forall|i: int| 0 <= i < segs.len() implies #[trigger] segs[i].end_spec() <= u32::MAX by {
        if i < idx {
        } else if i == idx {
            if merged_next {
                assert(old_segs[p].end_spec() <= u32::MAX);
            }
        } else {
            assert(old_segs[i + shift].end_spec() <= u32::MAX);
        }
    }
    assert forall|i: int| 0 <= i < segs.len() implies (#[trigger] segs[i]).bytes@.len() > 0 by {
        if i < idx {
        } else if i == idx {
        } else {
            assert(old_segs[i + shift].bytes@.len() > 0);
        }
    }
    lemma_merged_disjoint(segs);

    // every byte is as it was, or comes from the new bytes
    assert forall|a: int| #[trigger] byte_in(segs, a) == byte_after_insert(old_segs, offset, new_bytes, a) by {
        if seg.offset <= a < hi {
            lemma_byte_in_cover(segs, a, idx);
            if a < offset {
                lemma_byte_in_cover(old_segs, a, p - 1);
            } else if a < new_end {
            } else {
                lemma_byte_in_cover(old_segs, a, p);
            }
        } else if byte_in(segs, a) is Some {
            let i = lemma_byte_in_some(segs, a);
            let k = if i < idx { i } else { i + shift };
            assert(segs[i] == old_segs[k]);
            lemma_byte_in_cover(old_segs, a, k);
            assert(!(offset <= a < new_end));
        } else if byte_in(old_segs, a) is Some {
            let k = lemma_byte_in_some(old_segs, a);
            if k < idx {
                lemma_byte_in_cover(segs, a, k);
            } else if k >= q {
                lemma_byte_in_cover(segs, a, k - shift);
            } else {
                assert(false);
            }
        } else {
            if offset <= a < new_end {
                lemma_byte_in_cover(segs, a, idx);
            }
        }
    }
}

} // verus!
