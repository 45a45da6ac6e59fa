//! Range planning: splitting a resource of known length into N contiguous
//! byte ranges, the last of which absorbs the division remainder.

use vstd::prelude::*;

verus! {

/// Upper bound on the number of parallel segments.
pub const MAX_PARTS: u64 = 32;

/// One planned byte range, inclusive on both ends.
#[derive(Clone, Copy, PartialEq, Eq, Structural, Debug)]
pub struct Segment {
    pub start: u64,
    pub end: u64,
}

/// Requested parallelism clamped into [1, `MAX_PARTS`].
pub open spec fn clamped_parts(parts: u64) -> u64 {
    if parts < 1 {
        1
    } else if parts > MAX_PARTS {
        MAX_PARTS
    } else {
        parts
    }
}

/// Clamps the requested number of parts into [1, `MAX_PARTS`].
pub fn clamp_parts(parts: u64) -> (r: u64)
    ensures
        r == clamped_parts(parts),
        1 <= r <= MAX_PARTS,
{
    if parts < 1 {
        1
    } else if parts > MAX_PARTS {
        MAX_PARTS
    } else {
        parts
    }
}

/// First byte of segment `i` in a plan for `total` bytes over `parts`
/// segments.
pub open spec fn segment_start(total: int, parts: int, i: int) -> int {
    i * (total / parts)
}

/// Last byte of segment `i`; the final segment runs to the end of the
/// resource.
pub open spec fn segment_end(total: int, parts: int, i: int) -> int {
    if i == parts - 1 {
        total - 1
    } else {
        (i + 1) * (total / parts) - 1
    }
}

/// Number of bytes in segment `i`.
pub open spec fn segment_size(total: int, parts: int, i: int) -> int {
    segment_end(total, parts, i) - segment_start(total, parts, i) + 1
}

/// The planned ranges start at 0, follow on from one another without gap or
/// overlap, cover the whole resource, and are each at least one byte.
pub proof fn lemma_plan_contiguous(total: int, parts: int)
    requires
        1 <= parts <= total,
    ensures
        segment_start(total, parts, 0) == 0,
        segment_end(total, parts, parts - 1) == total - 1,
        forall|i: int|
            0 <= i < parts - 1 ==> segment_start(total, parts, i + 1) == #[trigger] segment_end(
                total,
                parts,
                i,
            ) + 1,
        forall|i: int|
            0 <= i < parts ==> 0 <= #[trigger] segment_start(total, parts, i) <= segment_end(
                total,
                parts,
                i,
            ) < total,
{
    let c = total / parts;
    assert(c >= 1 && parts * c <= total) by (nonlinear_arith)
        requires
            1 <= parts <= total,
            c == total / parts,
    ;
    assert forall|i: int| 0 <= i < parts implies 0 <= #[trigger] segment_start(total, parts, i)
        <= segment_end(total, parts, i) < total by {
        assert(0 <= i * c) by (nonlinear_arith)
            requires
                0 <= i,
                1 <= c,
        ;
        if i < parts - 1 {
            assert((i + 1) * c - 1 - i * c + 1 == c) by (nonlinear_arith);
            assert((i + 1) * c <= parts * c) by (nonlinear_arith)
                requires
                    i + 1 <= parts,
                    1 <= c,
            ;
        } else {
            assert(i * c <= total - 1) by (nonlinear_arith)
                requires
                    i == parts - 1,
                    c >= 1,
                    parts * c <= total,
            ;
        }
    }
}

/// Sum of the sizes of the first `i` planned segments.
pub open spec fn planned_sum(total: int, parts: int, i: int) -> int
    decreases i,
{
    if i <= 0 {
        0
    } else {
        planned_sum(total, parts, i - 1) + segment_size(total, parts, i - 1)
    }
}

proof fn lemma_planned_sum_prefix(total: int, parts: int, i: int)
    requires
        1 <= parts,
        0 <= i <= parts - 1,
    ensures
        planned_sum(total, parts, i) == i * (total / parts),
    decreases i,
{
    let c = total / parts;
    if i == 0 {
    } else {
        lemma_planned_sum_prefix(total, parts, i - 1);
        assert((i - 1) * c + ((i * c - 1) - (i - 1) * c + 1) == i * c) by (nonlinear_arith);
    }
}

/// The planned segment sizes sum to the full resource length.
pub proof fn lemma_plan_sum(total: int, parts: int)
    requires
        1 <= parts <= total,
    ensures
        planned_sum(total, parts, parts) == total,
{
    lemma_planned_sum_prefix(total, parts, parts - 1);
}

/// Start and end of one planned byte range; the caller supplies the
/// precomputed chunk size `total / parts`.
pub fn calculate_range(index: u64, parts: u64, chunk_size: u64, content_length: u64) -> (r: (
    u64,
    u64,
))
    requires
        1 <= parts <= content_length,
        index < parts,
        chunk_size == content_length as int / parts as int,
    ensures
        r.0 == segment_start(content_length as int, parts as int, index as int),
        r.1 == segment_end(content_length as int, parts as int, index as int),
        r.0 <= r.1 < content_length,
{
    proof {
        lemma_plan_contiguous(content_length as int, parts as int);
        assert(chunk_size >= 1 && index as int * chunk_size as int + chunk_size as int
            <= content_length) by (nonlinear_arith)
            requires
                0 <= index as int <= parts - 1,
                chunk_size == content_length as int / parts as int,
                1 <= parts <= content_length,
        ;
        assert((index as int + 1) * chunk_size as int == index as int * chunk_size as int
            + chunk_size as int) by (nonlinear_arith);
    }
    let start = index * chunk_size;
    let end = if index == parts - 1 {
        content_length - 1
    } else {
        start + chunk_size - 1
    };
    (start, end)
}

/// Plans the full set of ranges for a resource of `content_length` bytes.
pub fn plan_segments(content_length: u64, parts: u64) -> (r: Vec<Segment>)
    requires
        1 <= parts <= content_length,
    ensures
        r@.len() == parts,
        forall|i: int|
            0 <= i < parts ==> (#[trigger] r@[i]).start == segment_start(
                content_length as int,
                parts as int,
                i,
            ) && r@[i].end == segment_end(content_length as int, parts as int, i),
{
    let chunk_size = content_length / parts;
    let mut segs: Vec<Segment> = Vec::new();
    let mut i: u64 = 0;
    while i < parts
        invariant
            0 <= i <= parts,
            1 <= parts <= content_length,
            chunk_size == content_length as int / parts as int,
            segs@.len() == i,
            forall|j: int|
                0 <= j < i ==> (#[trigger] segs@[j]).start == segment_start(
                    content_length as int,
                    parts as int,
                    j,
                ) && segs@[j].end == segment_end(content_length as int, parts as int, j),
        decreases parts - i,
    {
        let (start, end) = calculate_range(i, parts, chunk_size, content_length);
        segs.push(Segment { start, end });
        i = i + 1;
    }
    segs
}

} // verus!
