//! Assembling downloaded part contents into the final artifact, in segment
//! order, and the laws connecting the merged bytes to the planned ranges.

use vstd::prelude::*;
use crate::plan::{lemma_plan_contiguous, lemma_plan_sum, planned_sum, segment_end, segment_size,
    segment_start};

verus! {

/// Concatenation of a sequence of byte strings, in order.
pub open spec fn concat_all(ps: Seq<Seq<u8>>) -> Seq<u8>
    decreases ps.len(),
{
    if ps.len() == 0 {
        Seq::empty()
    } else {
        concat_all(ps.drop_last()) + ps.last()
    }
}

/// The part contents that take part in a merge: present and non-empty ones,
/// in segment-index order.
pub open spec fn usable_views(parts: Seq<Option<Vec<u8>>>) -> Seq<Seq<u8>>
    decreases parts.len(),
{
    if parts.len() == 0 {
        Seq::empty()
    } else {
        let rest = usable_views(parts.drop_last());
        match parts.last() {
            Some(v) => if v@.len() > 0 {
                rest.push(v@)
            } else {
                rest
            },
            None => rest,
        }
    }
}

/// Total length of a sequence of byte strings.
pub open spec fn total_len(ps: Seq<Seq<u8>>) -> int
    decreases ps.len(),
{
    if ps.len() == 0 {
        0
    } else {
        total_len(ps.drop_last()) + ps.last().len()
    }
}

/// The merged artifact is as long as its pieces together.
pub proof fn lemma_concat_all_len(ps: Seq<Seq<u8>>)
    ensures
        concat_all(ps).len() == total_len(ps),
    decreases ps.len(),
{
    if ps.len() > 0 {
        lemma_concat_all_len(ps.drop_last());
    }
}

/// Result of a successful merge.
pub struct MergeOutcome {
    /// The assembled artifact.
    pub bytes: Vec<u8>,
    /// How many parts contributed bytes.
    pub merged_parts: u64,
    /// Total number of bytes written.
    pub total_bytes_merged: u64,
}

/// Appends all of `part` to `out`.
fn append_bytes(out: &mut Vec<u8>, part: &Vec<u8>)
    ensures
        final(out)@ == old(out)@ + part@,
{
    let mut j: usize = 0;
    while j < part.len()
        invariant
            0 <= j <= part@.len(),
            out@ == old(out)@ + part@.subrange(0, j as int),
        decreases part@.len() - j,
    {
        out.push(part[j]);
        proof {
            assert(part@.subrange(0, j + 1) =~= part@.subrange(0, j as int).push(part@[j as int]));
        }
        j = j + 1;
    }
    proof {
        assert(part@.subrange(0, part@.len() as int) =~= part@);
    }
}

/// Merges the part contents in segment order, skipping parts that are
/// missing or empty; fails only when no part contributes any bytes.
pub fn merge_parts(parts: &Vec<Option<Vec<u8>>>) -> (r: Result<MergeOutcome, ()>)
    ensures
        r is Ok <==> usable_views(parts@).len() > 0,
        r matches Ok(o) ==> {
            &&& o.bytes@ == concat_all(usable_views(parts@))
            &&& o.merged_parts == usable_views(parts@).len()
            &&& o.total_bytes_merged == o.bytes@.len()
        },
{
    let mut out: Vec<u8> = Vec::new();
    let mut count: usize = 0;
    let mut i: usize = 0;
    while i < parts.len()
        invariant
            0 <= i <= parts@.len(),
            out@ == concat_all(usable_views(parts@.take(i as int))),
            count == usable_views(parts@.take(i as int)).len(),
            count <= i,
        decreases parts@.len() - i,
    {
        let ghost prefix = parts@.take(i as int);
        let ghost prefix1 = parts@.take(i + 1);
        proof {
            assert(prefix1.drop_last() =~= prefix);
            assert(prefix1.last() == parts@[i as int]);
        }
        match &parts[i] {
            Some(v) => {
                if v.len() > 0 {
                    proof {
                        let u = usable_views(prefix);
                        assert(usable_views(prefix1) == u.push(v@));
                        assert(u.push(v@).drop_last() =~= u);
                        assert(u.push(v@).last() == v@);
                    }
                    append_bytes(&mut out, v);
                    count = count + 1;
                } else {
                    proof {
                        assert(usable_views(prefix1) == usable_views(prefix));
                    }
                }
            },
            None => {
                proof {
                    assert(usable_views(prefix1) == usable_views(prefix));
                }
            },
        }
        i = i + 1;
    }
    proof {
        assert(parts@.take(parts@.len() as int) =~= parts@);
    }
    if count == 0 {
        return Err(());
    }
    let merged = count as u64;
    let total = out.len() as u64;
    Ok(MergeOutcome { bytes: out, merged_parts: merged, total_bytes_merged: total })
}

/// When every part is present and holds exactly its planned number of
/// bytes, the merged artifact's length is the planned total: the full
/// resource length.
pub proof fn lemma_merge_full_length(parts: Seq<Option<Vec<u8>>>, total: int, n: int)
    requires
        n == parts.len(),
        1 <= n <= total,
        forall|i: int|
            0 <= i < n ==> (#[trigger] parts[i] matches Some(v) && v@.len() == segment_size(
                total,
                n,
                i,
            )),
    ensures
        concat_all(usable_views(parts)).len() == total,
{
    lemma_plan_contiguous(total, n);
    lemma_plan_sum(total, n);
    lemma_full_prefix_len(parts, total, n, n);
    assert(parts.take(n) =~= parts);
}

proof fn lemma_full_prefix_len(parts: Seq<Option<Vec<u8>>>, total: int, n: int, i: int)
    requires
        n == parts.len(),
        1 <= n <= total,
        0 <= i <= n,
        forall|j: int|
            0 <= j < n ==> (#[trigger] parts[j] matches Some(v) && v@.len() == segment_size(
                total,
                n,
                j,
            )),
        forall|j: int| 0 <= j < n ==> segment_size(total, n, j) >= 1,
    ensures
        concat_all(usable_views(parts.take(i))).len() == planned_sum(total, n, i),
    decreases i,
{
    if i > 0 {
        lemma_full_prefix_len(parts, total, n, i - 1);
        let prefix = parts.take(i - 1);
        let prefix1 = parts.take(i);
        assert(prefix1.drop_last() =~= prefix);
        assert(prefix1.last() == parts[i - 1]);
        match parts[i - 1] {
            Some(v) => {
                let u = usable_views(prefix);
                assert(v@.len() == segment_size(total, n, i - 1));
                assert(usable_views(prefix1) == u.push(v@));
                assert(u.push(v@).drop_last() =~= u);
                assert(u.push(v@).last() == v@);
                lemma_concat_all_len(u.push(v@));
                lemma_concat_all_len(u);
            },
            None => {
                assert(false);
            },
        }
    }
}

/// When every part holds exactly the bytes of its planned range of the
/// resource, merging reproduces the resource itself.
pub proof fn lemma_merge_reassembles(resource: Seq<u8>, parts: Seq<Option<Vec<u8>>>, n: int)
    requires
        n == parts.len(),
        1 <= n <= resource.len(),
        forall|i: int|
            0 <= i < n ==> (#[trigger] parts[i] matches Some(v) && v@ == resource.subrange(
                segment_start(resource.len() as int, n, i),
                segment_end(resource.len() as int, n, i) + 1,
            )),
    ensures
        concat_all(usable_views(parts)) == resource,
{
    let total = resource.len() as int;
    lemma_plan_contiguous(total, n);
    lemma_reassemble_prefix(resource, parts, n, n);
    assert(parts.take(n) =~= parts);
    assert(resource.subrange(0, total) =~= resource);
}

proof fn lemma_reassemble_prefix(resource: Seq<u8>, parts: Seq<Option<Vec<u8>>>, n: int, i: int)
    requires
        n == parts.len(),
        1 <= n <= resource.len(),
        0 <= i <= n,
        forall|j: int|
            0 <= j < n ==> (#[trigger] parts[j] matches Some(v) && v@ == resource.subrange(
                segment_start(resource.len() as int, n, j),
                segment_end(resource.len() as int, n, j) + 1,
            )),
        segment_start(resource.len() as int, n, 0) == 0,
        forall|j: int|
            0 <= j < n - 1 ==> segment_start(resource.len() as int, n, j + 1)
                == #[trigger] segment_end(resource.len() as int, n, j) + 1,
        forall|j: int|
            0 <= j < n ==> 0 <= #[trigger] segment_start(resource.len() as int, n, j)
                <= segment_end(resource.len() as int, n, j) < resource.len(),
        segment_end(resource.len() as int, n, n - 1) == resource.len() - 1,
    ensures
        concat_all(usable_views(parts.take(i))) == resource.subrange(
            0,
            if i < n {
                segment_start(resource.len() as int, n, i)
            } else {
                resource.len() as int
            },
        ),
    decreases i,
{
    let total = resource.len() as int;
    if i == 0 {
        assert(resource.subrange(0, 0) =~= Seq::<u8>::empty());
    } else {
        lemma_reassemble_prefix(resource, parts, n, i - 1);
        let prefix = parts.take(i - 1);
        let prefix1 = parts.take(i);
        assert(prefix1.drop_last() =~= prefix);
        assert(prefix1.last() == parts[i - 1]);
        let lo = segment_start(total, n, i - 1);
        let hi = segment_end(total, n, i - 1) + 1;
        assert(0 <= lo <= hi <= total);
        match parts[i - 1] {
            Some(v) => {
                let u = usable_views(prefix);
                assert(v@ == resource.subrange(lo, hi));
                assert(v@.len() > 0);
                assert(usable_views(prefix1) == u.push(v@));
                assert(u.push(v@).drop_last() =~= u);
                assert(u.push(v@).last() == v@);
            },
            None => {
                assert(false);
            },
        }
        assert(hi == if i < n {
            segment_start(total, n, i)
        } else {
            total
        });
        assert(resource.subrange(0, lo) + resource.subrange(lo, hi) =~= resource.subrange(0, hi));
    }
}

/// A part that already held the first `have` bytes of its range and then
/// received the rest holds exactly the bytes of its full range.
pub proof fn lemma_resume_segment(resource: Seq<u8>, start: int, end: int, have: int)
    requires
        0 <= start,
        0 <= have,
        start + have <= end + 1 <= resource.len(),
    ensures
        resource.subrange(start, start + have) + resource.subrange(start + have, end + 1)
            == resource.subrange(start, end + 1),
{
    assert(resource.subrange(start, start + have) + resource.subrange(start + have, end + 1)
        =~= resource.subrange(start, end + 1));
}

/// Pausing and resuming changes nothing about the final artifact: if each
/// part holds the prefix written before the interruption followed by the
/// bytes fetched for the rest of its range, the merge still reproduces the
/// resource, exactly as an uninterrupted run would.
pub proof fn lemma_pause_resume_identical(
    resource: Seq<u8>,
    parts: Seq<Option<Vec<u8>>>,
    haves: Seq<int>,
    n: int,
)
    requires
        n == parts.len(),
        haves.len() == n,
        1 <= n <= resource.len(),
        forall|i: int| 0 <= i < n ==> 0 <= #[trigger] haves[i],
        forall|i: int|
            0 <= i < n ==> segment_start(resource.len() as int, n, i) + #[trigger] haves[i]
                <= segment_end(resource.len() as int, n, i) + 1,
        forall|i: int|
            0 <= i < n ==> (#[trigger] parts[i] matches Some(v) && v@ == resource.subrange(
                segment_start(resource.len() as int, n, i),
                segment_start(resource.len() as int, n, i) + haves[i],
            ) + resource.subrange(
                segment_start(resource.len() as int, n, i) + haves[i],
                segment_end(resource.len() as int, n, i) + 1,
            )),
    ensures
        concat_all(usable_views(parts)) == resource,
{
    let total = resource.len() as int;
    lemma_plan_contiguous(total, n);
    assert forall|i: int| 0 <= i < n implies (#[trigger] parts[i] matches Some(v) && v@
        == resource.subrange(
        segment_start(total, n, i),
        segment_end(total, n, i) + 1,
    )) by {
        lemma_resume_segment(resource, segment_start(total, n, i), segment_end(total, n, i), haves[i]);
    }
    lemma_merge_reassembles(resource, parts, n);
}

} // verus!
