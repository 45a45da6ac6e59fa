//! High-water filtering of progress snapshots: every quantity field the
//! observer sees is the maximum of the incoming reading and the highest
//! value ever emitted, so the emitted stream never moves backwards even
//! when readings race one another.

use vstd::prelude::*;
use vstd::arithmetic::div_mod::lemma_div_is_ordered;
use crate::progress::{pct, DownloadProgress, SegmentProgress};

verus! {

/// Larger of two counters.
pub open spec fn hw_max(a: u64, b: u64) -> u64 {
    if a > b {
        a
    } else {
        b
    }
}

/// `x` clipped into the `u64` range.
pub open spec fn sat_u64(x: int) -> u64 {
    if x > u64::MAX {
        u64::MAX
    } else if x < 0 {
        0
    } else {
        x as u64
    }
}

/// The mark stored for segment position `j`; 0 when none is stored yet.
pub open spec fn mark_at(marks: Seq<u64>, j: int) -> u64 {
    if 0 <= j < marks.len() {
        marks[j]
    } else {
        0
    }
}

/// A snapshot row after the high-water filter with mark `m`: a reading
/// below the mark is replaced by the mark, and its percentage is then
/// recomputed from the mark.
pub open spec fn filtered_row(row: SegmentProgress, m: u64) -> SegmentProgress {
    if row.downloaded > m {
        row
    } else {
        SegmentProgress {
            downloaded: m,
            progress: if row.total_bytes > 0 {
                sat_u64(pct(m as int, row.total_bytes as int))
            } else {
                row.progress
            },
            ..row
        }
    }
}

/// All rows of a snapshot after filtering against `marks`.
pub open spec fn filter_rows(rows: Seq<SegmentProgress>, marks: Seq<u64>) -> Seq<SegmentProgress> {
    Seq::new(rows.len(), |j: int| filtered_row(rows[j], mark_at(marks, j)))
}

/// The marks after a snapshot has passed through the filter.
pub open spec fn marks_after(rows: Seq<SegmentProgress>, marks: Seq<u64>) -> Seq<u64> {
    Seq::new(
        if marks.len() > rows.len() {
            marks.len()
        } else {
            rows.len()
        },
        |j: int|
            if j < rows.len() {
                hw_max(rows[j].downloaded, mark_at(marks, j))
            } else {
                marks[j]
            },
    )
}

/// Highest values ever emitted for one download.
#[derive(Clone, Debug)]
pub struct HighWaterMarkTracker {
    /// Highest `downloaded` emitted per segment position.
    pub segment_progress: Vec<u64>,
    /// Highest aggregate `completed` emitted.
    pub total_downloaded: u64,
    /// Highest aggregate `progress` emitted.
    pub total_progress: u64,
}

impl HighWaterMarkTracker {
    /// Fresh tracker: nothing emitted yet.
    pub fn new() -> (r: HighWaterMarkTracker)
        ensures
            r.segment_progress@.len() == 0,
            r.total_downloaded == 0,
            r.total_progress == 0,
    {
        HighWaterMarkTracker { segment_progress: Vec::new(), total_downloaded: 0, total_progress: 0 }
    }

    /// Applies the high-water filter to `p` in place: every monotone field
    /// becomes the maximum of its incoming value and the stored mark, and
    /// the marks are raised to what is emitted.
    pub fn ensure_monotonic_progress(&mut self, p: &mut DownloadProgress)
        ensures
            final(p).download_id == old(p).download_id,
            final(p).file_size == old(p).file_size,
            final(p).speed == old(p).speed,
            final(p).estimated_time_left == old(p).estimated_time_left,
            final(p).progress == hw_max(old(p).progress, old(self).total_progress),
            final(self).total_progress == final(p).progress,
            final(p).completed == hw_max(old(p).completed, old(self).total_downloaded),
            final(self).total_downloaded == final(p).completed,
            final(p).segments@ == filter_rows(old(p).segments@, old(self).segment_progress@),
            final(self).segment_progress@ == marks_after(
                old(p).segments@,
                old(self).segment_progress@,
            ),
    {
        let ghost rows0 = p.segments@;
        let ghost marks0 = self.segment_progress@;
        if p.progress > self.total_progress {
            self.total_progress = p.progress;
        } else {
            p.progress = self.total_progress;
        }
        if p.completed > self.total_downloaded {
            self.total_downloaded = p.completed;
        } else {
            p.completed = self.total_downloaded;
        }
        let ghost scalars = (
            p.download_id,
            p.file_size,
            p.speed,
            p.estimated_time_left,
            p.progress,
            p.completed,
            self.total_progress,
            self.total_downloaded,
        );
        while self.segment_progress.len() < p.segments.len()
            invariant
                p.segments@ == rows0,
                scalars == (
                    p.download_id,
                    p.file_size,
                    p.speed,
                    p.estimated_time_left,
                    p.progress,
                    p.completed,
                    self.total_progress,
                    self.total_downloaded,
                ),
                marks0.len() <= self.segment_progress@.len(),
                self.segment_progress@.len() <= marks0.len() || self.segment_progress@.len()
                    <= rows0.len(),
                forall|j: int|
                    0 <= j < self.segment_progress@.len() ==> self.segment_progress@[j] == mark_at(
                        marks0,
                        j,
                    ),
            decreases rows0.len() - self.segment_progress@.len(),
        {
            self.segment_progress.push(0);
        }
        let mut j: usize = 0;
        while j < p.segments.len()
            invariant
                0 <= j <= rows0.len(),
                p.segments@.len() == rows0.len(),
                scalars == (
                    p.download_id,
                    p.file_size,
                    p.speed,
                    p.estimated_time_left,
                    p.progress,
                    p.completed,
                    self.total_progress,
                    self.total_downloaded,
                ),
                marks0.len() <= self.segment_progress@.len(),
                rows0.len() <= self.segment_progress@.len(),
                self.segment_progress@.len() <= marks0.len() || self.segment_progress@.len()
                    <= rows0.len(),
                forall|i: int| j <= i < rows0.len() ==> p.segments@[i] == rows0[i],
                forall|i: int|
                    0 <= i < j ==> p.segments@[i] == filtered_row(rows0[i], mark_at(marks0, i)),
                forall|i: int|
                    0 <= i < j ==> self.segment_progress@[i] == hw_max(
                        rows0[i].downloaded,
                        mark_at(marks0, i),
                    ),
                forall|i: int|
                    j <= i < self.segment_progress@.len() ==> self.segment_progress@[i] == mark_at(
                        marks0,
                        i,
                    ),
            decreases rows0.len() - j,
        {
            let row = p.segments[j];
            let mark = self.segment_progress[j];
            if row.downloaded > mark {
                self.segment_progress.set(j, row.downloaded);
            } else {
                let progress = if row.total_bytes > 0 {
                    let wide: u128 = 100u128 * (mark as u128);
                    let q: u128 = wide / (row.total_bytes as u128);
                    if q > u64::MAX as u128 {
                        u64::MAX
                    } else {
                        q as u64
                    }
                } else {
                    row.progress
                };
                let newrow = SegmentProgress {
                    downloaded: mark,
                    progress,
                    id: row.id,
                    total_bytes: row.total_bytes,
                    speed: row.speed,
                };
                p.segments.set(j, newrow);
            }
            j = j + 1;
        }
        proof {
            assert(p.segments@ =~= filter_rows(rows0, marks0));
            let ma = marks_after(rows0, marks0);
            assert(self.segment_progress@.len() == ma.len());
            assert forall|i: int| 0 <= i < ma.len() implies self.segment_progress@[i] == ma[i] by {
                if i < rows0.len() {
                    assert(self.segment_progress@[i] == hw_max(
                        rows0[i].downloaded,
                        mark_at(marks0, i),
                    ));
                } else {
                    assert(self.segment_progress@[i] == mark_at(marks0, i));
                }
            }
            assert(self.segment_progress@ =~= ma);
        }
    }
}

/// A snapshot row whose fields agree with one another: the counter is
/// within the segment size and the percentage is derived from the counter.
pub open spec fn row_consistent(row: SegmentProgress) -> bool {
    &&& row.downloaded <= row.total_bytes
    &&& row.progress == sat_u64(pct(row.downloaded as int, row.total_bytes as int))
}

/// A row built from the working state is consistent: its percentage is
/// derived from its counter, which is within the segment size.
pub proof fn lemma_state_row_consistent(row: SegmentProgress)
    requires
        row.downloaded <= row.total_bytes,
        row.progress == pct(row.downloaded as int, row.total_bytes as int) as u64,
    ensures
        row_consistent(row),
{
    crate::progress::lemma_pct_bounds(row.downloaded as int, row.total_bytes as int);
}

/// A snapshot none of whose readings lag the stored marks passes the
/// filter unchanged; in particular the aggregate-equals-sum relation of a
/// freshly built snapshot survives to the observer.
pub proof fn lemma_filter_passes_fresh(rows: Seq<SegmentProgress>, marks: Seq<u64>)
    requires
        forall|j: int| 0 <= j < rows.len() ==> row_consistent(#[trigger] rows[j]),
        forall|j: int| 0 <= j < rows.len() ==> (#[trigger] rows[j]).downloaded >= mark_at(marks, j),
    ensures
        filter_rows(rows, marks) == rows,
{
    assert forall|j: int| 0 <= j < rows.len() implies filter_rows(rows, marks)[j] == rows[j] by {
        let row = rows[j];
        let m = mark_at(marks, j);
        if !(row.downloaded > m) {
            assert(row.downloaded == m);
        }
    }
    assert(filter_rows(rows, marks) =~= rows);
}

/// An emitted row's percentage is always derived from its emitted counter.
proof fn lemma_filtered_row_consistent(row: SegmentProgress, m: u64)
    requires
        row_consistent(row),
    ensures
        filtered_row(row, m).downloaded == hw_max(row.downloaded, m),
        filtered_row(row, m).progress == sat_u64(
            pct(filtered_row(row, m).downloaded as int, row.total_bytes as int),
        ),
        filtered_row(row, m).total_bytes == row.total_bytes,
{
}

/// Percentages grow with their counters.
proof fn lemma_pct_monotone(d1: int, d2: int, t: int)
    requires
        0 <= d1 <= d2,
    ensures
        sat_u64(pct(d1, t)) <= sat_u64(pct(d2, t)),
{
    if t > 0 {
        lemma_div_is_ordered(100 * d1, 100 * d2, t);
    }
}

/// For every snapshot emitted for a download, each monotone field is at
/// least its value in the previously emitted snapshot: the aggregate
/// counter and percentage, and every segment's counter and percentage.
///
/// `marks0` are the stored marks before the first snapshot; the first
/// snapshot `rows1` is filtered against them, and the second `rows2`
/// against the marks the first left behind.
pub proof fn lemma_emitted_stream_monotone(
    rows1: Seq<SegmentProgress>,
    rows2: Seq<SegmentProgress>,
    marks0: Seq<u64>,
    progress1: u64,
    progress2: u64,
    progress_mark0: u64,
    completed1: u64,
    completed2: u64,
    completed_mark0: u64,
)
    requires
        rows1.len() == rows2.len(),
        forall|j: int| 0 <= j < rows1.len() ==> row_consistent(#[trigger] rows1[j]),
        forall|j: int| 0 <= j < rows2.len() ==> row_consistent(#[trigger] rows2[j]),
        forall|j: int|
            0 <= j < rows1.len() ==> (#[trigger] rows2[j]).total_bytes == rows1[j].total_bytes,
    ensures
        hw_max(progress2, hw_max(progress1, progress_mark0)) >= hw_max(progress1, progress_mark0),
        hw_max(completed2, hw_max(completed1, completed_mark0)) >= hw_max(
            completed1,
            completed_mark0,
        ),
        forall|j: int|
            0 <= j < rows1.len() ==> {
                let e1 = #[trigger] filter_rows(rows1, marks0)[j];
                let e2 = filter_rows(rows2, marks_after(rows1, marks0))[j];
                e2.downloaded >= e1.downloaded && e2.progress >= e1.progress
            },
{
    let marks1 = marks_after(rows1, marks0);
    assert forall|j: int| 0 <= j < rows1.len() implies {
        let e1 = #[trigger] filter_rows(rows1, marks0)[j];
        let e2 = filter_rows(rows2, marks1)[j];
        e2.downloaded >= e1.downloaded && e2.progress >= e1.progress
    } by {
        let e1 = filter_rows(rows1, marks0)[j];
        let e2 = filter_rows(rows2, marks1)[j];
        lemma_filtered_row_consistent(rows1[j], mark_at(marks0, j));
        lemma_filtered_row_consistent(rows2[j], mark_at(marks1, j));
        assert(mark_at(marks1, j) == hw_max(rows1[j].downloaded, mark_at(marks0, j)));
        assert(e2.downloaded >= e1.downloaded);
        lemma_pct_monotone(e1.downloaded as int, e2.downloaded as int, rows1[j].total_bytes as int);
    }
}

} // verus!
