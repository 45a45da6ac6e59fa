//! Working progress state of one download: per-segment byte counters, the
//! aggregate counter, and the snapshots built from them.
//!
//! Invariants kept here: each segment's counter never exceeds its size, and
//! the aggregate counter always equals the sum of the segment counters.

use vstd::prelude::*;
use vstd::arithmetic::div_mod::{lemma_div_is_ordered, lemma_div_multiples_vanish,
    lemma_div_pos_is_pos};

verus! {

/// Live counters of one segment.
#[derive(Clone, Copy, PartialEq, Eq, Structural, Debug)]
pub struct SegmentState {
    /// Planned size of the segment in bytes.
    pub total_bytes: u64,
    /// Bytes accounted so far; never exceeds `total_bytes`.
    pub downloaded: u64,
    /// Highest speed reported so far, in bytes per second.
    pub speed: u64,
}

/// One segment's entry in a progress snapshot.
#[derive(Clone, Copy, PartialEq, Eq, Structural, Debug)]
pub struct SegmentProgress {
    /// 1-based segment identifier.
    pub id: u64,
    pub total_bytes: u64,
    pub downloaded: u64,
    /// Percentage, `100 * downloaded / total_bytes`.
    pub progress: u64,
    pub speed: u64,
}

/// A progress snapshot as handed to the observer.
#[derive(Clone, Debug)]
pub struct DownloadProgress {
    pub download_id: u64,
    /// Aggregate percentage, 0 to 100.
    pub progress: u64,
    pub file_size: u64,
    /// Aggregate downloaded bytes.
    pub completed: u64,
    /// Average speed in bytes per second.
    pub speed: u64,
    /// Estimated seconds until completion.
    pub estimated_time_left: u64,
    /// Per-segment rows, ascending by `id`.
    pub segments: Vec<SegmentProgress>,
}

/// Integer percentage of `d` out of `t`; 0 when `t` is 0.
pub open spec fn pct(d: int, t: int) -> int {
    if t <= 0 {
        0
    } else {
        100 * d / t
    }
}

/// A percentage of a part out of its whole lies between 0 and 100.
pub proof fn lemma_pct_bounds(d: int, t: int)
    requires
        0 <= d <= t,
    ensures
        0 <= pct(d, t) <= 100,
{
    if t > 0 {
        lemma_div_pos_is_pos(100 * d, t);
        lemma_div_is_ordered(100 * d, 100 * t, t);
        lemma_div_multiples_vanish(100, t);
    }
}

/// Computes `100 * d / t` exactly, using wide intermediate arithmetic.
pub fn pct_u64(d: u64, t: u64) -> (r: u64)
    requires
        d <= t,
    ensures
        r == pct(d as int, t as int),
        r <= 100,
{
    if t == 0 {
        0
    } else {
        proof {
            lemma_pct_bounds(d as int, t as int);
        }
        let wide: u128 = 100u128 * (d as u128);
        let q: u128 = wide / (t as u128);
        q as u64
    }
}

/// Sum of the per-segment `downloaded` counters.
pub open spec fn sum_downloaded(s: Seq<SegmentState>) -> int
    decreases s.len(),
{
    if s.len() == 0 {
        0
    } else {
        sum_downloaded(s.drop_last()) + s.last().downloaded
    }
}

/// Sum of the per-segment sizes.
pub open spec fn sum_total_bytes(s: Seq<SegmentState>) -> int
    decreases s.len(),
{
    if s.len() == 0 {
        0
    } else {
        sum_total_bytes(s.drop_last()) + s.last().total_bytes
    }
}

/// Sum of a sequence of sizes.
pub open spec fn sum_u64s(s: Seq<u64>) -> int
    decreases s.len(),
{
    if s.len() == 0 {
        0
    } else {
        sum_u64s(s.drop_last()) + s.last()
    }
}

/// Sum of the `downloaded` fields of snapshot rows.
pub open spec fn sum_snapshot_downloaded(s: Seq<SegmentProgress>) -> int
    decreases s.len(),
{
    if s.len() == 0 {
        0
    } else {
        sum_snapshot_downloaded(s.drop_last()) + s.last().downloaded
    }
}

/// When no counter exceeds its size, the sums are ordered the same way.
pub proof fn lemma_sum_downloaded_le_total(s: Seq<SegmentState>)
    requires
        forall|i: int| 0 <= i < s.len() ==> (#[trigger] s[i]).downloaded <= s[i].total_bytes,
    ensures
        0 <= sum_downloaded(s) <= sum_total_bytes(s),
    decreases s.len(),
{
    if s.len() > 0 {
        assert(s.last() == s[s.len() - 1]);
        assert(forall|i: int| 0 <= i < s.len() - 1 ==> s.drop_last()[i] == s[i]);
        lemma_sum_downloaded_le_total(s.drop_last());
    }
}

/// Replacing one entry changes the sum by the difference of that entry.
pub proof fn lemma_sum_downloaded_update(s: Seq<SegmentState>, i: int, x: SegmentState)
    requires
        0 <= i < s.len(),
    ensures
        sum_downloaded(s.update(i, x)) == sum_downloaded(s) - s[i].downloaded + x.downloaded,
    decreases s.len(),
{
    if i == s.len() - 1 {
        assert(s.update(i, x).drop_last() =~= s.drop_last());
        assert(s.update(i, x).last() == x);
    } else {
        assert(s.update(i, x).drop_last() =~= s.drop_last().update(i, x));
        assert(s.update(i, x).last() == s.last());
        lemma_sum_downloaded_update(s.drop_last(), i, x);
    }
}

/// Replacing one entry changes the size sum by the difference of that entry.
pub proof fn lemma_sum_total_update(s: Seq<SegmentState>, i: int, x: SegmentState)
    requires
        0 <= i < s.len(),
    ensures
        sum_total_bytes(s.update(i, x)) == sum_total_bytes(s) - s[i].total_bytes + x.total_bytes,
    decreases s.len(),
{
    if i == s.len() - 1 {
        assert(s.update(i, x).drop_last() =~= s.drop_last());
        assert(s.update(i, x).last() == x);
    } else {
        assert(s.update(i, x).drop_last() =~= s.drop_last().update(i, x));
        assert(s.update(i, x).last() == s.last());
        lemma_sum_total_update(s.drop_last(), i, x);
    }
}

/// Bytes actually applied to a segment when `bytes` more are reported:
/// clipped so that the counter never exceeds the segment size.
pub open spec fn applied_delta(seg: SegmentState, bytes: u64) -> int {
    if bytes <= seg.total_bytes - seg.downloaded {
        bytes as int
    } else {
        seg.total_bytes - seg.downloaded
    }
}

/// Working state of one download.
#[derive(Clone, Debug)]
pub struct DownloadState {
    /// Full resource length; equals the sum of the segment sizes.
    pub file_size: u64,
    /// Per-segment counters, indexed by segment index (id - 1).
    pub segments: Vec<SegmentState>,
    /// Aggregate downloaded bytes; equals the sum over `segments`.
    pub total_downloaded: u64,
    /// Whether completion has been signalled.
    pub is_complete: bool,
}

impl DownloadState {
    /// Structural invariant: counters within bounds, aggregate equal to the
    /// sum, file size equal to the planned total.
    pub open spec fn wf(&self) -> bool {
        &&& forall|i: int|
            0 <= i < self.segments@.len() ==> (#[trigger] self.segments@[i]).downloaded
                <= self.segments@[i].total_bytes
        &&& self.total_downloaded == sum_downloaded(self.segments@)
        &&& self.file_size == sum_total_bytes(self.segments@)
    }

    /// Fresh state with nothing known yet.
    pub fn new() -> (r: DownloadState)
        ensures
            r.wf(),
            r.file_size == 0,
            r.segments@.len() == 0,
            r.total_downloaded == 0,
            !r.is_complete,
    {
        DownloadState { file_size: 0, segments: Vec::new(), total_downloaded: 0, is_complete: false }
    }

    /// Installs the plan: the resource length and one zeroed counter per
    /// segment, in segment order.
    pub fn initialize(&mut self, file_size: u64, segment_sizes: &Vec<u64>)
        requires
            sum_u64s(segment_sizes@) == file_size,
        ensures
            final(self).wf(),
            final(self).file_size == file_size,
            final(self).total_downloaded == 0,
            final(self).is_complete == old(self).is_complete,
            final(self).segments@.len() == segment_sizes@.len(),
            forall|i: int|
                0 <= i < segment_sizes@.len() ==> #[trigger] final(self).segments@[i]
                    == (SegmentState { total_bytes: segment_sizes@[i], downloaded: 0, speed: 0 }),
    {
        let mut segs: Vec<SegmentState> = Vec::new();
        let mut i: usize = 0;
        while i < segment_sizes.len()
            invariant
                0 <= i <= segment_sizes@.len(),
                segs@.len() == i,
                forall|j: int|
                    0 <= j < i ==> #[trigger] segs@[j] == (SegmentState {
                        total_bytes: segment_sizes@[j],
                        downloaded: 0,
                        speed: 0,
                    }),
                sum_downloaded(segs@) == 0,
                sum_total_bytes(segs@) == sum_u64s(segment_sizes@.take(i as int)),
            decreases segment_sizes@.len() - i,
        {
            let entry = SegmentState { total_bytes: segment_sizes[i], downloaded: 0, speed: 0 };
            proof {
                assert(segs@.push(entry).drop_last() =~= segs@);
                assert(segment_sizes@.take(i + 1).drop_last() =~= segment_sizes@.take(i as int));
            }
            segs.push(entry);
            i = i + 1;
        }
        proof {
            assert(segment_sizes@.take(segment_sizes@.len() as int) =~= segment_sizes@);
        }
        self.file_size = file_size;
        self.segments = segs;
        self.total_downloaded = 0;
    }

    /// Accounts newly reported bytes for segment `segment_id` (1-based):
    /// the segment counter grows by the reported delta, clipped at the
    /// segment size; the aggregate grows by the same amount; the speed is
    /// replaced only when the report is faster.  Reports for unknown
    /// segment ids change nothing.
    pub fn add_bytes(&mut self, segment_id: u64, bytes: u64, speed: u64)
        requires
            old(self).wf(),
        ensures
            final(self).wf(),
            final(self).file_size == old(self).file_size,
            final(self).is_complete == old(self).is_complete,
            !(1 <= segment_id <= old(self).segments@.len()) ==> *final(self) == *old(self),
            1 <= segment_id <= old(self).segments@.len() ==> {
                let i = segment_id - 1;
                let seg = old(self).segments@[i as int];
                let applied = applied_delta(seg, bytes);
                &&& final(self).segments@ == old(self).segments@.update(
                    i as int,
                    SegmentState {
                        total_bytes: seg.total_bytes,
                        downloaded: (seg.downloaded + applied) as u64,
                        speed: if speed > seg.speed {
                            speed
                        } else {
                            seg.speed
                        },
                    },
                )
                &&& final(self).total_downloaded == old(self).total_downloaded + applied
            },
    {
        if segment_id >= 1 && segment_id <= self.segments.len() as u64 {
            let i = (segment_id - 1) as usize;
            let seg = self.segments[i];
            proof {
                assert(self.segments@[i as int].downloaded <= self.segments@[i as int].total_bytes);
            }
            let room = seg.total_bytes - seg.downloaded;
            let applied = if bytes <= room {
                bytes
            } else {
                room
            };
            let updated = SegmentState {
                total_bytes: seg.total_bytes,
                downloaded: seg.downloaded + applied,
                speed: if speed > seg.speed {
                    speed
                } else {
                    seg.speed
                },
            };
            proof {
                lemma_sum_downloaded_update(self.segments@, i as int, updated);
                lemma_sum_total_update(self.segments@, i as int, updated);
                lemma_sum_downloaded_le_total(self.segments@.update(i as int, updated));
            }
            self.segments.set(i, updated);
            self.total_downloaded = self.total_downloaded + applied;
        }
    }

    /// Records that the download has finished.
    pub fn mark_complete(&mut self)
        ensures
            *final(self) == (DownloadState { is_complete: true, ..*old(self) }),
    {
        self.is_complete = true;
    }

    /// Percentage of segment `segment_id` (1-based); 0 for unknown ids.
    pub fn get_segment_progress(&self, segment_id: u64) -> (r: u64)
        requires
            self.wf(),
        ensures
            1 <= segment_id <= self.segments@.len() ==> r == pct(
                self.segments@[segment_id - 1].downloaded as int,
                self.segments@[segment_id - 1].total_bytes as int,
            ),
            !(1 <= segment_id <= self.segments@.len()) ==> r == 0,
            r <= 100,
    {
        if segment_id >= 1 && segment_id <= self.segments.len() as u64 {
            let i = (segment_id - 1) as usize;
            let seg = self.segments[i];
            proof {
                assert(self.segments@[i as int].downloaded <= self.segments@[i as int].total_bytes);
            }
            pct_u64(seg.downloaded, seg.total_bytes)
        } else {
            0
        }
    }

    /// Aggregate percentage; 0 while the resource length is unknown.
    pub fn get_total_progress(&self) -> (r: u64)
        requires
            self.wf(),
        ensures
            r == pct(self.total_downloaded as int, self.file_size as int),
            r <= 100,
    {
        proof {
            lemma_sum_downloaded_le_total(self.segments@);
        }
        pct_u64(self.total_downloaded, self.file_size)
    }

    /// Average speed in bytes per second over `elapsed_ms` milliseconds,
    /// saturating at the largest representable value.
    pub fn get_average_speed(&self, elapsed_ms: u64) -> (r: u64)
        ensures
            r == avg_speed(self.total_downloaded as int, elapsed_ms as int),
    {
        if elapsed_ms == 0 {
            0
        } else {
            let wide: u128 = (self.total_downloaded as u128) * 1000u128;
            let q: u128 = wide / (elapsed_ms as u128);
            if q > u64::MAX as u128 {
                u64::MAX
            } else {
                q as u64
            }
        }
    }

    /// Estimated seconds left at the current average speed; 0 when the
    /// speed is unknown.
    pub fn get_estimated_time_left(&self, elapsed_ms: u64) -> (r: u64)
        requires
            self.wf(),
        ensures
            r == eta_of(
                self.total_downloaded as int,
                self.file_size as int,
                avg_speed(self.total_downloaded as int, elapsed_ms as int),
            ),
    {
        let speed = self.get_average_speed(elapsed_ms);
        if speed == 0 {
            0
        } else {
            proof {
                lemma_sum_downloaded_le_total(self.segments@);
            }
            (self.file_size - self.total_downloaded) / speed
        }
    }

    /// Builds the snapshot handed to the observer: aggregate fields plus
    /// one row per segment, ascending by id.  The aggregate `completed`
    /// equals the sum of the per-segment `downloaded` fields, and every
    /// percentage is derived from the row it stands in.
    pub fn snapshot(&self, download_id: u64, elapsed_ms: u64) -> (r: DownloadProgress)
        requires
            self.wf(),
        ensures
            r.download_id == download_id,
            r.file_size == self.file_size,
            r.completed == self.total_downloaded,
            r.progress == if self.is_complete {
                100int
            } else {
                pct(self.total_downloaded as int, self.file_size as int)
            },
            r.speed == avg_speed(self.total_downloaded as int, elapsed_ms as int),
            r.estimated_time_left == eta_of(
                self.total_downloaded as int,
                self.file_size as int,
                r.speed as int,
            ),
            r.segments@.len() == self.segments@.len(),
            forall|i: int|
                0 <= i < self.segments@.len() ==> #[trigger] r.segments@[i] == (SegmentProgress {
                    id: (i + 1) as u64,
                    total_bytes: self.segments@[i].total_bytes,
                    downloaded: self.segments@[i].downloaded,
                    progress: pct(
                        self.segments@[i].downloaded as int,
                        self.segments@[i].total_bytes as int,
                    ) as u64,
                    speed: self.segments@[i].speed,
                }),
            sum_snapshot_downloaded(r.segments@) == r.completed,
    {
        let mut rows: Vec<SegmentProgress> = Vec::new();
        let mut i: usize = 0;
        while i < self.segments.len()
            invariant
                self.wf(),
                0 <= i <= self.segments@.len(),
                rows@.len() == i,
                forall|j: int|
                    0 <= j < i ==> #[trigger] rows@[j] == (SegmentProgress {
                        id: (j + 1) as u64,
                        total_bytes: self.segments@[j].total_bytes,
                        downloaded: self.segments@[j].downloaded,
                        progress: pct(
                            self.segments@[j].downloaded as int,
                            self.segments@[j].total_bytes as int,
                        ) as u64,
                        speed: self.segments@[j].speed,
                    }),
                sum_snapshot_downloaded(rows@) == sum_downloaded(self.segments@.take(i as int)),
            decreases self.segments@.len() - i,
        {
            let seg = self.segments[i];
            proof {
                assert(self.segments@[i as int].downloaded <= self.segments@[i as int].total_bytes);
            }
            let row = SegmentProgress {
                id: (i as u64) + 1,
                total_bytes: seg.total_bytes,
                downloaded: seg.downloaded,
                progress: pct_u64(seg.downloaded, seg.total_bytes),
                speed: seg.speed,
            };
            proof {
                assert(rows@.push(row).drop_last() =~= rows@);
                assert(self.segments@.take(i + 1).drop_last() =~= self.segments@.take(i as int));
                assert(self.segments@.take(i + 1).last() == self.segments@[i as int]);
            }
            rows.push(row);
            i = i + 1;
        }
        proof {
            assert(self.segments@.take(self.segments@.len() as int) =~= self.segments@);
        }
        let progress = if self.is_complete {
            100
        } else {
            self.get_total_progress()
        };
        let speed = self.get_average_speed(elapsed_ms);
        let eta = self.get_estimated_time_left(elapsed_ms);
        DownloadProgress {
            download_id,
            progress,
            file_size: self.file_size,
            completed: self.total_downloaded,
            speed,
            estimated_time_left: eta,
            segments: rows,
        }
    }
}

/// Average speed in bytes per second: downloaded bytes over elapsed
/// milliseconds, saturating at the largest representable value.
pub open spec fn avg_speed(td: int, elapsed_ms: int) -> int {
    if elapsed_ms <= 0 {
        0
    } else if td * 1000 / elapsed_ms > u64::MAX {
        u64::MAX as int
    } else {
        td * 1000 / elapsed_ms
    }
}

/// Estimated seconds left: remaining bytes over the average speed.
pub open spec fn eta_of(td: int, fs: int, speed: int) -> int {
    if speed <= 0 {
        0
    } else {
        (fs - td) / speed
    }
}

} // verus!
