//! One segment worker's byte accounting: which range it asks the server
//! for, how its running counter grows chunk by chunk, and which progress
//! deltas it reports.  Events carry deltas, so the sum of everything a
//! worker reports equals its final reported counter.

use vstd::prelude::*;
use crate::text::{dec_str, u64_to_dec};

verus! {

/// A report is emitted once at least this many unreported bytes have
/// accumulated.
pub const REPORT_THRESHOLD: u64 = 16384;

/// Running counter after a chunk of `len` bytes: clipped at the segment
/// size.
pub open spec fn grown(downloaded: u64, len: u64, total: u64) -> u64 {
    if downloaded + len <= total {
        (downloaded + len) as u64
    } else {
        total
    }
}

/// Byte accounting of one segment download.
pub struct SegmentRun {
    /// Absolute offset of the segment's first byte.
    pub start: u64,
    /// Absolute offset of the segment's last byte.
    pub end: u64,
    /// Segment length: `end - start + 1`.
    pub total_bytes: u64,
    /// Bytes already on disk when the worker started.
    pub already_have: u64,
    /// Running counter, `already_have` plus received bytes, clipped at
    /// `total_bytes`.
    pub downloaded: u64,
    /// Cumulative bytes covered by emitted reports, the resume report
    /// included.
    pub last_reported: u64,
}

impl SegmentRun {
    /// Structural invariant of a running worker.
    pub open spec fn wf(&self) -> bool {
        &&& self.start <= self.end
        &&& self.end < u64::MAX
        &&& self.total_bytes == self.end - self.start + 1
        &&& self.start + self.already_have <= self.end
        &&& self.already_have <= self.downloaded <= self.total_bytes
        &&& self.already_have <= self.last_reported <= self.downloaded
    }

    /// A worker for the segment `[start, end]` of which `already_have`
    /// bytes are already on disk.  Callers dispatch a worker only when the
    /// segment is not already complete.
    pub fn new(start: u64, end: u64, already_have: u64) -> (r: SegmentRun)
        requires
            start <= end < u64::MAX,
            start + already_have <= end,
        ensures
            r.wf(),
            r.start == start,
            r.end == end,
            r.already_have == already_have,
            r.downloaded == already_have,
            r.last_reported == already_have,
            r.total_bytes == end - start + 1,
    {
        SegmentRun {
            start,
            end,
            total_bytes: end - start + 1,
            already_have,
            downloaded: already_have,
            last_reported: already_have,
        }
    }

    /// The range this worker asks the server for: everything it does not
    /// have yet.
    pub fn range_header(&self) -> (r: String)
        requires
            self.wf(),
        ensures
            r@ == "bytes="@ + dec_str((self.start + self.already_have) as nat) + "-"@ + dec_str(
                self.end as nat,
            ),
    {
        let mut h = "bytes=".to_owned();
        h.append(u64_to_dec(self.start + self.already_have).as_str());
        h.append("-");
        h.append(u64_to_dec(self.end).as_str());
        h
    }

    /// The report owed when the worker starts with resumed bytes: their
    /// count, already included in `last_reported`.
    pub fn resume_report(&self) -> (r: Option<u64>)
        requires
            self.wf(),
        ensures
            r == if self.already_have > 0 {
                Some(self.already_have)
            } else {
                None::<u64>
            },
    {
        if self.already_have > 0 {
            Some(self.already_have)
        } else {
            None
        }
    }

    /// Whether the counter has reached the segment size.
    pub fn is_done(&self) -> (r: bool)
        ensures
            r == (self.downloaded == self.total_bytes),
    {
        self.downloaded == self.total_bytes
    }

    /// Accounts one received chunk: the counter grows by the chunk length,
    /// clipped at the segment size, and a report is due once the
    /// unreported growth reaches the threshold or the segment is complete.
    /// The returned delta is exactly the growth of `last_reported`.
    pub fn on_chunk(&mut self, chunk_len: u64) -> (r: Option<u64>)
        requires
            old(self).wf(),
        ensures
            final(self).wf(),
            final(self).start == old(self).start,
            final(self).end == old(self).end,
            final(self).total_bytes == old(self).total_bytes,
            final(self).already_have == old(self).already_have,
            final(self).downloaded == grown(
                old(self).downloaded,
                chunk_len,
                old(self).total_bytes,
            ),
            r is Some <==> (final(self).downloaded - old(self).last_reported >= REPORT_THRESHOLD
                || final(self).downloaded == old(self).total_bytes),
            r matches Some(d) ==> d == final(self).downloaded - old(self).last_reported
                && final(self).last_reported == final(self).downloaded,
            r is None ==> final(self).last_reported == old(self).last_reported,
    {
        let room = self.total_bytes - self.downloaded;
        if chunk_len <= room {
            self.downloaded = self.downloaded + chunk_len;
        } else {
            self.downloaded = self.total_bytes;
        }
        let unreported = self.downloaded - self.last_reported;
        if unreported >= REPORT_THRESHOLD || self.downloaded == self.total_bytes {
            self.last_reported = self.downloaded;
            Some(unreported)
        } else {
            None
        }
    }

    /// The report owed at end of stream: whatever brings the reported
    /// total to the full segment size, for streams that ended short.
    /// Afterwards everything is reported: `last_reported == total_bytes`.
    pub fn finish(&mut self) -> (r: Option<u64>)
        requires
            old(self).wf(),
        ensures
            final(self).wf(),
            final(self).start == old(self).start,
            final(self).end == old(self).end,
            final(self).total_bytes == old(self).total_bytes,
            final(self).already_have == old(self).already_have,
            final(self).downloaded == old(self).total_bytes,
            final(self).last_reported == old(self).total_bytes,
            r == if old(self).last_reported < old(self).total_bytes {
                Some((old(self).total_bytes - old(self).last_reported) as u64)
            } else {
                None::<u64>
            },
    {
        if self.last_reported < self.total_bytes {
            let delta = self.total_bytes - self.last_reported;
            self.downloaded = self.total_bytes;
            self.last_reported = self.total_bytes;
            Some(delta)
        } else {
            None
        }
    }
}

/// Whether a segment with `already_have` bytes on disk is already complete,
/// so that no worker needs to be dispatched.
pub fn segment_already_complete(start: u64, end: u64, already_have: u64) -> (r: bool)
    requires
        start + already_have <= u64::MAX,
    ensures
        r == (start + already_have > end),
{
    start + already_have > end
}

} // verus!
