//! The download engine's decisions: URL validation, the probe verdict,
//! the event vocabulary, the client-side per-segment counters, and the
//! naming of part files and of the merged artifact.

use vstd::prelude::*;
use crate::errors::DownloadError;
use crate::naming;
use crate::plan::{clamped_parts, plan_segments, segment_end, segment_size, segment_start};
use crate::progress::sum_u64s;
use crate::text::{dec_str, is_u64_numeral, u64_numeral_value, u64_to_dec, parse_u64_strict};

verus! {

/// Events a download run emits to its consumers.
#[derive(Clone, Debug)]
pub enum DownloadEvent {
    /// The plan: full resource length and the size of each segment, by
    /// segment index (segment id is index + 1).
    Initialize { file_size: u64, segments: Vec<u64> },
    /// A progress delta from one segment, with the worker's current speed
    /// in bytes per second.
    BytesReceived { segment_id: u64, bytes: u64, speed: u64 },
    /// A worker failed; the engine decides the download's fate.
    Error { segment_id: u64, message: String },
    /// All workers finished and the parts were merged.
    Complete,
}

/// Whether `url` is absolute `http://` or `https://`.
pub open spec fn is_http_url(url: Seq<char>) -> bool {
    ||| (url.len() >= 7 && url.subrange(0, 7) == "http://"@)
    ||| (url.len() >= 8 && url.subrange(0, 8) == "https://"@)
}

/// Whether `s` starts with `p`.
fn has_prefix(s: &str, p: &str) -> (r: bool)
    ensures
        r == (s@.len() >= p@.len() && s@.subrange(0, p@.len() as int) == p@),
{
    let plen = p.unicode_len();
    let slen = s.unicode_len();
    if slen < plen {
        return false;
    }
    let mut i: usize = 0;
    while i < plen
        invariant
            0 <= i <= plen,
            plen == p@.len(),
            slen == s@.len(),
            plen <= slen,
            forall|j: int| 0 <= j < i ==> s@[j] == p@[j],
        decreases plen - i,
    {
        if s.get_char(i) != p.get_char(i) {
            proof {
                assert(s@.subrange(0, plen as int)[i as int] == s@[i as int]);
            }
            return false;
        }
        i = i + 1;
    }
    proof {
        assert(s@.subrange(0, plen as int) =~= p@);
    }
    true
}

/// Accepts exactly absolute `http://` and `https://` URLs.
pub fn validate_url(url: &str) -> (r: bool)
    ensures
        r == is_http_url(url@),
{
    proof {
        reveal_strlit("http://");
        reveal_strlit("https://");
    }
    has_prefix(url, "http://") || has_prefix(url, "https://")
}

/// Verdict on the probe response: the resource length when the download
/// can proceed, and which error stops it otherwise.  The status must be a
/// success, the `Content-Length` header must be present, numeric and
/// positive.
pub fn probe_outcome(status: u16, content_length: Option<&String>) -> (r: Result<
    u64,
    DownloadError,
>)
    ensures
        !(200 <= status < 300) ==> r == Err::<u64, DownloadError>(DownloadError::HttpStatus(status)),
        200 <= status < 300 && content_length is None ==> r == Err::<u64, DownloadError>(
            DownloadError::MissingContentLength,
        ),
        200 <= status < 300 ==> (content_length matches Some(h) ==> {
            &&& !is_u64_numeral(h@) ==> r == Err::<u64, DownloadError>(
                DownloadError::InvalidContentLength,
            )
            &&& is_u64_numeral(h@) && u64_numeral_value(h@) == 0 ==> r == Err::<u64, DownloadError>(
                DownloadError::EmptyContent,
            )
            &&& is_u64_numeral(h@) && u64_numeral_value(h@) > 0 ==> (r matches Ok(n) && n
                == u64_numeral_value(h@))
        }),
{
    if !(200 <= status && status < 300) {
        return Err(DownloadError::HttpStatus(status));
    }
    let header = match content_length {
        Some(h) => h,
        None => {
            return Err(DownloadError::MissingContentLength);
        },
    };
    let n = match parse_u64_strict(header.as_str()) {
        Some(n) => n,
        None => {
            return Err(DownloadError::InvalidContentLength);
        },
    };
    if n == 0 {
        return Err(DownloadError::EmptyContent);
    }
    Ok(n)
}

/// Sizes of the planned segments, by segment index.  They sum to the full
/// resource length, which is what lets the progress state treat the plan
/// as covering the file.
pub fn plan_sizes(content_length: u64, parts: u64) -> (r: Vec<u64>)
    requires
        1 <= parts <= content_length,
    ensures
        r@.len() == parts,
        forall|i: int|
            0 <= i < parts ==> r@[i] == segment_size(content_length as int, parts as int, i),
        sum_u64s(r@) == content_length,
{
    proof {
        crate::plan::lemma_plan_contiguous(content_length as int, parts as int);
        crate::plan::lemma_plan_sum(content_length as int, parts as int);
    }
    let segs = plan_segments(content_length, parts);
    let mut sizes: Vec<u64> = Vec::new();
    let mut i: usize = 0;
    while i < segs.len()
        invariant
            0 <= i <= segs@.len(),
            segs@.len() == parts,
            1 <= parts <= content_length,
            forall|j: int|
                0 <= j < parts ==> (#[trigger] segs@[j]).start == segment_start(
                    content_length as int,
                    parts as int,
                    j,
                ) && segs@[j].end == segment_end(content_length as int, parts as int, j),
            forall|j: int|
                0 <= j < parts ==> 0 <= segment_start(content_length as int, parts as int, j)
                    <= #[trigger] segment_end(content_length as int, parts as int, j)
                    < content_length,
            sizes@.len() == i,
            forall|j: int|
                0 <= j < i ==> sizes@[j] == segment_size(content_length as int, parts as int, j),
            sum_u64s(sizes@) == crate::plan::planned_sum(content_length as int, parts as int, i as int),
        decreases segs@.len() - i,
    {
        let seg = segs[i];
        proof {
            assert(sizes@.push((seg.end - seg.start + 1) as u64).drop_last() =~= sizes@);
        }
        sizes.push(seg.end - seg.start + 1);
        i = i + 1;
    }
    sizes
}

/// Name of the part file holding segment `index` of `filename`.
pub fn part_file_name(filename: &str, index: u64) -> (r: String)
    ensures
        r@ == filename@ + "."@ + dec_str(index as nat),
{
    let mut s = filename.to_owned();
    s.append(".");
    s.append(u64_to_dec(index).as_str());
    s
}

/// `dir/name`.
pub fn join_path(dir: &str, name: &str) -> (r: String)
    ensures
        r@ == dir@ + "/"@ + name@,
{
    let mut s = dir.to_owned();
    s.append("/");
    s.append(name);
    s
}

/// Where the merged artifact goes: the user's downloads directory when the
/// platform defines one, the working directory otherwise.
pub fn resolve_save_path(filename: &str) -> (r: String)
    ensures
        exists|d: Seq<char>| r@ == d + "/"@ + filename@,
{
    let dir = match crate::host::download_dir() {
        Some(d) => d,
        None => ".".to_owned(),
    };
    let r = join_path(dir.as_str(), filename);
    proof {
        assert(r@ == dir@ + "/"@ + filename@);
    }
    r
}

/// Client-side per-segment counters, indexed by segment index; segment ids
/// are 1-based.
#[derive(Clone, Debug)]
pub struct ClientProgress {
    pub file_size: u64,
    /// Planned size per segment.
    pub total_bytes: Vec<u64>,
    /// Per segment: highest byte count seen, with the segment id it was
    /// reported under.
    pub chunks: Vec<(u64, u64)>,
    /// Last speed per segment, bytes per second.
    pub bytes_per_second: Vec<u64>,
    /// Stable 1-based id per segment index.
    pub segment_ids: Vec<u64>,
}

impl ClientProgress {
    /// All per-segment tables cover the same segments.
    pub open spec fn wf(&self) -> bool {
        &&& self.total_bytes@.len() == self.chunks@.len()
        &&& self.total_bytes@.len() == self.bytes_per_second@.len()
        &&& self.total_bytes@.len() == self.segment_ids@.len()
    }

    /// Number of segments tracked.
    pub open spec fn len(&self) -> nat {
        self.total_bytes@.len()
    }

    pub fn set_file_size(&mut self, file_size: u64)
        ensures
            *final(self) == (ClientProgress { file_size, ..*old(self) }),
    {
        self.file_size = file_size;
    }

    pub fn get_file_size(&self) -> (r: u64)
        ensures
            r == self.file_size,
    {
        self.file_size
    }

    pub fn set_total_bytes(&mut self, total_bytes: u64, index: usize)
        requires
            index < old(self).len(),
        ensures
            final(self).wf() == old(self).wf(),
            *final(self) == (ClientProgress {
                total_bytes: final(self).total_bytes,
                ..*old(self)
            }),
            final(self).total_bytes@ == old(self).total_bytes@.update(index as int, total_bytes),
    {
        self.total_bytes.set(index, total_bytes);
    }

    pub fn get_total_bytes(&self, index: usize) -> (r: u64)
        ensures
            r == if index < self.total_bytes@.len() {
                self.total_bytes@[index as int]
            } else {
                0
            },
    {
        if index < self.total_bytes.len() {
            self.total_bytes[index]
        } else {
            0
        }
    }

    /// The stable segment id under which `index` reports; the index itself
    /// for unknown indexes.
    pub fn get_segment_id(&self, index: usize) -> (r: u64)
        ensures
            r == if index < self.segment_ids@.len() {
                self.segment_ids@[index as int]
            } else {
                index as u64
            },
    {
        if index < self.segment_ids.len() {
            self.segment_ids[index]
        } else {
            index as u64
        }
    }

    pub fn set_segment_id(&mut self, segment_id: u64, index: usize)
        requires
            old(self).wf(),
            index < old(self).len(),
        ensures
            final(self).wf(),
            *final(self) == (ClientProgress {
                segment_ids: final(self).segment_ids,
                chunks: final(self).chunks,
                ..*old(self)
            }),
            final(self).segment_ids@ == old(self).segment_ids@.update(index as int, segment_id),
            final(self).chunks@ == old(self).chunks@.update(
                index as int,
                (old(self).chunks@[index as int].0, segment_id),
            ),
    {
        self.segment_ids.set(index, segment_id);
        let bytes = self.chunks[index].0;
        self.chunks.set(index, (bytes, segment_id));
    }

    /// Raises the byte counter of segment `index` to `chunk`, never
    /// lowering it.
    pub fn set_chunks(&mut self, chunk: u64, index: usize)
        requires
            old(self).wf(),
            index < old(self).len(),
        ensures
            final(self).wf(),
            *final(self) == (ClientProgress { chunks: final(self).chunks, ..*old(self) }),
            final(self).chunks@ == old(self).chunks@.update(
                index as int,
                (
                    if chunk > old(self).chunks@[index as int].0 {
                        chunk
                    } else {
                        old(self).chunks@[index as int].0
                    },
                    old(self).segment_ids@[index as int],
                ),
            ),
    {
        let segment_id = self.get_segment_id(index);
        let existing = self.chunks[index].0;
        if chunk > existing {
            self.chunks.set(index, (chunk, segment_id));
        } else {
            self.chunks.set(index, (existing, segment_id));
        }
    }

    pub fn get_chunks(&self, index: usize) -> (r: u64)
        ensures
            r == if index < self.chunks@.len() {
                self.chunks@[index as int].0
            } else {
                0
            },
    {
        if index < self.chunks.len() {
            self.chunks[index].0
        } else {
            0
        }
    }

    pub fn set_bytes_per_second(&mut self, bytes_per_second: u64, index: usize)
        requires
            index < old(self).bytes_per_second@.len(),
        ensures
            *final(self) == (ClientProgress {
                bytes_per_second: final(self).bytes_per_second,
                ..*old(self)
            }),
            final(self).bytes_per_second@ == old(self).bytes_per_second@.update(
                index as int,
                bytes_per_second,
            ),
    {
        self.bytes_per_second.set(index, bytes_per_second);
    }

    pub fn get_bytes_per_second(&self, index: usize) -> (r: u64)
        ensures
            r == if index < self.bytes_per_second@.len() {
                self.bytes_per_second@[index as int]
            } else {
                0
            },
    {
        if index < self.bytes_per_second.len() {
            self.bytes_per_second[index]
        } else {
            0
        }
    }

    /// Folds the sizes of already-present part files into the counters, so
    /// the first snapshot reflects resumed bytes.
    pub fn resume_existing_parts(&mut self, part_sizes: &Vec<u64>)
        requires
            old(self).wf(),
            part_sizes@.len() == old(self).len(),
        ensures
            final(self).wf(),
            final(self).len() == old(self).len(),
            final(self).file_size == old(self).file_size,
            final(self).total_bytes == old(self).total_bytes,
            final(self).bytes_per_second == old(self).bytes_per_second,
            final(self).segment_ids == old(self).segment_ids,
            forall|i: int|
                0 <= i < old(self).len() ==> #[trigger] final(self).chunks@[i] == (
                    if part_sizes@[i] > old(self).chunks@[i].0 {
                        part_sizes@[i]
                    } else {
                        old(self).chunks@[i].0
                    },
                    old(self).segment_ids@[i],
                ),
    {
        let mut i: usize = 0;
        while i < part_sizes.len()
            invariant
                0 <= i <= part_sizes@.len(),
                self.wf(),
                part_sizes@.len() == self.len(),
                self.len() == old(self).len(),
                self.file_size == old(self).file_size,
                self.total_bytes == old(self).total_bytes,
                self.bytes_per_second == old(self).bytes_per_second,
                self.segment_ids == old(self).segment_ids,
                forall|j: int|
                    0 <= j < i ==> #[trigger] self.chunks@[j] == (
                        if part_sizes@[j] > old(self).chunks@[j].0 {
                            part_sizes@[j]
                        } else {
                            old(self).chunks@[j].0
                        },
                        old(self).segment_ids@[j],
                    ),
                forall|j: int| i <= j < self.len() ==> self.chunks@[j] == old(self).chunks@[j],
            decreases part_sizes@.len() - i,
        {
            let size = part_sizes[i];
            self.set_chunks(size, i);
            i = i + 1;
        }
    }
}

/// A download client for one URL, holding the clamped parallelism and the
/// per-segment counters.
#[derive(Debug)]
pub struct Client {
    pub url: String,
    pub parts: u64,
    pub progress: ClientProgress,
}

impl Client {
    /// A client over `url` with the requested parallelism clamped into
    /// range and one zeroed counter row per segment, ids 1-based.
    pub fn new(url: String, parts: u64) -> (r: Client)
        ensures
            r.url == url,
            r.parts == clamped_parts(parts),
            r.progress.wf(),
            r.progress.len() == r.parts,
            r.progress.file_size == 0,
            forall|i: int|
                0 <= i < r.parts ==> {
                    &&& (#[trigger] r.progress.total_bytes@[i]) == 0
                    &&& r.progress.chunks@[i] == (0u64, (i + 1) as u64)
                    &&& r.progress.bytes_per_second@[i] == 0
                    &&& r.progress.segment_ids@[i] == (i + 1) as u64
                },
    {
        let parts = crate::plan::clamp_parts(parts);
        let mut progress = ClientProgress {
            file_size: 0,
            total_bytes: Vec::new(),
            chunks: Vec::new(),
            bytes_per_second: Vec::new(),
            segment_ids: Vec::new(),
        };
        let mut i: u64 = 0;
        while i < parts
            invariant
                0 <= i <= parts,
                progress.wf(),
                progress.len() == i,
                progress.file_size == 0,
                forall|j: int|
                    0 <= j < i ==> {
                        &&& (#[trigger] progress.total_bytes@[j]) == 0
                        &&& progress.chunks@[j] == (0u64, (j + 1) as u64)
                        &&& progress.bytes_per_second@[j] == 0
                        &&& progress.segment_ids@[j] == (j + 1) as u64
                    },
            decreases parts - i,
        {
            progress.total_bytes.push(0);
            progress.chunks.push((0, i + 1));
            progress.bytes_per_second.push(0);
            progress.segment_ids.push(i + 1);
            i = i + 1;
        }
        Client { url, parts, progress }
    }

    /// The per-segment counters.
    pub fn get_progress(&self) -> (r: &ClientProgress)
        ensures
            r == &self.progress,
    {
        &self.progress
    }

    /// File name derived from a URL; see `naming::file_name_of`.
    pub fn get_file_name(url: &str) -> (r: String)
        ensures
            r@ == naming::file_name_of(url@),
    {
        naming::get_file_name(url)
    }
}

} // verus!
