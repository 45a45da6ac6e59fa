//! The persistence store: one record per download, keyed by download id,
//! with the lifecycle invariants of the records and of the whole table.
//!
//! Invariants kept here: download ids are unique; a record is completed
//! exactly when it has a save path and a completion time; an error message
//! is present exactly on errored records; a record's downloaded byte count
//! never decreases under any operation.

use vstd::prelude::*;
use vstd::multiset::Multiset;
use crate::errors::StoreError;
use crate::host::now_rfc3339;

verus! {

/// Lifecycle of a download.
#[derive(Clone, Copy, PartialEq, Eq, Structural, Debug)]
pub enum DownloadStatus {
    Queued,
    Downloading,
    Paused,
    Completed,
    Error,
}

/// Wire name of a status.
pub open spec fn status_name(s: DownloadStatus) -> Seq<char> {
    match s {
        DownloadStatus::Queued => "queued"@,
        DownloadStatus::Downloading => "downloading"@,
        DownloadStatus::Paused => "paused"@,
        DownloadStatus::Completed => "completed"@,
        DownloadStatus::Error => "error"@,
    }
}

/// Renders a status for the wire.
pub fn status_str(s: DownloadStatus) -> (r: &'static str)
    ensures
        r@ == status_name(s),
{
    match s {
        DownloadStatus::Queued => "queued",
        DownloadStatus::Downloading => "downloading",
        DownloadStatus::Paused => "paused",
        DownloadStatus::Completed => "completed",
        DownloadStatus::Error => "error",
    }
}

/// One download's record.
#[derive(Debug)]
pub struct Download {
    /// Store-assigned row id; `None` until inserted.
    pub id: Option<i64>,
    /// Application-level identifier, unique within the store.
    pub download_id: u64,
    pub url: String,
    pub filename: String,
    /// Full resource length in bytes; 0 until known.
    pub total_size: u64,
    /// Cumulative downloaded bytes; never decreases.
    pub downloaded_bytes: u64,
    pub status: DownloadStatus,
    /// Present exactly when `status` is `Error`.
    pub error_message: Option<String>,
    /// Intended parallelism.
    pub parts: u64,
    /// RFC 3339 timestamps.
    pub created_at: String,
    pub updated_at: String,
    /// Present exactly when `status` is `Completed`.
    pub completed_at: Option<String>,
    /// Present exactly when `status` is `Completed`.
    pub save_path: Option<String>,
}

impl Clone for Download {
    fn clone(&self) -> (res: Self)
        ensures
            res == *self,
    {
        Download {
            id: self.id,
            download_id: self.download_id,
            url: self.url.clone(),
            filename: self.filename.clone(),
            total_size: self.total_size,
            downloaded_bytes: self.downloaded_bytes,
            status: self.status,
            error_message: match &self.error_message {
                Some(m) => Some(m.clone()),
                None => None,
            },
            parts: self.parts,
            created_at: self.created_at.clone(),
            updated_at: self.updated_at.clone(),
            completed_at: match &self.completed_at {
                Some(t) => Some(t.clone()),
                None => None,
            },
            save_path: match &self.save_path {
                Some(p) => Some(p.clone()),
                None => None,
            },
        }
    }
}

/// Record-level invariant: the byte counter is within the known size, and
/// the optional fields are populated exactly when the status says so.
pub open spec fn wf_record(d: Download) -> bool {
    &&& d.total_size > 0 ==> d.downloaded_bytes <= d.total_size
    &&& (d.status is Completed <==> (d.save_path is Some && d.completed_at is Some))
    &&& (d.status is Error <==> d.error_message is Some)
}

impl Download {
    /// A fresh record: nothing downloaded, status downloading, stamped with
    /// the current time.
    pub fn new(download_id: u64, url: String, filename: String, total_size: u64, parts: u64) -> (r:
        Download)
        ensures
            wf_record(r),
            r.id is None,
            r.download_id == download_id,
            r.url == url,
            r.filename == filename,
            r.total_size == total_size,
            r.downloaded_bytes == 0,
            r.status is Downloading,
            r.error_message is None,
            r.parts == parts,
            r.completed_at is None,
            r.save_path is None,
            r.created_at == r.updated_at,
    {
        let now = now_rfc3339();
        let now2 = now.clone();
        Download {
            id: None,
            download_id,
            url,
            filename,
            total_size,
            downloaded_bytes: 0,
            status: DownloadStatus::Downloading,
            error_message: None,
            parts,
            created_at: now,
            updated_at: now2,
            completed_at: None,
            save_path: None,
        }
    }
}

/// Whether some record carries `id`.
pub open spec fn has_id(rows: Seq<Download>, id: u64) -> bool {
    exists|i: int| 0 <= i < rows.len() && rows[i].download_id == id
}

/// No record's byte counter shrinks between table states `a` and `b`.
pub open spec fn progress_monotone(a: Seq<Download>, b: Seq<Download>) -> bool {
    forall|i: int, j: int|
        0 <= i < a.len() && 0 <= j < b.len() && (#[trigger] a[i]).download_id
            == (#[trigger] b[j]).download_id ==> a[i].downloaded_bytes <= b[j].downloaded_bytes
}

/// Monotonicity of byte counters composes across operations, so it holds
/// across any chain of store operations, hence across successive reads.
pub proof fn lemma_progress_monotone_trans(a: Seq<Download>, b: Seq<Download>, c: Seq<Download>)
    requires
        progress_monotone(a, b),
        progress_monotone(b, c),
        forall|i: int|
            0 <= i < a.len() ==> has_id(b, (#[trigger] a[i]).download_id) || !has_id(
                c,
                a[i].download_id,
            ),
    ensures
        progress_monotone(a, c),
{
    assert forall|i: int, j: int|
        0 <= i < a.len() && 0 <= j < c.len() && (#[trigger] a[i]).download_id
            == (#[trigger] c[j]).download_id implies a[i].downloaded_bytes
        <= c[j].downloaded_bytes by {
        assert(has_id(c, a[i].download_id));
        let k = choose|k: int| 0 <= k < b.len() && b[k].download_id == a[i].download_id;
        assert(a[i].downloaded_bytes <= b[k].downloaded_bytes);
        assert(b[k].downloaded_bytes <= c[j].downloaded_bytes);
    }
}

/// Under unique download ids, a table does not regress against itself.
proof fn lemma_monotone_refl(rows: Seq<Download>)
    requires
        forall|i: int, j: int|
            0 <= i < j < rows.len() ==> (#[trigger] rows[i]).download_id != (
            #[trigger] rows[j]).download_id,
    ensures
        progress_monotone(rows, rows),
{
    assert forall|i: int, j: int|
        0 <= i < rows.len() && 0 <= j < rows.len() && (#[trigger] rows[i]).download_id == (
        #[trigger] rows[j]).download_id implies rows[i].downloaded_bytes
        <= rows[j].downloaded_bytes by {
        if i < j {
            assert(rows[i].download_id != rows[j].download_id);
        } else if j < i {
            assert(rows[j].download_id != rows[i].download_id);
        }
    }
}

/// Ascending byte-order comparison of two character sequences, by scalar
/// value.
pub open spec fn lex_le(a: Seq<char>, b: Seq<char>) -> bool
    decreases a.len(),
{
    if a.len() == 0 {
        true
    } else if b.len() == 0 {
        false
    } else if (a[0] as u32) < (b[0] as u32) {
        true
    } else if (a[0] as u32) > (b[0] as u32) {
        false
    } else {
        lex_le(a.drop_first(), b.drop_first())
    }
}

/// One of two sequences always compares at or below the other.
pub proof fn lemma_lex_total(a: Seq<char>, b: Seq<char>)
    ensures
        lex_le(a, b) || lex_le(b, a),
    decreases a.len(),
{
    if a.len() > 0 && b.len() > 0 && a[0] as u32 == b[0] as u32 {
        lemma_lex_total(a.drop_first(), b.drop_first());
    }
}

/// The comparison is transitive.
pub proof fn lemma_lex_trans(a: Seq<char>, b: Seq<char>, c: Seq<char>)
    requires
        lex_le(a, b),
        lex_le(b, c),
    ensures
        lex_le(a, c),
    decreases a.len(),
{
    if a.len() > 0 && b.len() > 0 && c.len() > 0 && a[0] as u32 == b[0] as u32 && b[0] as u32 == c[0]
        as u32 {
        lemma_lex_trans(a.drop_first(), b.drop_first(), c.drop_first());
    }
}

/// With equal prefixes of length `k`, the comparison is decided past them.
proof fn lemma_lex_skip(a: Seq<char>, b: Seq<char>, k: int)
    requires
        0 <= k <= a.len(),
        k <= b.len(),
        forall|j: int| 0 <= j < k ==> (#[trigger] a[j]) as u32 == b[j] as u32,
    ensures
        lex_le(a, b) == lex_le(a.skip(k), b.skip(k)),
    decreases k,
{
    if k > 0 {
        assert(a.len() > 0 && b.len() > 0);
        assert(a[0] as u32 == b[0] as u32);
        assert(forall|j: int|
            0 <= j < k - 1 ==> (#[trigger] a.drop_first()[j]) as u32 == b.drop_first()[j] as u32);
        lemma_lex_skip(a.drop_first(), b.drop_first(), k - 1);
        assert(a.drop_first().skip(k - 1) =~= a.skip(k));
        assert(b.drop_first().skip(k - 1) =~= b.skip(k));
    } else {
        assert(a.skip(0) =~= a);
        assert(b.skip(0) =~= b);
    }
}

/// Compares two strings in ascending scalar-value order.
pub fn str_le(a: &str, b: &str) -> (r: bool)
    ensures
        r == lex_le(a@, b@),
{
    let alen = a.unicode_len();
    let blen = b.unicode_len();
    let mut i: usize = 0;
    while i < alen && i < blen
        invariant
            0 <= i <= alen,
            i <= blen,
            alen == a@.len(),
            blen == b@.len(),
            forall|j: int| 0 <= j < i ==> (#[trigger] a@[j]) as u32 == b@[j] as u32,
        decreases alen - i,
    {
        let ca = a.get_char(i) as u32;
        let cb = b.get_char(i) as u32;
        if ca < cb {
            proof {
                lemma_lex_skip(a@, b@, i as int);
            }
            return true;
        }
        if ca > cb {
            proof {
                lemma_lex_skip(a@, b@, i as int);
            }
            return false;
        }
        i = i + 1;
    }
    proof {
        lemma_lex_skip(a@, b@, i as int);
    }
    alen <= blen
}

/// Records in descending `created_at` order.
pub open spec fn sorted_by_created_desc(rows: Seq<Download>) -> bool {
    forall|i: int, j: int|
        0 <= i < j < rows.len() ==> lex_le(
            (#[trigger] rows[j]).created_at@,
            (#[trigger] rows[i]).created_at@,
        )
}

/// Swaps two rows.
fn swap_rows(v: &mut Vec<Download>, x: usize, y: usize)
    requires
        x < y < old(v)@.len(),
    ensures
        final(v)@ == old(v)@.update(x as int, old(v)@[y as int]).update(
            y as int,
            old(v)@[x as int],
        ),
        final(v)@.to_multiset() == old(v)@.to_multiset(),
{
    let ghost s0 = v@;
    let a = v[x].clone();
    let b = v[y].clone();
    v.set(x, b);
    v.set(y, a);
    proof {
        broadcast use vstd::seq_lib::to_multiset_update;
        broadcast use vstd::multiset::group_multiset_axioms;

        let ms0 = s0.to_multiset();
        let va = s0[x as int];
        let vb = s0[y as int];
        let s1 = s0.update(x as int, vb);
        assert(s1.to_multiset() == ms0.insert(vb).remove(va));
        assert(v@ == s1.update(y as int, va));
        assert(s1[y as int] == vb);
        assert(v@.to_multiset() == s1.to_multiset().insert(va).remove(vb));
        s0.to_multiset_ensures();
        assert(s0.contains(va) && s0.contains(vb));
        assert(ms0.count(va) > 0 && ms0.count(vb) > 0);
        assert forall|e: Download| v@.to_multiset().count(e) == ms0.count(e) by {
            let sa = Multiset::singleton(va).count(e);
            let sb = Multiset::singleton(vb).count(e);
            assert(sa == if e == va {
                1nat
            } else {
                0nat
            });
            assert(sb == if e == vb {
                1nat
            } else {
                0nat
            });
            assert(ms0.insert(vb).count(e) == ms0.count(e) + sb);
        }
        assert(v@.to_multiset() =~= ms0);
    }
}

/// Sorts rows into descending `created_at` order in place, preserving the
/// multiset of records.
fn sort_rows_desc(v: &mut Vec<Download>)
    ensures
        sorted_by_created_desc(final(v)@),
        final(v)@.to_multiset() == old(v)@.to_multiset(),
{
    let ghost s0 = v@;
    let n = v.len();
    if n == 0 {
        return ;
    }
    let mut i: usize = 1;
    while i < n
        invariant
            1 <= i <= n,
            n == v@.len(),
            v@.to_multiset() == s0.to_multiset(),
            sorted_by_created_desc(v@.take(i as int)),
        decreases n - i,
    {
        let mut j: usize = i;
        proof {
            assert(forall|t: int| 0 <= t < i ==> v@.take(i as int)[t] == v@[t]);
            assert forall|k: int, l: int| 0 <= k < l <= i && k != j && l != j implies lex_le(
                (#[trigger] v@[l]).created_at@,
                (#[trigger] v@[k]).created_at@,
            ) by {
                assert(v@.take(i as int)[k] == v@[k]);
                assert(v@.take(i as int)[l] == v@[l]);
            }
        }
        while j > 0
            invariant_except_break
                0 <= j <= i < n,
                n == v@.len(),
                v@.to_multiset() == s0.to_multiset(),
                forall|k: int, l: int|
                    0 <= k < l <= i && k != j && l != j ==> lex_le(
                        (#[trigger] v@[l]).created_at@,
                        (#[trigger] v@[k]).created_at@,
                    ),
                forall|l: int|
                    j < l <= i ==> lex_le((#[trigger] v@[l]).created_at@, v@[j as int].created_at@),
            ensures
                0 <= j <= i < n,
                n == v@.len(),
                v@.to_multiset() == s0.to_multiset(),
                forall|k: int, l: int|
                    0 <= k < l <= i && k != j && l != j ==> lex_le(
                        (#[trigger] v@[l]).created_at@,
                        (#[trigger] v@[k]).created_at@,
                    ),
                forall|l: int|
                    j < l <= i ==> lex_le((#[trigger] v@[l]).created_at@, v@[j as int].created_at@),
                j == 0 || lex_le(v@[j as int].created_at@, v@[j - 1].created_at@),
            decreases j,
        {
            let earlier = str_le(v[j - 1].created_at.as_str(), v[j].created_at.as_str());
            let later = str_le(v[j].created_at.as_str(), v[j - 1].created_at.as_str());
            if !(earlier && !later) {
                proof {
                    if !later {
                        lemma_lex_total(v@[j - 1].created_at@, v@[j as int].created_at@);
                    }
                }
                break ;
            }
            swap_rows(v, j - 1, j);
            j = j - 1;
        }
        proof {
            assert forall|k: int, l: int| 0 <= k < l <= i implies lex_le(
                (#[trigger] v@[l]).created_at@,
                (#[trigger] v@[k]).created_at@,
            ) by {
                if k == j as int {
                    assert(lex_le(v@[l].created_at@, v@[j as int].created_at@));
                } else if l == j as int {
                    assert(lex_le(v@[j as int].created_at@, v@[j - 1].created_at@));
                    if k < j - 1 {
                        assert(lex_le(v@[j - 1].created_at@, v@[k].created_at@));
                        lemma_lex_trans(
                            v@[j as int].created_at@,
                            v@[j - 1].created_at@,
                            v@[k].created_at@,
                        );
                    }
                }
            }
            assert(forall|t: int| 0 <= t < i + 1 ==> v@.take(i + 1)[t] == v@[t]);
            assert(sorted_by_created_desc(v@.take(i + 1)));
        }
        i = i + 1;
    }
    proof {
        assert(v@.take(n as int) =~= v@);
    }
}

/// The store: a table of download records with unique download ids and
/// store-assigned row ids.
#[derive(Debug)]
pub struct DownloadDb {
    rows: Vec<Download>,
    next_row_id: i64,
}

impl DownloadDb {
    /// The records, in insertion order.
    pub closed spec fn rows(&self) -> Seq<Download> {
        self.rows@
    }

    /// The row id the next insert will assign.
    pub closed spec fn next_row(&self) -> int {
        self.next_row_id as int
    }

    /// Table invariant: well-formed records, unique download ids, unique
    /// assigned row ids below the allocation cursor.
    pub open spec fn wf(&self) -> bool {
        &&& forall|i: int| 0 <= i < self.rows().len() ==> wf_record(#[trigger] self.rows()[i])
        &&& forall|i: int, j: int|
            0 <= i < j < self.rows().len() ==> (#[trigger] self.rows()[i]).download_id
                != (#[trigger] self.rows()[j]).download_id
        &&& forall|i: int|
            0 <= i < self.rows().len() ==> ((#[trigger] self.rows()[i]).id matches Some(r) && 1 <= r
                < self.next_row())
        &&& forall|i: int, j: int|
            0 <= i < j < self.rows().len() ==> (#[trigger] self.rows()[i]).id != (
            #[trigger] self.rows()[j]).id
        &&& 1 <= self.next_row()
    }

    /// An empty store.
    pub fn new() -> (r: DownloadDb)
        ensures
            r.wf(),
            r.rows().len() == 0,
    {
        DownloadDb { rows: Vec::new(), next_row_id: 1 }
    }

    /// Index of the record carrying `download_id`, if any.
    fn find_by_id(&self, download_id: u64) -> (r: Option<usize>)
        ensures
            r is Some <==> has_id(self.rows@, download_id),
            r matches Some(i) ==> i < self.rows@.len() && self.rows@[i as int].download_id
                == download_id,
    {
        let mut i: usize = 0;
        while i < self.rows.len()
            invariant
                0 <= i <= self.rows@.len(),
                forall|j: int| 0 <= j < i ==> (#[trigger] self.rows@[j]).download_id != download_id,
            decreases self.rows@.len() - i,
        {
            if self.rows[i].download_id == download_id {
                return Some(i);
            }
            i = i + 1;
        }
        None
    }

    /// Inserts a new record, assigning it the next row id; refused when the
    /// download id is already present.
    pub fn insert_download(&mut self, download: &Download) -> (r: Result<i64, StoreError>)
        requires
            old(self).wf(),
            wf_record(*download),
        ensures
            final(self).wf(),
            progress_monotone(old(self).rows(), final(self).rows()),
            r is Ok <==> (!has_id(old(self).rows(), download.download_id) && old(self).next_row()
                < i64::MAX),
            has_id(old(self).rows(), download.download_id) ==> r == Err::<
                i64,
                StoreError,
            >(StoreError::DuplicateDownloadId),
            r is Err ==> *final(self) == *old(self),
            r matches Ok(rid) ==> {
                &&& rid == old(self).next_row()
                &&& final(self).rows() == old(self).rows().push(
                    Download { id: Some(rid), ..*download },
                )
            },
    {
        match self.find_by_id(download.download_id) {
            Some(_) => Err(StoreError::DuplicateDownloadId),
            None => {
                if self.next_row_id == i64::MAX {
                    return Err(StoreError::MissingRowId);
                }
                let rid = self.next_row_id;
                let mut record = download.clone();
                record.id = Some(rid);
                self.rows.push(record);
                self.next_row_id = rid + 1;
                proof {
                    assert(forall|i: int|
                        0 <= i < old(self).rows@.len() ==> final(self).rows@[i] == old(
                            self,
                        ).rows@[i]);
                }
                Ok(rid)
            },
        }
    }

    /// Index of the record carrying row id `rid`, if any.
    fn find_by_row_id(&self, rid: i64) -> (r: Option<usize>)
        ensures
            r is None ==> forall|j: int| 0 <= j < self.rows@.len() ==> (#[trigger] self.rows@[j]).id
                != Some(rid),
            r matches Some(i) ==> i < self.rows@.len() && self.rows@[i as int].id == Some(rid),
    {
        let mut i: usize = 0;
        while i < self.rows.len()
            invariant
                0 <= i <= self.rows@.len(),
                forall|j: int| 0 <= j < i ==> (#[trigger] self.rows@[j]).id != Some(rid),
            decreases self.rows@.len() - i,
        {
            let hit = match self.rows[i].id {
                Some(r) => r == rid,
                None => false,
            };
            if hit {
                return Some(i);
            }
            i = i + 1;
        }
        None
    }

    /// Replaces the record that carries the given row id with the handed
    /// fields, keeping its creation time and stamping a new update time.
    /// Refused without a row id, when the new download id would collide
    /// with another record, or when the byte counter would shrink; silently
    /// a no-op when no record has the row id.
    pub fn update_download(&mut self, download: &Download) -> (r: Result<(), StoreError>)
        requires
            old(self).wf(),
            wf_record(*download),
        ensures
            final(self).wf(),
            progress_monotone(old(self).rows(), final(self).rows()),
            download.id is None ==> r == Err::<(), StoreError>(StoreError::MissingRowId),
            r is Err ==> *final(self) == *old(self),
            r is Err <==> (download.id is None || exists|i: int|
                {
                    &&& 0 <= i < old(self).rows().len()
                    &&& (#[trigger] old(self).rows()[i]).id == download.id
                    &&& ((exists|j: int|
                        0 <= j < old(self).rows().len() && j != i && (#[trigger] old(
                            self,
                        ).rows()[j]).download_id == download.download_id)
                        || download.downloaded_bytes < old(self).rows()[i].downloaded_bytes)
                }),
            r is Ok && download.id is Some ==> {
                ||| (!(exists|i: int|
                    0 <= i < old(self).rows().len() && (#[trigger] old(self).rows()[i]).id
                        == download.id) && *final(self) == *old(self))
                ||| (exists|i: int|
                    {
                        &&& 0 <= i < old(self).rows().len()
                        &&& (#[trigger] old(self).rows()[i]).id == download.id
                        &&& old(self).rows()[i].downloaded_bytes <= download.downloaded_bytes
                        &&& final(self).rows() == old(self).rows().update(
                            i,
                            Download {
                                id: download.id,
                                created_at: old(self).rows()[i].created_at,
                                updated_at: final(self).rows()[i].updated_at,
                                ..*download
                            },
                        )
                    })
            },
    {
        let rid = match download.id {
            Some(rid) => rid,
            None => {
                return Err(StoreError::MissingRowId);
            },
        };
        let at = match self.find_by_row_id(rid) {
            Some(at) => at,
            None => {
                return Ok(());
            },
        };
        let n = self.rows.len();
        // A changed download id must not collide with another record.
        let mut j: usize = 0;
        while j < n
            invariant
                0 <= j <= n,
                n == self.rows@.len(),
                at < n,
                *self == *old(self),
                self.wf(),
                self.rows@[at as int].id == download.id,
                forall|k: int|
                    0 <= k < j && k != at ==> (#[trigger] self.rows@[k]).download_id
                        != download.download_id,
            decreases n - j,
        {
            if j != at && self.rows[j].download_id == download.download_id {
                proof {
                    lemma_monotone_refl(self.rows@);
                    assert(0 <= at < old(self).rows().len() && old(self).rows()[at as int].id
                        == download.id && 0 <= j < old(self).rows().len() && j != at && old(
                        self,
                    ).rows()[j as int].download_id == download.download_id);
                }
                return Err(StoreError::DuplicateDownloadId);
            }
            j = j + 1;
        }
        // The persisted byte counter must never move backwards.
        if download.downloaded_bytes < self.rows[at].downloaded_bytes {
            proof {
                lemma_monotone_refl(self.rows@);
            }
            return Err(StoreError::ProgressRegression);
        }
        let mut record = download.clone();
        record.id = Some(rid);
        record.created_at = self.rows[at].created_at.clone();
        record.updated_at = now_rfc3339();
        self.rows.set(at, record);
        Ok(())
    }

    /// Adds `bytes` to the record's byte counter, clipped at the total size
    /// once that is known, and stamps a new update time.  A missing record
    /// is silently ignored.
    pub fn update_progress(&mut self, download_id: u64, bytes: u64) -> (r: Result<(), StoreError>)
        requires
            old(self).wf(),
        ensures
            final(self).wf(),
            progress_monotone(old(self).rows(), final(self).rows()),
            r is Ok,
            !has_id(old(self).rows(), download_id) ==> *final(self) == *old(self),
            has_id(old(self).rows(), download_id) ==> exists|i: int|
                {
                    &&& 0 <= i < old(self).rows().len()
                    &&& (#[trigger] old(self).rows()[i]).download_id == download_id
                    &&& final(self).rows() == old(self).rows().update(
                        i,
                        Download {
                            downloaded_bytes: bumped_bytes(old(self).rows()[i], bytes),
                            updated_at: final(self).rows()[i].updated_at,
                            ..old(self).rows()[i]
                        },
                    )
                },
    {
        let at = match self.find_by_id(download_id) {
            Some(at) => at,
            None => {
                return Ok(());
            },
        };
        let mut record = self.rows[at].clone();
        let grown = record.downloaded_bytes.saturating_add(bytes);
        record.downloaded_bytes = if record.total_size > 0 && grown > record.total_size {
            record.total_size
        } else {
            grown
        };
        record.updated_at = now_rfc3339();
        self.rows.set(at, record);
        Ok(())
    }

    /// Sets the record's status and stamps a new update time, clearing the
    /// completion and error fields that other statuses may not carry.
    /// Completion and error are reached through their own operations.
    pub fn update_status(&mut self, download_id: u64, status: DownloadStatus) -> (r: Result<
        (),
        StoreError,
    >)
        requires
            old(self).wf(),
            !(status is Completed),
            !(status is Error),
        ensures
            final(self).wf(),
            progress_monotone(old(self).rows(), final(self).rows()),
            r is Ok <==> has_id(old(self).rows(), download_id),
            r is Err ==> r == Err::<(), StoreError>(StoreError::NotFound) && *final(self) == *old(
                self,
            ),
            has_id(old(self).rows(), download_id) ==> exists|i: int|
                {
                    &&& 0 <= i < old(self).rows().len()
                    &&& (#[trigger] old(self).rows()[i]).download_id == download_id
                    &&& final(self).rows() == old(self).rows().update(
                        i,
                        Download {
                            status,
                            error_message: None,
                            completed_at: None,
                            save_path: None,
                            updated_at: final(self).rows()[i].updated_at,
                            ..old(self).rows()[i]
                        },
                    )
                },
    {
        let at = match self.find_by_id(download_id) {
            Some(at) => at,
            None => {
                return Err(StoreError::NotFound);
            },
        };
        let mut record = self.rows[at].clone();
        record.status = status;
        record.error_message = None;
        record.completed_at = None;
        record.save_path = None;
        record.updated_at = now_rfc3339();
        self.rows.set(at, record);
        Ok(())
    }

    /// Marks the record completed: status, save path, and a completion time
    /// equal to the new update time.  A missing record is silently ignored.
    pub fn mark_complete(&mut self, download_id: u64, save_path: &str) -> (r: Result<
        (),
        StoreError,
    >)
        requires
            old(self).wf(),
        ensures
            final(self).wf(),
            progress_monotone(old(self).rows(), final(self).rows()),
            r is Ok,
            !has_id(old(self).rows(), download_id) ==> *final(self) == *old(self),
            has_id(old(self).rows(), download_id) ==> exists|i: int|
                {
                    &&& 0 <= i < old(self).rows().len()
                    &&& (#[trigger] old(self).rows()[i]).download_id == download_id
                    &&& final(self).rows().len() == old(self).rows().len()
                    &&& (forall|j: int|
                        0 <= j < old(self).rows().len() && j != i ==> final(self).rows()[j] == old(
                            self,
                        ).rows()[j])
                    &&& final(self).rows()[i].status is Completed
                    &&& final(self).rows()[i].save_path matches Some(p) && p@ == save_path@
                    &&& final(self).rows()[i].completed_at == Some(final(self).rows()[i].updated_at)
                    &&& final(self).rows()[i].error_message is None
                    &&& final(self).rows()[i] == (Download {
                        status: DownloadStatus::Completed,
                        error_message: None,
                        completed_at: final(self).rows()[i].completed_at,
                        save_path: final(self).rows()[i].save_path,
                        updated_at: final(self).rows()[i].updated_at,
                        ..old(self).rows()[i]
                    })
                },
    {
        let at = match self.find_by_id(download_id) {
            Some(at) => at,
            None => {
                return Ok(());
            },
        };
        let now = now_rfc3339();
        let mut record = self.rows[at].clone();
        record.status = DownloadStatus::Completed;
        record.error_message = None;
        record.completed_at = Some(now.clone());
        record.save_path = Some(save_path.to_owned());
        record.updated_at = now;
        self.rows.set(at, record);
        Ok(())
    }

    /// Marks the record errored with a message and stamps a new update
    /// time.  A missing record is silently ignored.
    pub fn mark_error(&mut self, download_id: u64, error_message: &str) -> (r: Result<
        (),
        StoreError,
    >)
        requires
            old(self).wf(),
        ensures
            final(self).wf(),
            progress_monotone(old(self).rows(), final(self).rows()),
            r is Ok,
            !has_id(old(self).rows(), download_id) ==> *final(self) == *old(self),
            has_id(old(self).rows(), download_id) ==> exists|i: int|
                {
                    &&& 0 <= i < old(self).rows().len()
                    &&& (#[trigger] old(self).rows()[i]).download_id == download_id
                    &&& final(self).rows().len() == old(self).rows().len()
                    &&& (forall|j: int|
                        0 <= j < old(self).rows().len() && j != i ==> final(self).rows()[j] == old(
                            self,
                        ).rows()[j])
                    &&& final(self).rows()[i].status is Error
                    &&& final(self).rows()[i].error_message matches Some(m) && m@ == error_message@
                    &&& final(self).rows()[i] == (Download {
                        status: DownloadStatus::Error,
                        error_message: final(self).rows()[i].error_message,
                        completed_at: None,
                        save_path: None,
                        updated_at: final(self).rows()[i].updated_at,
                        ..old(self).rows()[i]
                    })
                },
    {
        let at = match self.find_by_id(download_id) {
            Some(at) => at,
            None => {
                return Ok(());
            },
        };
        let mut record = self.rows[at].clone();
        record.status = DownloadStatus::Error;
        record.error_message = Some(error_message.to_owned());
        record.completed_at = None;
        record.save_path = None;
        record.updated_at = now_rfc3339();
        self.rows.set(at, record);
        Ok(())
    }

    /// The record carrying `download_id`, if any.
    pub fn get_download(&self, download_id: u64) -> (r: Option<Download>)
        requires
            self.wf(),
        ensures
            r is Some <==> has_id(self.rows(), download_id),
            r matches Some(d) ==> exists|i: int|
                0 <= i < self.rows().len() && (#[trigger] self.rows()[i]).download_id == download_id
                    && d == self.rows()[i],
    {
        match self.find_by_id(download_id) {
            Some(at) => Some(self.rows[at].clone()),
            None => None,
        }
    }

    /// All records, newest first by creation time.
    pub fn list_downloads(&self) -> (r: Vec<Download>)
        requires
            self.wf(),
        ensures
            sorted_by_created_desc(r@),
            r@.to_multiset() == self.rows().to_multiset(),
    {
        let mut out: Vec<Download> = Vec::new();
        let mut i: usize = 0;
        while i < self.rows.len()
            invariant
                0 <= i <= self.rows@.len(),
                out@ == self.rows@.take(i as int),
            decreases self.rows@.len() - i,
        {
            proof {
                assert(self.rows@.take(i + 1).drop_last() =~= self.rows@.take(i as int));
                assert(self.rows@.take(i + 1) =~= self.rows@.take(i as int).push(
                    self.rows@[i as int],
                ));
            }
            out.push(self.rows[i].clone());
            i = i + 1;
        }
        proof {
            assert(self.rows@.take(self.rows@.len() as int) =~= self.rows@);
        }
        sort_rows_desc(&mut out);
        out
    }

    /// The records whose status renders as `status`, newest first.
    pub fn get_downloads_by_status(&self, status: &str) -> (r: Vec<Download>)
        requires
            self.wf(),
        ensures
            sorted_by_created_desc(r@),
            r@.to_multiset() == matching_status(self.rows(), status@).to_multiset(),
    {
        let mut out: Vec<Download> = Vec::new();
        let mut i: usize = 0;
        while i < self.rows.len()
            invariant
                0 <= i <= self.rows@.len(),
                out@ == matching_status(self.rows@.take(i as int), status@),
            decreases self.rows@.len() - i,
        {
            proof {
                assert(self.rows@.take(i + 1).drop_last() =~= self.rows@.take(i as int));
                assert(self.rows@.take(i + 1).last() == self.rows@[i as int]);
            }
            let name = status_str(self.rows[i].status);
            if crate::text::str_eq(name, status) {
                out.push(self.rows[i].clone());
            }
            i = i + 1;
        }
        proof {
            assert(self.rows@.take(self.rows@.len() as int) =~= self.rows@);
        }
        sort_rows_desc(&mut out);
        out
    }

    /// Removes the record carrying `download_id`; an error when there is
    /// none.
    pub fn delete_download(&mut self, download_id: u64) -> (r: Result<(), StoreError>)
        requires
            old(self).wf(),
        ensures
            final(self).wf(),
            progress_monotone(old(self).rows(), final(self).rows()),
            r is Ok <==> has_id(old(self).rows(), download_id),
            r is Err ==> r == Err::<(), StoreError>(StoreError::NotFound) && *final(self) == *old(
                self,
            ),
            r is Ok ==> exists|i: int|
                0 <= i < old(self).rows().len() && (#[trigger] old(self).rows()[i]).download_id
                    == download_id && final(self).rows() == old(self).rows().remove(i),
            r is Ok ==> !has_id(final(self).rows(), download_id),
    {
        let at = match self.find_by_id(download_id) {
            Some(at) => at,
            None => {
                return Err(StoreError::NotFound);
            },
        };
        self.rows.remove(at);
        proof {
            assert(forall|j: int|
                0 <= j < final(self).rows@.len() ==> final(self).rows@[j] == (if j < at {
                    old(self).rows@[j]
                } else {
                    old(self).rows@[j + 1]
                }));
        }
        Ok(())
    }
}

/// Clipped growth of a record's byte counter: `bytes` more, at most the
/// total size once it is known.
pub open spec fn bumped_bytes(d: Download, bytes: u64) -> u64 {
    if d.total_size > 0 {
        if d.downloaded_bytes + bytes <= d.total_size {
            (d.downloaded_bytes + bytes) as u64
        } else {
            d.total_size
        }
    } else {
        if d.downloaded_bytes + bytes <= u64::MAX {
            (d.downloaded_bytes + bytes) as u64
        } else {
            u64::MAX
        }
    }
}

/// The records whose status renders as `name`, in table order.
pub open spec fn matching_status(rows: Seq<Download>, name: Seq<char>) -> Seq<Download>
    decreases rows.len(),
{
    if rows.len() == 0 {
        Seq::empty()
    } else {
        let rest = matching_status(rows.drop_last(), name);
        if status_name(rows.last().status) == name {
            rest.push(rows.last())
        } else {
            rest
        }
    }
}

/// Every record is completed exactly when it carries both a save path and
/// a completion time.
pub proof fn lemma_completed_iff_marked(db: &DownloadDb)
    requires
        db.wf(),
    ensures
        forall|i: int|
            0 <= i < db.rows().len() ==> ((#[trigger] db.rows()[i]).status is Completed <==> (
            db.rows()[i].save_path is Some && db.rows()[i].completed_at is Some)),
{
}

} // verus!
