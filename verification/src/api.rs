//! Boundary commands: what each wire-level operation decides and how it
//! reads or changes the store.  The surrounding process parses nothing and
//! decides nothing; it hands these functions plain values and carries out
//! the returned plans.

use vstd::prelude::*;
use crate::engine::DownloadEvent;
use crate::errors::StoreError;
use crate::naming::{candidate_name, file_name_of, get_file_name, lemma_candidate_differs, list_has,
    next_free_name};
use crate::store::{bumped_bytes, has_id, progress_monotone, Download, DownloadDb, DownloadStatus};
use crate::text::{is_u64_numeral, parse_u64_param, u64_numeral_value};

verus! {

/// Value of a wire-level id parameter: its numeral value, or 0.
pub open spec fn wire_u64(s: Seq<char>) -> u64 {
    if is_u64_numeral(s) {
        u64_numeral_value(s) as u64
    } else {
        0
    }
}

/// What a fresh start request resolved to.
pub struct StartRequest {
    /// The id the download runs under: the caller's, or a fresh one.
    pub download_id: u64,
    /// File name derived from the URL.
    pub filename: String,
    /// Requested parallelism, before clamping.
    pub parts: u64,
}

/// Resolves a start request and records the download: derives the file
/// name, settles the id (the caller's, or the current Unix second), and
/// inserts a fresh record.  An insert refusal (an id already recorded, as
/// on resume) leaves the store unchanged and the request still valid.
pub fn start_download(
    db: &mut DownloadDb,
    url: &str,
    parts: &str,
    download_id: Option<u64>,
) -> (r: StartRequest)
    requires
        old(db).wf(),
    ensures
        final(db).wf(),
        progress_monotone(old(db).rows(), final(db).rows()),
        r.filename@ == file_name_of(url@),
        r.parts == wire_u64(parts@),
        download_id matches Some(v) ==> r.download_id == v,
        has_id(old(db).rows(), r.download_id) ==> *final(db) == *old(db),
        !has_id(old(db).rows(), r.download_id) && old(db).next_row() < i64::MAX ==> {
            &&& final(db).rows().len() == old(db).rows().len() + 1
            &&& (forall|i: int| 0 <= i < old(db).rows().len() ==> final(db).rows()[i] == old(db).rows()[i])
            &&& final(db).rows().last().download_id == r.download_id
            &&& final(db).rows().last().url@ == url@
            &&& final(db).rows().last().filename == r.filename
            &&& final(db).rows().last().total_size == 0
            &&& final(db).rows().last().downloaded_bytes == 0
            &&& final(db).rows().last().status is Downloading
            &&& final(db).rows().last().parts == r.parts
        },
{
    let parts_requested = parse_u64_param(parts);
    let filename = get_file_name(url);
    let id = match download_id {
        Some(v) => v,
        None => crate::host::now_unix_seconds(),
    };
    let record = Download::new(id, url.to_owned(), filename.clone(), 0, parts_requested);
    match db.insert_download(&record) {
        Ok(_) => {},
        Err(_) => {},
    }
    StartRequest { download_id: id, filename, parts: parts_requested }
}

/// Applies one download event to the store, as the lifecycle consumer
/// does: the plan sets the total size, progress deltas grow the byte
/// counter, a worker error marks the record errored, and completion marks
/// it completed under `save_path`.
pub fn apply_event(
    db: &mut DownloadDb,
    download_id: u64,
    event: &DownloadEvent,
    save_path: &str,
) -> (r: Result<(), StoreError>)
    requires
        old(db).wf(),
    ensures
        final(db).wf(),
        progress_monotone(old(db).rows(), final(db).rows()),
        final(db).rows().len() == old(db).rows().len(),
        !has_id(old(db).rows(), download_id) ==> *final(db) == *old(db),
        event matches DownloadEvent::BytesReceived { bytes, .. } ==> (has_id(
            old(db).rows(),
            download_id,
        ) ==> exists|i: int|
            {
                &&& 0 <= i < old(db).rows().len()
                &&& (#[trigger] old(db).rows()[i]).download_id == download_id
                &&& final(db).rows()[i].downloaded_bytes == bumped_bytes(old(db).rows()[i], *bytes)
            }),
        event is Complete ==> (has_id(old(db).rows(), download_id) ==> exists|i: int|
            {
                &&& 0 <= i < old(db).rows().len()
                &&& (#[trigger] old(db).rows()[i]).download_id == download_id
                &&& final(db).rows()[i].status is Completed
                &&& final(db).rows()[i].save_path matches Some(p) && p@ == save_path@
                &&& final(db).rows()[i].completed_at is Some
            }),
        event matches DownloadEvent::Error { message, .. } ==> (has_id(
            old(db).rows(),
            download_id,
        ) ==> exists|i: int|
            {
                &&& 0 <= i < old(db).rows().len()
                &&& (#[trigger] old(db).rows()[i]).download_id == download_id
                &&& final(db).rows()[i].status is Error
                &&& final(db).rows()[i].error_message matches Some(m) && m@ == message@
            }),
        event matches DownloadEvent::Initialize { file_size, .. } ==> (has_id(
            old(db).rows(),
            download_id,
        ) ==> exists|i: int|
            {
                &&& 0 <= i < old(db).rows().len()
                &&& (#[trigger] old(db).rows()[i]).download_id == download_id
                &&& (old(db).rows()[i].downloaded_bytes <= *file_size || *file_size == 0
                    ==> final(db).rows()[i].total_size == *file_size)
            }),
{
    match event {
        DownloadEvent::Initialize { file_size, .. } => {
            let ghost rows0 = old(db).rows();
            let record = match db.get_download(download_id) {
                Some(d) => d,
                None => {
                    return Ok(());
                },
            };
            let ghost i0 = choose|i: int|
                0 <= i < rows0.len() && (#[trigger] rows0[i]).download_id == download_id && record
                    == rows0[i];
            if record.downloaded_bytes > *file_size && *file_size > 0 {
                // A plan shorter than what is already recorded would break
                // the byte-counter bound; nothing sensible can be stored.
                return Ok(());
            }
            let mut updated = record;
            updated.total_size = *file_size;
            let res = db.update_download(&updated);
            proof {
                assert(rows0[i0].id == updated.id);
                if res is Err {
                    let i = choose|i: int|
                        {
                            &&& 0 <= i < rows0.len()
                            &&& (#[trigger] rows0[i]).id == updated.id
                            &&& ((exists|j: int|
                                0 <= j < rows0.len() && j != i && (#[trigger] rows0[j]).download_id
                                    == updated.download_id) || updated.downloaded_bytes
                                < rows0[i].downloaded_bytes)
                        };
                    assert(i == i0);
                    if exists|j: int|
                        0 <= j < rows0.len() && j != i && (#[trigger] rows0[j]).download_id
                            == updated.download_id {
                        let j = choose|j: int|
                            0 <= j < rows0.len() && j != i && (#[trigger] rows0[j]).download_id
                                == updated.download_id;
                        assert(false);
                    }
                    assert(false);
                }
                let i1 = choose|i: int|
                    {
                        &&& 0 <= i < rows0.len()
                        &&& (#[trigger] rows0[i]).id == updated.id
                        &&& rows0[i].downloaded_bytes <= updated.downloaded_bytes
                        &&& final(db).rows() == rows0.update(
                            i,
                            Download {
                                id: updated.id,
                                created_at: rows0[i].created_at,
                                updated_at: final(db).rows()[i].updated_at,
                                ..updated
                            },
                        )
                    };
                assert(i1 == i0);
                assert(final(db).rows()[i0].total_size == *file_size);
            }
            match res {
                Ok(_) => Ok(()),
                Err(e) => Err(e),
            }
        },
        DownloadEvent::BytesReceived { bytes, .. } => db.update_progress(download_id, *bytes),
        DownloadEvent::Error { message, .. } => db.mark_error(download_id, message.as_str()),
        DownloadEvent::Complete => db.mark_complete(download_id, save_path),
    }
}

/// Sets the record to paused.
pub fn pause_download(db: &mut DownloadDb, download_id: &str) -> (r: Result<(), StoreError>)
    requires
        old(db).wf(),
    ensures
        final(db).wf(),
        progress_monotone(old(db).rows(), final(db).rows()),
        r is Ok <==> has_id(old(db).rows(), wire_u64(download_id@)),
        r is Err ==> r == Err::<(), StoreError>(StoreError::NotFound) && *final(db) == *old(db),
        r is Ok ==> exists|i: int|
            {
                &&& 0 <= i < old(db).rows().len()
                &&& (#[trigger] old(db).rows()[i]).download_id == wire_u64(download_id@)
                &&& final(db).rows()[i].status is Paused
            },
{
    let id = parse_u64_param(download_id);
    match db.update_status(id, DownloadStatus::Paused) {
        Ok(()) => {
            proof {
                let i = choose|i: int|
                    0 <= i < old(db).rows().len() && (#[trigger] old(db).rows()[i]).download_id
                        == id;
                assert(db.rows()[i].status is Paused);
            }
            Ok(())
        },
        Err(e) => Err(e),
    }
}

/// What a resume request restarts with.
pub struct ResumeRequest {
    pub download_id: u64,
    pub url: String,
    pub filename: String,
    pub parts: u64,
}

/// Looks the record up, sets it back to downloading, and returns the
/// parameters a fresh engine resumes with under the same id.
pub fn resume_download(db: &mut DownloadDb, download_id: &str) -> (r: Result<
    ResumeRequest,
    StoreError,
>)
    requires
        old(db).wf(),
    ensures
        final(db).wf(),
        progress_monotone(old(db).rows(), final(db).rows()),
        r is Ok <==> has_id(old(db).rows(), wire_u64(download_id@)),
        r is Err ==> *final(db) == *old(db),
        r matches Ok(req) ==> {
            &&& req.download_id == wire_u64(download_id@)
            &&& exists|i: int|
                {
                    &&& 0 <= i < old(db).rows().len()
                    &&& (#[trigger] old(db).rows()[i]).download_id == req.download_id
                    &&& old(db).rows()[i].url == req.url
                    &&& old(db).rows()[i].filename == req.filename
                    &&& old(db).rows()[i].parts == req.parts
                    &&& final(db).rows()[i].status is Downloading
                }
        },
{
    let id = parse_u64_param(download_id);
    let record = match db.get_download(id) {
        Some(d) => d,
        None => {
            return Err(StoreError::NotFound);
        },
    };
    match db.update_status(id, DownloadStatus::Downloading) {
        Ok(()) => {},
        Err(e) => {
            return Err(e);
        },
    }
    proof {
        let i = choose|i: int|
            0 <= i < old(db).rows().len() && (#[trigger] old(db).rows()[i]).download_id == id
                && record == old(db).rows()[i];
        assert(db.rows()[i].status is Downloading);
    }
    Ok(
        ResumeRequest {
            download_id: id,
            url: record.url,
            filename: record.filename,
            parts: record.parts,
        },
    )
}

/// What a delete request requires of the surrounding process.
pub enum DeletePlan {
    /// Remove the record; no file is touched.
    RemoveRecordOnly,
    /// Remove the file at this path first; abandon the delete if that
    /// fails, so the record survives for a retry.
    RemoveFileFirst(String),
    /// Nothing to delete.
    Missing,
}

/// Decides how a delete request proceeds: without `also_delete_file` the
/// record alone goes; with it, the file at the record's save path must go
/// first, when there is a non-empty one.
pub fn delete_download_plan(
    db: &DownloadDb,
    download_id: &str,
    should_also_delete_file: Option<bool>,
) -> (r: (u64, DeletePlan))
    requires
        db.wf(),
    ensures
        r.0 == wire_u64(download_id@),
        !(should_also_delete_file matches Some(true)) ==> r.1 is RemoveRecordOnly,
        should_also_delete_file matches Some(true) ==> {
            &&& !has_id(db.rows(), r.0) ==> r.1 is Missing
            &&& has_id(db.rows(), r.0) ==> exists|i: int|
                {
                    &&& 0 <= i < db.rows().len()
                    &&& (#[trigger] db.rows()[i]).download_id == r.0
                    &&& match db.rows()[i].save_path {
                        Some(p) => if p@.len() > 0 {
                            r.1 matches DeletePlan::RemoveFileFirst(q) && q@ == p@
                        } else {
                            r.1 is RemoveRecordOnly
                        },
                        None => r.1 is RemoveRecordOnly,
                    }
                }
        },
{
    let id = parse_u64_param(download_id);
    let also = match should_also_delete_file {
        Some(b) => b,
        None => false,
    };
    if !also {
        return (id, DeletePlan::RemoveRecordOnly);
    }
    let record = match db.get_download(id) {
        Some(d) => d,
        None => {
            return (id, DeletePlan::Missing);
        },
    };
    match record.save_path {
        Some(path) => {
            if path.as_str().unicode_len() > 0 {
                (id, DeletePlan::RemoveFileFirst(path))
            } else {
                (id, DeletePlan::RemoveRecordOnly)
            }
        },
        None => (id, DeletePlan::RemoveRecordOnly),
    }
}

/// Removes the record itself.
pub fn delete_from_database(db: &mut DownloadDb, download_id: u64) -> (r: Result<(), StoreError>)
    requires
        old(db).wf(),
    ensures
        final(db).wf(),
        progress_monotone(old(db).rows(), final(db).rows()),
        r is Ok <==> has_id(old(db).rows(), download_id),
        r is Ok ==> !has_id(final(db).rows(), download_id),
        r is Err ==> r == Err::<(), StoreError>(StoreError::NotFound) && *final(db) == *old(db),
{
    db.delete_download(download_id)
}

/// What kind of earlier download a request collides with.
#[derive(Clone, Copy, PartialEq, Eq, Structural, Debug)]
pub enum ExistingKind {
    /// Part files exist: a run is in progress or was interrupted.
    InProgress,
    /// The completed file exists in the downloads directory.
    Completed,
}

/// Answer to a collision check.
pub struct ExistingDownload {
    pub exists: bool,
    pub kind: Option<ExistingKind>,
    pub original_filename: String,
    /// The original name when nothing collides; otherwise the original
    /// with ` (k)` inserted before the extension, for the smallest `k`
    /// that no existing file uses.
    pub suggested_filename: String,
    pub part_files: usize,
}

/// Classifies what already exists for `url`'s file name.  The caller
/// reports whether the completed file exists, how many part files it
/// found, and which names the downloads directory holds; the verdict and
/// the suggested fresh name are computed here.  When anything exists, the
/// suggestion differs from the original name.
pub fn check_existing_download(
    url: &str,
    complete_file_exists: bool,
    part_file_count: usize,
    taken: &Vec<String>,
) -> (r: ExistingDownload)
    requires
        taken@.len() + 2 <= u64::MAX,
    ensures
        r.original_filename@ == file_name_of(url@),
        r.part_files == part_file_count,
        r.exists == (part_file_count > 0 || complete_file_exists),
        r.kind == (if part_file_count > 0 {
            Some(ExistingKind::InProgress)
        } else if complete_file_exists {
            Some(ExistingKind::Completed)
        } else {
            None::<ExistingKind>
        }),
        !r.exists ==> r.suggested_filename@ == file_name_of(url@),
        r.exists ==> exists|k: u64|
            {
                &&& 1 <= k <= taken@.len() + 1
                &&& r.suggested_filename@ == candidate_name(file_name_of(url@), k as nat)
                &&& !list_has(taken@, r.suggested_filename@)
                &&& forall|j: u64|
                    1 <= j < k ==> list_has(taken@, candidate_name(file_name_of(url@), j as nat))
            },
        r.exists ==> r.suggested_filename@ != r.original_filename@,
{
    let filename = get_file_name(url);
    let exists_now = part_file_count > 0 || complete_file_exists;
    if !exists_now {
        let suggested = filename.clone();
        return ExistingDownload {
            exists: false,
            kind: None,
            original_filename: filename,
            suggested_filename: suggested,
            part_files: part_file_count,
        };
    }
    let (suggested, k) = next_free_name(filename.as_str(), taken);
    proof {
        lemma_candidate_differs(file_name_of(url@), k as nat);
    }
    let kind = if part_file_count > 0 {
        Some(ExistingKind::InProgress)
    } else {
        Some(ExistingKind::Completed)
    };
    ExistingDownload {
        exists: true,
        kind,
        original_filename: filename,
        suggested_filename: suggested,
        part_files: part_file_count,
    }
}

} // verus!
