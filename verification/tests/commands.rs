use speedy::api::{
    apply_event, check_existing_download, delete_download_plan, delete_from_database,
    pause_download, resume_download, start_download, DeletePlan, ExistingKind,
};
use speedy::engine::{probe_outcome, validate_url, DownloadEvent};
use speedy::errors::{DownloadError, StoreError};
use speedy::store::{DownloadDb, DownloadStatus};

#[test]
fn download_error_messages_are_not_empty() {
    for e in [
        DownloadError::InvalidUrl,
        DownloadError::HttpStatus(500),
        DownloadError::MissingContentLength,
        DownloadError::InvalidContentLength,
        DownloadError::EmptyContent,
        DownloadError::NoUsableParts,
        DownloadError::EmptySegmentFile(3),
    ] {
        assert!(!e.message().is_empty());
    }
    assert_eq!(
        DownloadError::EmptySegmentFile(3).message().as_str(),
        "Segment file is empty after download: segment 3"
    );
}

#[test]
fn url_validation_requires_http_scheme() {
    assert!(validate_url("http://example.com/a"));
    assert!(validate_url("https://example.com/a"));
    assert!(!validate_url("ftp://example.com/a"));
    assert!(!validate_url("example.com/a"));
    assert!(!validate_url(""));
}

#[test]
fn probe_rejects_error_status_with_message() {
    let r = probe_outcome(404, Some(&"1000".to_string()));
    assert!(matches!(r, Err(DownloadError::HttpStatus(404))));
    let msg = DownloadError::HttpStatus(404).message();
    assert!(!msg.is_empty());
    assert_eq!(msg.as_str(), "Server returned error status 404");
}

#[test]
fn probe_requires_positive_numeric_length() {
    assert!(matches!(
        probe_outcome(200, None),
        Err(DownloadError::MissingContentLength)
    ));
    assert!(matches!(
        probe_outcome(200, Some(&"garbage".to_string())),
        Err(DownloadError::InvalidContentLength)
    ));
    assert!(matches!(
        probe_outcome(200, Some(&"0".to_string())),
        Err(DownloadError::EmptyContent)
    ));
    assert_eq!(probe_outcome(200, Some(&"1048576".to_string())).unwrap(), 1048576);
    assert_eq!(probe_outcome(206, Some(&"5".to_string())).unwrap(), 5);
}

#[test]
fn start_records_a_fresh_download() {
    let mut db = DownloadDb::new();
    let req = start_download(&mut db, "https://example.com/video.mp4?x=1", "5", Some(42));
    assert_eq!(req.download_id, 42);
    assert_eq!(req.filename.as_str(), "video.mp4");
    assert_eq!(req.parts, 5);
    let rec = db.get_download(42).unwrap();
    assert_eq!(rec.filename.as_str(), "video.mp4");
    assert_eq!(rec.total_size, 0);
    assert!(matches!(rec.status, DownloadStatus::Downloading));
}

#[test]
fn restart_with_same_id_keeps_the_record() {
    let mut db = DownloadDb::new();
    start_download(&mut db, "https://example.com/a.bin", "3", Some(1));
    db.update_progress(1, 500).unwrap();
    // Resuming re-runs the start path with the same id; the insert is
    // refused and the recorded progress survives.
    start_download(&mut db, "https://example.com/a.bin", "3", Some(1));
    assert_eq!(db.get_download(1).unwrap().downloaded_bytes, 500);
    assert_eq!(db.list_downloads().len(), 1);
}

#[test]
fn lifecycle_events_drive_the_record() {
    let mut db = DownloadDb::new();
    start_download(&mut db, "https://example.com/a.bin", "2", Some(9));

    let init = DownloadEvent::Initialize { file_size: 1000, segments: vec![500, 500] };
    apply_event(&mut db, 9, &init, "").unwrap();
    assert_eq!(db.get_download(9).unwrap().total_size, 1000);

    let bytes = DownloadEvent::BytesReceived { segment_id: 1, bytes: 400, speed: 10 };
    apply_event(&mut db, 9, &bytes, "").unwrap();
    assert_eq!(db.get_download(9).unwrap().downloaded_bytes, 400);

    let done = DownloadEvent::Complete;
    apply_event(&mut db, 9, &done, "/downloads/a.bin").unwrap();
    let rec = db.get_download(9).unwrap();
    assert!(matches!(rec.status, DownloadStatus::Completed));
    assert_eq!(rec.save_path.as_deref(), Some("/downloads/a.bin"));
    assert!(rec.completed_at.is_some());
}

#[test]
fn worker_error_marks_the_record() {
    let mut db = DownloadDb::new();
    start_download(&mut db, "https://example.com/a.bin", "2", Some(9));
    let event = DownloadEvent::Error {
        segment_id: 2,
        message: DownloadError::HttpStatus(404).message(),
    };
    apply_event(&mut db, 9, &event, "").unwrap();
    let rec = db.get_download(9).unwrap();
    assert!(matches!(rec.status, DownloadStatus::Error));
    let msg = rec.error_message.unwrap();
    assert!(!msg.is_empty());
}

#[test]
fn pause_then_resume_restores_downloading() {
    let mut db = DownloadDb::new();
    start_download(&mut db, "https://example.com/big.iso", "4", Some(5));
    pause_download(&mut db, "5").unwrap();
    assert!(matches!(
        db.get_download(5).unwrap().status,
        DownloadStatus::Paused
    ));
    let req = resume_download(&mut db, "5").unwrap();
    assert_eq!(req.download_id, 5);
    assert_eq!(req.url.as_str(), "https://example.com/big.iso");
    assert_eq!(req.filename.as_str(), "big.iso");
    assert_eq!(req.parts, 4);
    assert!(matches!(
        db.get_download(5).unwrap().status,
        DownloadStatus::Downloading
    ));
    assert!(matches!(
        resume_download(&mut db, "77"),
        Err(StoreError::NotFound)
    ));
}

#[test]
fn delete_plans_respect_the_file_flag() {
    let mut db = DownloadDb::new();
    start_download(&mut db, "https://example.com/a.bin", "1", Some(3));

    let (id, plan) = delete_download_plan(&db, "3", None);
    assert_eq!(id, 3);
    assert!(matches!(plan, DeletePlan::RemoveRecordOnly));

    // No save path recorded yet: nothing to remove from disk.
    let (_, plan) = delete_download_plan(&db, "3", Some(true));
    assert!(matches!(plan, DeletePlan::RemoveRecordOnly));

    db.mark_complete(3, "/downloads/a.bin").unwrap();
    let (_, plan) = delete_download_plan(&db, "3", Some(true));
    match plan {
        DeletePlan::RemoveFileFirst(p) => assert_eq!(p.as_str(), "/downloads/a.bin"),
        _ => panic!("expected a file removal step"),
    }

    let (_, plan) = delete_download_plan(&db, "99", Some(true));
    assert!(matches!(plan, DeletePlan::Missing));

    delete_from_database(&mut db, 3).unwrap();
    assert!(db.get_download(3).is_none());
}

#[test]
fn completed_download_is_reported_with_fresh_name() {
    let taken = vec!["video.mp4".to_string()];
    let r = check_existing_download("https://example.com/video.mp4", true, 0, &taken);
    assert!(r.exists);
    assert!(matches!(r.kind, Some(ExistingKind::Completed)));
    assert_eq!(r.original_filename.as_str(), "video.mp4");
    assert_eq!(r.suggested_filename.as_str(), "video (1).mp4");
    assert_ne!(r.suggested_filename, r.original_filename);
}

#[test]
fn part_files_win_over_completed_file() {
    let taken = vec!["video.mp4".to_string()];
    let r = check_existing_download("https://example.com/video.mp4", true, 3, &taken);
    assert!(r.exists);
    assert!(matches!(r.kind, Some(ExistingKind::InProgress)));
    assert_eq!(r.part_files, 3);
}

#[test]
fn nothing_existing_keeps_the_original_name() {
    let taken: Vec<String> = vec![];
    let r = check_existing_download("https://example.com/video.mp4", false, 0, &taken);
    assert!(!r.exists);
    assert!(r.kind.is_none());
    assert_eq!(r.suggested_filename.as_str(), "video.mp4");
}
