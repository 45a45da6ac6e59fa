use speedy::errors::StoreError;
use speedy::store::{status_str, Download, DownloadDb, DownloadStatus};

fn record(id: u64, created_at: &str) -> Download {
    let mut d = Download::new(
        id,
        format!("https://example.com/{id}.bin"),
        format!("{id}.bin"),
        1000,
        4,
    );
    d.created_at = created_at.to_string();
    d
}

#[test]
fn insert_then_get_round_trips() {
    let mut db = DownloadDb::new();
    let rid = db.insert_download(&record(7, "2024-01-01T00:00:00+00:00")).unwrap();
    assert_eq!(rid, 1);
    let got = db.get_download(7).unwrap();
    assert_eq!(got.download_id, 7);
    assert_eq!(got.id, Some(1));
    assert_eq!(got.total_size, 1000);
    assert!(matches!(got.status, DownloadStatus::Downloading));
    assert!(db.get_download(8).is_none());
}

#[test]
fn duplicate_download_id_is_refused() {
    let mut db = DownloadDb::new();
    db.insert_download(&record(7, "2024-01-01T00:00:00+00:00")).unwrap();
    let second = db.insert_download(&record(7, "2024-01-02T00:00:00+00:00"));
    assert!(matches!(second, Err(StoreError::DuplicateDownloadId)));
}

#[test]
fn progress_accumulates_and_clips_at_total() {
    let mut db = DownloadDb::new();
    db.insert_download(&record(1, "2024-01-01T00:00:00+00:00")).unwrap();
    db.update_progress(1, 300).unwrap();
    assert_eq!(db.get_download(1).unwrap().downloaded_bytes, 300);
    db.update_progress(1, 300).unwrap();
    assert_eq!(db.get_download(1).unwrap().downloaded_bytes, 600);
    db.update_progress(1, 900).unwrap();
    assert_eq!(db.get_download(1).unwrap().downloaded_bytes, 1000);
}

#[test]
fn downloaded_bytes_never_decrease_across_reads() {
    let mut db = DownloadDb::new();
    db.insert_download(&record(1, "2024-01-01T00:00:00+00:00")).unwrap();
    let mut seen = 0;
    for delta in [10u64, 0, 250, 5, 0, 900] {
        db.update_progress(1, delta).unwrap();
        let now = db.get_download(1).unwrap().downloaded_bytes;
        assert!(now >= seen);
        seen = now;
    }
}

#[test]
fn completion_sets_path_and_time_together() {
    let mut db = DownloadDb::new();
    db.insert_download(&record(1, "2024-01-01T00:00:00+00:00")).unwrap();

    let before = db.get_download(1).unwrap();
    assert!(!matches!(before.status, DownloadStatus::Completed));
    assert!(before.save_path.is_none() || before.completed_at.is_none());

    db.mark_complete(1, "/downloads/1.bin").unwrap();
    let after = db.get_download(1).unwrap();
    assert!(matches!(after.status, DownloadStatus::Completed));
    assert_eq!(after.save_path.as_deref(), Some("/downloads/1.bin"));
    assert!(after.completed_at.is_some());
}

#[test]
fn errors_carry_a_message_exactly_when_errored() {
    let mut db = DownloadDb::new();
    db.insert_download(&record(1, "2024-01-01T00:00:00+00:00")).unwrap();
    assert!(db.get_download(1).unwrap().error_message.is_none());
    db.mark_error(1, "Server returned error status 404").unwrap();
    let errored = db.get_download(1).unwrap();
    assert!(matches!(errored.status, DownloadStatus::Error));
    assert_eq!(
        errored.error_message.as_deref(),
        Some("Server returned error status 404")
    );
    db.update_status(1, DownloadStatus::Paused).unwrap();
    assert!(db.get_download(1).unwrap().error_message.is_none());
}

#[test]
fn listing_is_newest_first() {
    let mut db = DownloadDb::new();
    db.insert_download(&record(1, "2024-01-02T00:00:00+00:00")).unwrap();
    db.insert_download(&record(2, "2024-03-01T00:00:00+00:00")).unwrap();
    db.insert_download(&record(3, "2024-01-15T09:30:00+00:00")).unwrap();
    let all = db.list_downloads();
    let ids: Vec<u64> = all.iter().map(|d| d.download_id).collect();
    assert_eq!(ids, vec![2, 3, 1]);
}

#[test]
fn listing_by_status_filters_and_sorts() {
    let mut db = DownloadDb::new();
    db.insert_download(&record(1, "2024-01-02T00:00:00+00:00")).unwrap();
    db.insert_download(&record(2, "2024-03-01T00:00:00+00:00")).unwrap();
    db.insert_download(&record(3, "2024-02-01T00:00:00+00:00")).unwrap();
    db.update_status(1, DownloadStatus::Paused).unwrap();
    db.update_status(3, DownloadStatus::Paused).unwrap();

    let paused = db.get_downloads_by_status("paused");
    let ids: Vec<u64> = paused.iter().map(|d| d.download_id).collect();
    assert_eq!(ids, vec![3, 1]);

    let downloading = db.get_downloads_by_status("downloading");
    assert_eq!(downloading.len(), 1);
    assert_eq!(downloading[0].download_id, 2);

    assert!(db.get_downloads_by_status("completed").is_empty());
}

#[test]
fn delete_removes_exactly_the_record() {
    let mut db = DownloadDb::new();
    db.insert_download(&record(1, "2024-01-01T00:00:00+00:00")).unwrap();
    db.insert_download(&record(2, "2024-01-02T00:00:00+00:00")).unwrap();
    db.delete_download(1).unwrap();
    assert!(db.get_download(1).is_none());
    assert!(db.get_download(2).is_some());
    assert!(matches!(db.delete_download(1), Err(StoreError::NotFound)));
}

#[test]
fn whole_record_update_needs_a_row_id() {
    let mut db = DownloadDb::new();
    db.insert_download(&record(1, "2024-01-01T00:00:00+00:00")).unwrap();
    let detached = record(1, "2024-01-01T00:00:00+00:00");
    assert!(detached.id.is_none());
    assert!(matches!(
        db.update_download(&detached),
        Err(StoreError::MissingRowId)
    ));
}

#[test]
fn whole_record_update_cannot_lower_the_counter() {
    let mut db = DownloadDb::new();
    db.insert_download(&record(1, "2024-01-01T00:00:00+00:00")).unwrap();
    db.update_progress(1, 400).unwrap();
    let mut stale = db.get_download(1).unwrap();
    stale.downloaded_bytes = 100;
    assert!(matches!(
        db.update_download(&stale),
        Err(StoreError::ProgressRegression)
    ));
    assert_eq!(db.get_download(1).unwrap().downloaded_bytes, 400);
}

#[test]
fn whole_record_update_rejects_colliding_ids() {
    let mut db = DownloadDb::new();
    db.insert_download(&record(1, "2024-01-01T00:00:00+00:00")).unwrap();
    db.insert_download(&record(2, "2024-01-02T00:00:00+00:00")).unwrap();
    let mut moved = db.get_download(2).unwrap();
    moved.download_id = 1;
    assert!(matches!(
        db.update_download(&moved),
        Err(StoreError::DuplicateDownloadId)
    ));
}

#[test]
fn whole_record_update_replaces_the_fields() {
    let mut db = DownloadDb::new();
    db.insert_download(&record(1, "2024-01-01T00:00:00+00:00")).unwrap();
    let mut grown = db.get_download(1).unwrap();
    grown.total_size = 4096;
    db.update_download(&grown).unwrap();
    assert_eq!(db.get_download(1).unwrap().total_size, 4096);
}

#[test]
fn store_error_messages_are_not_empty() {
    for e in [
        StoreError::DuplicateDownloadId,
        StoreError::NotFound,
        StoreError::MissingRowId,
        StoreError::ProgressRegression,
    ] {
        assert!(!e.message().is_empty());
    }
}

#[test]
fn status_names_match_the_wire() {
    assert_eq!(status_str(DownloadStatus::Queued), "queued");
    assert_eq!(status_str(DownloadStatus::Downloading), "downloading");
    assert_eq!(status_str(DownloadStatus::Paused), "paused");
    assert_eq!(status_str(DownloadStatus::Completed), "completed");
    assert_eq!(status_str(DownloadStatus::Error), "error");
}
