use speedy::highwater::HighWaterMarkTracker;
use speedy::progress::{DownloadProgress, DownloadState, SegmentProgress};

fn state_for(sizes: &[u64]) -> DownloadState {
    let mut st = DownloadState::new();
    let v: Vec<u64> = sizes.to_vec();
    st.initialize(v.iter().sum(), &v);
    st
}

#[test]
fn aggregate_equals_sum_of_segments() {
    let mut st = state_for(&[500, 500, 1000]);
    st.add_bytes(1, 100, 10);
    st.add_bytes(2, 250, 20);
    st.add_bytes(3, 400, 30);
    let snap = st.snapshot(7, 1000);
    let sum: u64 = snap.segments.iter().map(|s| s.downloaded).sum();
    assert_eq!(snap.completed, sum);
    assert_eq!(snap.completed, 750);
}

#[test]
fn segment_counters_never_exceed_their_size() {
    let mut st = state_for(&[100, 100]);
    st.add_bytes(1, 5000, 1);
    let snap = st.snapshot(1, 100);
    assert_eq!(snap.segments[0].downloaded, 100);
    assert_eq!(snap.segments[0].progress, 100);
    assert_eq!(snap.completed, 100);
}

#[test]
fn segment_progress_is_percentage_of_size() {
    let mut st = state_for(&[200, 800]);
    st.add_bytes(1, 50, 0);
    st.add_bytes(2, 200, 0);
    assert_eq!(st.get_segment_progress(1), 25);
    assert_eq!(st.get_segment_progress(2), 25);
    assert_eq!(st.get_total_progress(), 25);
    let snap = st.snapshot(1, 0);
    assert_eq!(snap.segments[0].progress, 25);
    assert_eq!(snap.segments[1].progress, 25);
}

#[test]
fn unknown_segment_ids_are_ignored() {
    let mut st = state_for(&[100]);
    st.add_bytes(0, 50, 0);
    st.add_bytes(2, 50, 0);
    assert_eq!(st.snapshot(1, 0).completed, 0);
}

#[test]
fn speed_only_rises_per_segment() {
    let mut st = state_for(&[1000]);
    st.add_bytes(1, 10, 500);
    st.add_bytes(1, 10, 200);
    let snap = st.snapshot(1, 0);
    assert_eq!(snap.segments[0].speed, 500);
    st.add_bytes(1, 10, 900);
    assert_eq!(st.snapshot(1, 0).segments[0].speed, 900);
}

#[test]
fn completion_forces_full_progress() {
    let mut st = state_for(&[100]);
    st.add_bytes(1, 100, 0);
    st.mark_complete();
    let snap = st.snapshot(1, 1000);
    assert_eq!(snap.progress, 100);
}

#[test]
fn average_speed_and_time_left() {
    let mut st = state_for(&[1000]);
    st.add_bytes(1, 500, 0);
    // 500 bytes over 2 seconds: 250 bytes per second, 2 seconds left.
    assert_eq!(st.get_average_speed(2000), 250);
    assert_eq!(st.get_estimated_time_left(2000), 2);
    assert_eq!(st.get_average_speed(0), 0);
    assert_eq!(st.get_estimated_time_left(0), 0);
}

#[test]
fn integer_percentages_track_the_real_ratio() {
    for (downloaded, total) in [(0u64, 7u64), (1, 7), (3, 7), (7, 7), (50, 200), (209715, 209716)] {
        let mut st = state_for(&[total]);
        st.add_bytes(1, downloaded, 0);
        let pct = st.get_segment_progress(1) as f64;
        let real = 100.0 * downloaded as f64 / total as f64;
        assert!(pct <= real && real - pct < 1.0);
    }
}

fn row(id: u64, total: u64, downloaded: u64) -> SegmentProgress {
    SegmentProgress {
        id,
        total_bytes: total,
        downloaded,
        progress: if total > 0 { (100 * downloaded / total) as u64 } else { 0 },
        speed: 0,
    }
}

fn snap_with(completed: u64, progress: u64, rows: Vec<SegmentProgress>) -> DownloadProgress {
    DownloadProgress {
        download_id: 1,
        progress,
        file_size: 1000,
        completed,
        speed: 0,
        estimated_time_left: 0,
        segments: rows,
    }
}

#[test]
fn stale_readings_are_vetoed_by_high_water_marks() {
    let mut tracker = HighWaterMarkTracker::new();
    let mut first = snap_with(600, 60, vec![row(1, 500, 300), row(2, 500, 300)]);
    tracker.ensure_monotonic_progress(&mut first);
    assert_eq!(first.completed, 600);
    assert_eq!(first.progress, 60);
    assert_eq!(first.segments[0].downloaded, 300);

    // A stale snapshot arrives: everything below the marks is replaced.
    let mut stale = snap_with(400, 40, vec![row(1, 500, 200), row(2, 500, 200)]);
    tracker.ensure_monotonic_progress(&mut stale);
    assert_eq!(stale.completed, 600);
    assert_eq!(stale.progress, 60);
    assert_eq!(stale.segments[0].downloaded, 300);
    assert_eq!(stale.segments[0].progress, 60);
    assert_eq!(stale.segments[1].downloaded, 300);

    // A genuinely newer snapshot passes through unchanged.
    let mut newer = snap_with(800, 80, vec![row(1, 500, 500), row(2, 500, 300)]);
    tracker.ensure_monotonic_progress(&mut newer);
    assert_eq!(newer.completed, 800);
    assert_eq!(newer.progress, 80);
    assert_eq!(newer.segments[0].downloaded, 500);
    assert_eq!(newer.segments[0].progress, 100);
}

#[test]
fn every_monotone_field_is_nondecreasing_across_emissions() {
    let mut tracker = HighWaterMarkTracker::new();
    let inputs = vec![
        snap_with(100, 10, vec![row(1, 500, 60), row(2, 500, 40)]),
        snap_with(90, 9, vec![row(1, 500, 50), row(2, 500, 40)]),
        snap_with(300, 30, vec![row(1, 500, 100), row(2, 500, 200)]),
        snap_with(250, 25, vec![row(1, 500, 120), row(2, 500, 130)]),
    ];
    let mut last: Option<DownloadProgress> = None;
    for mut snap in inputs {
        tracker.ensure_monotonic_progress(&mut snap);
        if let Some(prev) = &last {
            assert!(snap.completed >= prev.completed);
            assert!(snap.progress >= prev.progress);
            for (a, b) in prev.segments.iter().zip(snap.segments.iter()) {
                assert!(b.downloaded >= a.downloaded);
                assert!(b.progress >= a.progress);
            }
        }
        last = Some(snap);
    }
}
