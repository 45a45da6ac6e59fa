use speedy::engine::plan_sizes;
use speedy::merge::merge_parts;
use speedy::plan::{calculate_range, clamp_parts, plan_segments};
use speedy::worker::SegmentRun;

const MIB: u64 = 1048576;

#[test]
fn one_mib_in_five_segments() {
    let segs = plan_segments(MIB, 5);
    assert_eq!(segs.len(), 5);
    let sizes: Vec<u64> = segs.iter().map(|s| s.end - s.start + 1).collect();
    assert_eq!(sizes, vec![209715, 209715, 209715, 209715, 209716]);
    assert_eq!(segs[0].start, 0);
    assert_eq!(segs[4].end, MIB - 1);
    for i in 0..4 {
        assert_eq!(segs[i + 1].start, segs[i].end + 1);
    }
    let sized = plan_sizes(MIB, 5);
    assert_eq!(sized, vec![209715, 209715, 209715, 209715, 209716]);
    assert_eq!(sized.iter().sum::<u64>(), MIB);
}

#[test]
fn single_segment_covers_whole_resource() {
    let segs = plan_segments(MIB, 1);
    assert_eq!(segs.len(), 1);
    assert_eq!(segs[0].start, 0);
    assert_eq!(segs[0].end, MIB - 1);
}

#[test]
fn parts_clamp_to_thirty_two_and_one() {
    assert_eq!(clamp_parts(100), 32);
    assert_eq!(clamp_parts(0), 1);
    assert_eq!(clamp_parts(1), 1);
    assert_eq!(clamp_parts(32), 32);
    assert_eq!(clamp_parts(33), 32);
}

#[test]
fn range_formula_matches_plan() {
    let chunk = MIB / 5;
    assert_eq!(calculate_range(0, 5, chunk, MIB), (0, 209714));
    assert_eq!(calculate_range(4, 5, chunk, MIB), (4 * 209715, MIB - 1));
}

#[test]
fn merge_concatenates_in_segment_order() {
    let parts = vec![
        Some(vec![1u8, 2, 3]),
        Some(vec![4u8, 5]),
        Some(vec![6u8]),
    ];
    let out = merge_parts(&parts).unwrap();
    assert_eq!(out.bytes, vec![1, 2, 3, 4, 5, 6]);
    assert_eq!(out.merged_parts, 3);
    assert_eq!(out.total_bytes_merged, 6);
}

#[test]
fn merge_skips_missing_and_empty_parts() {
    let parts = vec![
        Some(vec![9u8, 9]),
        None,
        Some(vec![]),
        Some(vec![7u8]),
    ];
    let out = merge_parts(&parts).unwrap();
    assert_eq!(out.bytes, vec![9, 9, 7]);
    assert_eq!(out.merged_parts, 2);
    assert_eq!(out.total_bytes_merged, 3);
}

#[test]
fn merge_fails_with_no_usable_parts() {
    let parts: Vec<Option<Vec<u8>>> = vec![None, Some(vec![]), None];
    assert!(merge_parts(&parts).is_err());
}

#[test]
fn merged_size_equals_sum_when_all_parts_full() {
    let segs = plan_segments(1000, 4);
    let mut parts: Vec<Option<Vec<u8>>> = Vec::new();
    for s in &segs {
        parts.push(Some(vec![0u8; (s.end - s.start + 1) as usize]));
    }
    let out = merge_parts(&parts).unwrap();
    assert_eq!(out.total_bytes_merged, 1000);
}

#[test]
fn merge_reassembles_planned_slices() {
    let resource: Vec<u8> = (0..=255u8).cycle().take(5000).collect();
    let segs = plan_segments(5000, 3);
    let parts: Vec<Option<Vec<u8>>> = segs
        .iter()
        .map(|s| Some(resource[s.start as usize..=s.end as usize].to_vec()))
        .collect();
    let out = merge_parts(&parts).unwrap();
    assert_eq!(out.bytes, resource);
}

#[test]
fn resumed_parts_merge_to_same_artifact() {
    let resource: Vec<u8> = (0..200u8).collect();
    let segs = plan_segments(200, 2);
    // First run got half of each segment; the resumed run fetched the rest.
    let parts: Vec<Option<Vec<u8>>> = segs
        .iter()
        .map(|s| {
            let have = (s.end - s.start + 1) / 2;
            let mut bytes = resource[s.start as usize..(s.start + have) as usize].to_vec();
            bytes.extend_from_slice(&resource[(s.start + have) as usize..=s.end as usize]);
            Some(bytes)
        })
        .collect();
    let out = merge_parts(&parts).unwrap();
    assert_eq!(out.bytes, resource);
}

#[test]
fn worker_requests_remaining_range() {
    let run = SegmentRun::new(100, 199, 0);
    assert_eq!(run.range_header().as_str(), "bytes=100-199");
    let resumed = SegmentRun::new(100, 199, 40);
    assert_eq!(resumed.range_header().as_str(), "bytes=140-199");
    assert_eq!(resumed.resume_report(), Some(40));
    assert_eq!(run.resume_report(), None);
}

#[test]
fn worker_reports_at_threshold_and_completion() {
    let mut run = SegmentRun::new(0, 99999, 0);
    // Below the 16 KiB threshold: no report yet.
    assert_eq!(run.on_chunk(1000), None);
    assert_eq!(run.on_chunk(15000), None);
    // Crosses the threshold: the whole unreported growth comes out.
    assert_eq!(run.on_chunk(1000), Some(17000));
    // Reaching the segment size always reports.
    assert_eq!(run.on_chunk(100000), Some(83000));
    assert!(run.is_done());
    // Everything was reported; nothing owed at end of stream.
    assert_eq!(run.finish(), None);
}

#[test]
fn worker_tops_up_short_streams() {
    let mut run = SegmentRun::new(0, 9999, 0);
    // Below the threshold: the 4000 received bytes stay unreported.
    assert_eq!(run.on_chunk(4000), None);
    // Stream ended early: one report brings the reported total to the size.
    assert_eq!(run.finish(), Some(10000));
}

#[test]
fn worker_clamps_counter_at_segment_size() {
    let mut run = SegmentRun::new(0, 999, 0);
    let reported = run.on_chunk(5000);
    assert_eq!(reported, Some(1000));
    assert!(run.is_done());
}
