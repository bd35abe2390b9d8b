use download_engine::checkpoint::{decode_download_state, encode_download_state};
use download_engine::orchestrate::{
    admission_limit, already_downloaded, finish_segmented, pending_segments, plan_download, single_stream_accepts,
    uses_segments, DownloadError, DownloadPlan, DownloadState,
};
use download_engine::probe::DownloadTarget;
use download_engine::segment::{create_workers, WorkerInfo};

fn target(total: u64, range: bool) -> DownloadTarget {
    DownloadTarget { url: "https://h/f.bin".to_string(), filename: "f.bin".to_string(), total_length: total, supports_range: range }
}

fn seg(start: u64, cursor: u64, end: u64) -> WorkerInfo {
    WorkerInfo { start_pos: start, current_pos: cursor, end_pos: end }
}

#[test]
fn single_stream_when_segments_cannot_be_used() {
    assert_eq!(plan_download(1, &target(1000, true), None), DownloadPlan::SingleStream);
    assert_eq!(plan_download(8, &target(1000, false), None), DownloadPlan::SingleStream);
    assert_eq!(plan_download(8, &target(0, true), None), DownloadPlan::SingleStream);
    assert_eq!(plan_download(0, &target(1000, true), None), DownloadPlan::SingleStream);
    let text = encode_download_state(&[seg(0, 5, 10)]);
    assert_eq!(plan_download(1, &target(10, true), Some(&text)), DownloadPlan::SingleStream);
}

#[test]
fn fresh_plan_without_checkpoint() {
    assert_eq!(
        plan_download(4, &target(1000, true), None),
        DownloadPlan::Segmented { segments: create_workers(1000, 4), resumed: false }
    );
    assert_eq!(
        plan_download(4, &target(1000, true), Some(b"corrupt\n")),
        DownloadPlan::Segmented { segments: create_workers(1000, 4), resumed: false }
    );
}

#[test]
fn resume_fetches_only_unfinished_segments() {
    let saved = vec![seg(0, 250, 250), seg(250, 300, 500), seg(500, 500, 750), seg(750, 900, 1000)];
    let text = encode_download_state(&saved);
    let plan = plan_download(4, &target(1000, true), Some(&text));
    assert_eq!(plan, DownloadPlan::Segmented { segments: saved.clone(), resumed: true });
    assert_eq!(pending_segments(&saved), vec![1, 2, 3]);
    assert_eq!(already_downloaded(&saved), 250 + 50 + 0 + 150);
}

#[test]
fn concurrency_is_bounded() {
    assert_eq!(admission_limit(4), 4);
    assert_eq!(admission_limit(16), 16);
    assert_eq!(admission_limit(64), 16);
}

#[test]
fn short_file_fails_and_keeps_checkpoint() {
    let c = finish_segmented(vec![], 999999, 1000000);
    assert_eq!(c.outcome, Err(DownloadError::SizeMismatch { expected: 1000000, actual: 999999 }));
    assert!(!c.delete_checkpoint);
}

#[test]
fn failed_segments_fail_the_run() {
    let c = finish_segmented(vec![1, 3], 1000, 1000);
    assert_eq!(c.outcome, Err(DownloadError::SegmentsFailed(vec![1, 3])));
    assert!(!c.delete_checkpoint);
}

#[test]
fn complete_file_succeeds_and_deletes_checkpoint() {
    let c = finish_segmented(vec![], 1000, 1000);
    assert_eq!(c.outcome, Ok(()));
    assert!(c.delete_checkpoint);
}

#[test]
fn single_stream_status() {
    assert!(single_stream_accepts(200));
    assert!(single_stream_accepts(206));
    assert!(!single_stream_accepts(404));
}

#[test]
fn state_records_latest_segments_for_checkpoint() {
    let mut state = DownloadState::new(create_workers(1000, 4));
    state.record(1, seg(250, 400, 500));
    state.record(9, seg(0, 0, 0));
    assert_eq!(state.segments, vec![seg(0, 0, 250), seg(250, 400, 500), seg(500, 500, 750), seg(750, 750, 1000)]);
    assert_eq!(decode_download_state(&state.checkpoint_text()), Ok(state.segments.clone()));
    assert_eq!(
        state.checkpoint_text(),
        b"0,0,250\n250,400,500\n500,500,750\n750,750,1000\n".to_vec()
    );
}

#[test]
fn interrupted_run_resumes_without_first_segment() {
    let mut segments = create_workers(4000, 4);
    segments[0].current_pos = segments[0].end_pos;
    segments[2].current_pos = 2500;
    let text = encode_download_state(&segments);
    match plan_download(4, &target(4000, true), Some(&text)) {
        DownloadPlan::Segmented { segments: resumed, resumed: true } => {
            assert_eq!(resumed, segments);
            let pending = pending_segments(&resumed);
            assert_eq!(pending, vec![1, 2, 3]);
            for i in pending {
                assert!(resumed[i].start_pos >= resumed[0].end_pos);
            }
        }
        other => panic!("expected a resumed plan, got {:?}", other),
    }
}

#[test]
fn checkpoint_of_another_size_is_ignored() {
    let other = encode_download_state(&[seg(0, 100, 500), seg(500, 500, 900)]);
    assert_eq!(
        plan_download(4, &target(1000, true), Some(&other)),
        DownloadPlan::Segmented { segments: create_workers(1000, 4), resumed: false }
    );
    let gap = encode_download_state(&[seg(0, 100, 400), seg(500, 500, 1000)]);
    assert_eq!(
        plan_download(4, &target(1000, true), Some(&gap)),
        DownloadPlan::Segmented { segments: create_workers(1000, 4), resumed: false }
    );
}

#[test]
fn checkpoint_is_consulted_only_for_segments() {
    assert!(uses_segments(4, &target(1000, true)));
    assert!(!uses_segments(1, &target(1000, true)));
    assert!(!uses_segments(4, &target(0, true)));
    assert!(!uses_segments(4, &target(1000, false)));
}
