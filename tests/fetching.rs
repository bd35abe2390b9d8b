use download_engine::fetch::{ChunkWrite, FetchRejection, ResponseAction, SegmentFetch};
use download_engine::retry::{RetryDecision, RetryPolicy};
use download_engine::segment::WorkerInfo;

fn seg(start: u64, cursor: u64, end: u64) -> WorkerInfo {
    WorkerInfo { start_pos: start, current_pos: cursor, end_pos: end }
}

#[test]
fn range_header_asks_for_the_rest() {
    let f = SegmentFetch::new(seg(100, 150, 200));
    assert_eq!(f.next_request(), Some("bytes=150-199".to_string()));
    assert_eq!(SegmentFetch::new(seg(0, 0, 1)).next_request(), Some("bytes=0-0".to_string()));
    assert_eq!(SegmentFetch::new(seg(0, 10, 10)).next_request(), None);
}

#[test]
fn range_not_satisfiable_completes_without_writing() {
    let mut f = SegmentFetch::new(seg(0, 999, 1000));
    assert_eq!(f.on_response(416), ResponseAction::AlreadyComplete);
    assert!(f.is_complete());
    assert_eq!(f.segment, seg(0, 1000, 1000));
    assert!(!f.streaming);
    assert_eq!(f.next_request(), None);
}

#[test]
fn full_content_after_resume_is_rejected() {
    let mut f = SegmentFetch::new(seg(0, 10, 100));
    assert_eq!(f.on_response(200), ResponseAction::Reject(FetchRejection::FullContentAfterResume));
    assert_eq!(f.segment, seg(0, 10, 100));
    let mut g = SegmentFetch::new(seg(0, 0, 100));
    assert_eq!(g.on_response(200), ResponseAction::Stream);
    let mut h = SegmentFetch::new(seg(0, 0, 100));
    assert_eq!(h.on_response(503), ResponseAction::Reject(FetchRejection::UnexpectedStatus(503)));
}

#[test]
fn chunks_advance_cursor_and_clamp_at_end() {
    let mut f = SegmentFetch::new(seg(100, 100, 200));
    assert_eq!(f.on_response(206), ResponseAction::Stream);
    assert_eq!(f.on_chunk(60), ChunkWrite { skip: 0, len: 60, offset: 100 });
    assert_eq!(f.segment.current_pos, 160);
    assert_eq!(f.on_chunk(60), ChunkWrite { skip: 0, len: 40, offset: 160 });
    assert!(f.is_complete());
}

#[test]
fn whole_body_skips_bytes_before_segment() {
    let mut f = SegmentFetch::new(seg(100, 100, 200));
    assert_eq!(f.on_response(200), ResponseAction::Stream);
    assert_eq!(f.on_chunk(80), ChunkWrite { skip: 80, len: 0, offset: 100 });
    assert_eq!(f.on_chunk(50), ChunkWrite { skip: 20, len: 30, offset: 100 });
    assert_eq!(f.segment.current_pos, 130);
}

#[test]
fn segment_retries_ten_times_with_capped_backoff() {
    let policy = RetryPolicy::segment();
    let mut f = SegmentFetch::new(seg(0, 0, 100));
    let mut delays = Vec::new();
    loop {
        match f.on_failure(&policy) {
            RetryDecision::RetryAfter(d) => delays.push(d),
            RetryDecision::GiveUp => break,
        }
    }
    assert_eq!(delays, vec![2, 4, 8, 16, 32, 32, 32, 32, 32, 32]);
    assert_eq!(f.failures, 11);
}

#[test]
fn success_resets_failure_count() {
    let policy = RetryPolicy::segment();
    let mut f = SegmentFetch::new(seg(0, 0, 100));
    f.on_failure(&policy);
    f.on_failure(&policy);
    f.on_stream_end();
    assert_eq!(f.failures, 0);
}

#[test]
fn probe_policy_retries_three_times() {
    let p = RetryPolicy::probe();
    assert_eq!(p.after_failure(1), RetryDecision::RetryAfter(2));
    assert_eq!(p.after_failure(2), RetryDecision::RetryAfter(4));
    assert_eq!(p.after_failure(3), RetryDecision::RetryAfter(8));
    assert_eq!(p.after_failure(4), RetryDecision::GiveUp);
}

#[test]
fn segment_policy_caps_the_delay() {
    let p = RetryPolicy::segment();
    assert_eq!(p.after_failure(10), RetryDecision::RetryAfter(32));
    assert_eq!(p.after_failure(11), RetryDecision::GiveUp);
}
