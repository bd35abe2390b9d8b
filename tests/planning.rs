use download_engine::checkpoint::{decode_download_state, encode_download_state, CheckpointError};
use download_engine::segment::{create_workers, WorkerInfo};

fn seg(start: u64, cursor: u64, end: u64) -> WorkerInfo {
    WorkerInfo { start_pos: start, current_pos: cursor, end_pos: end }
}

#[test]
fn plan_splits_evenly_with_remainder_in_last() {
    let w = create_workers(1003, 4);
    assert_eq!(w, vec![seg(0, 0, 250), seg(250, 250, 500), seg(500, 500, 750), seg(750, 750, 1003)]);
}

#[test]
fn plan_covers_every_offset_once() {
    for total in [1u64, 2, 7, 64, 65, 1000, 1048576] {
        for threads in 2u16..=64 {
            let w = create_workers(total, threads);
            assert_eq!(w.len(), threads as usize);
            assert_eq!(w[0].start_pos, 0);
            assert_eq!(w.last().unwrap().end_pos, total);
            for i in 1..w.len() {
                assert_eq!(w[i - 1].end_pos, w[i].start_pos);
                assert!(w[i].start_pos <= w[i].end_pos);
            }
        }
    }
}

#[test]
fn plan_with_one_thread_is_whole_file() {
    assert_eq!(create_workers(500, 1), vec![seg(0, 0, 500)]);
}

#[test]
fn checkpoint_text_format() {
    let text = encode_download_state(&[seg(0, 10, 250), seg(250, 250, 500)]);
    assert_eq!(text, b"0,10,250\n250,250,500\n".to_vec());
}

#[test]
fn checkpoint_round_trip_keeps_every_field() {
    let segs = vec![seg(0, 250, 250), seg(250, 300, 500), seg(500, 500, 750), seg(u64::MAX - 1, u64::MAX, u64::MAX)];
    let text = encode_download_state(&segs);
    assert_eq!(decode_download_state(&text), Ok(segs));
}

#[test]
fn checkpoint_skips_malformed_lines() {
    let text = b"garbage\n1,2\n0,5,10\r\n3,2,1\n10,10,20\n1,2,3,4\n-1,0,5\n+4,5,6".to_vec();
    assert_eq!(decode_download_state(&text), Ok(vec![seg(0, 5, 10), seg(10, 10, 20), seg(4, 5, 6)]));
}

#[test]
fn checkpoint_without_segments_fails() {
    assert_eq!(decode_download_state(b""), Err(CheckpointError::NoSegments));
    assert_eq!(decode_download_state(b"x,y,z\n\n"), Err(CheckpointError::NoSegments));
    assert_eq!(decode_download_state(b"1,2,99999999999999999999\n"), Err(CheckpointError::NoSegments));
}
