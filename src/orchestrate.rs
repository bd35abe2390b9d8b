//! The decisions of a download run: single stream or segments, resume or
//! fresh plan, which segments to dispatch, and whether the run succeeded.

use vstd::prelude::*;
use crate::checkpoint::{
    decode_download_state, decode_spec, encode_download_state, lemma_checkpoint_round_trip,
    lemma_segments_in_wf, state_bytes, CheckpointError,
};
use crate::progress::{cap, DownloadEventType};
use crate::probe::DownloadTarget;
use crate::segment::{
    create_workers, lemma_plan_tiles, lemma_tiles_ordered, plan, tiles, tiles_file, WorkerInfo,
};

verus! {

/// Segments never run more than this many at once.
pub const MAX_CONCURRENCY: usize = 16;

/// What the caller asks for.
#[derive(Debug, Clone, PartialEq, Eq)]
pub struct DownloadConfig {
    pub url: String,
    /// A file path, or a directory to save under the resolved name.
    pub save_path: String,
    pub thread_count: u16,
    pub event_type: DownloadEventType,
}

/// How the file will be fetched.
#[derive(Debug, Clone, PartialEq, Eq)]
pub enum DownloadPlan {
    /// One request for the whole resource, written from offset 0.
    SingleStream,
    /// Ranged requests, one per segment; `resumed` when the segments come
    /// from a checkpoint.
    Segmented { segments: Vec<WorkerInfo>, resumed: bool },
}

/// Why a download run failed.
#[derive(Debug, Clone, PartialEq, Eq)]
pub enum DownloadError {
    /// The segments at these indices failed after their retries.
    SegmentsFailed(Vec<usize>),
    /// The file on disk does not have the expected length.
    SizeMismatch { expected: u64, actual: u64 },
}

/// The end of a segmented run: its outcome, and whether the checkpoint is
/// to be deleted.
#[derive(Debug, PartialEq, Eq)]
pub struct Completion {
    pub outcome: Result<(), DownloadError>,
    pub delete_checkpoint: bool,
}

/// Segments are used only when byte ranges are served, the size is known
/// and more than one thread is asked for.
pub open spec fn segmented_spec(supports_range: bool, total_length: u64, thread_count: u16) -> bool {
    supports_range && total_length > 0 && thread_count > 1
}

/// Whether segments are used for `target` with `thread_count` threads; only
/// then is a checkpoint of use.
pub fn uses_segments(thread_count: u16, target: &DownloadTarget) -> (r: bool)
    ensures
        r == segmented_spec(target.supports_range, target.total_length, thread_count),
{
    target.supports_range && target.total_length > 0 && thread_count > 1
}

/// The segments to fetch, and whether they are resumed, given the text of
/// the checkpoint file (if there was one): the checkpoint's segments where
/// it loads and they cover `[0, total)` without gap or overlap; else a
/// fresh plan of `thread_count` segments.
pub open spec fn segments_for(checkpoint: Option<Seq<u8>>, total: nat, thread_count: nat) -> (
    Seq<WorkerInfo>,
    bool,
) {
    match checkpoint {
        Some(text) => match decode_spec(text) {
            Ok(saved) => if tiles(saved, total) {
                (saved, true)
            } else {
                (plan(total, thread_count), false)
            },
            Err(_) => (plan(total, thread_count), false),
        },
        None => (plan(total, thread_count), false),
    }
}

/// The plan for `target` with `thread_count` threads and the text of the
/// checkpoint file, if there was one. A single stream wherever segments
/// are not used, with no segments planned; else the segments that
/// `segments_for` gives, which are well formed and cover the file.
pub fn plan_download(thread_count: u16, target: &DownloadTarget, checkpoint: Option<&[u8]>) -> (r:
    DownloadPlan)
    ensures
        !segmented_spec(target.supports_range, target.total_length, thread_count) ==> r
            == DownloadPlan::SingleStream,
        segmented_spec(target.supports_range, target.total_length, thread_count) ==> (
        match r {
            DownloadPlan::Segmented { segments, resumed } => (segments@, resumed) == segments_for(
                match checkpoint {
                    Some(text) => Some(text@),
                    None => None,
                },
                target.total_length as nat,
                thread_count as nat,
            ),
            DownloadPlan::SingleStream => false,
        }),
        r matches DownloadPlan::Segmented { segments, resumed } ==> (forall|i: int|
            0 <= i < segments@.len() ==> (#[trigger] segments@[i]).wf()) && tiles(
            segments@,
            target.total_length as nat,
        ),
{
    if !uses_segments(thread_count, target) {
        return DownloadPlan::SingleStream;
    }
    proof {
        lemma_plan_tiles(target.total_length as nat, thread_count as nat);
        match checkpoint {
            Some(text) => lemma_segments_in_wf(text@),
            None => {},
        }
    }
    match checkpoint {
        Some(text) => match decode_download_state(text) {
            Ok(saved) => {
                if tiles_file(saved.as_slice(), target.total_length) {
                    DownloadPlan::Segmented { segments: saved, resumed: true }
                } else {
                    DownloadPlan::Segmented {
                        segments: create_workers(target.total_length, thread_count),
                        resumed: false,
                    }
                }
            },
            Err(_) => DownloadPlan::Segmented {
                segments: create_workers(target.total_length, thread_count),
                resumed: false,
            },
        },
        None => DownloadPlan::Segmented {
            segments: create_workers(target.total_length, thread_count),
            resumed: false,
        },
    }
}

/// The segments of one download, as the fetchers last reported them.
pub struct DownloadState {
    pub segments: Vec<WorkerInfo>,
}

impl DownloadState {
    pub fn new(segments: Vec<WorkerInfo>) -> (r: DownloadState)
        ensures
            r.segments@ == segments@,
    {
        DownloadState { segments }
    }

    /// Records the latest state of segment `index`; an index past the end
    /// is ignored.
    pub fn record(&mut self, index: usize, segment: WorkerInfo)
        ensures
            index < old(self).segments@.len()
                ==> final(self).segments@ == old(self).segments@.update(index as int, segment),
            index >= old(self).segments@.len() ==> final(self).segments@ == old(self).segments@,
    {
        if index < self.segments.len() {
            self.segments.set(index, segment);
        }
    }

    /// The checkpoint text of the recorded segments.
    pub fn checkpoint_text(&self) -> (r: Vec<u8>)
        ensures
            r@ == state_bytes(self.segments@),
    {
        encode_download_state(self.segments.as_slice())
    }
}

/// Bytes already written across `segs`.
pub open spec fn done_total(segs: Seq<WorkerInfo>) -> int
    decreases segs.len(),
{
    if segs.len() == 0 {
        0
    } else {
        done_total(segs.drop_last()) + segs.last().done_bytes()
    }
}

/// The bytes already written across well-formed segments, capped at the
/// largest `u64`.
pub fn already_downloaded(segs: &[WorkerInfo]) -> (r: u64)
    requires
        forall|i: int| 0 <= i < segs@.len() ==> (#[trigger] segs@[i]).wf(),
    ensures
        r == cap(done_total(segs@)),
{
    let mut total: u64 = 0;
    let mut i: usize = 0;
    while i < segs.len()
        invariant
            i <= segs@.len(),
            forall|k: int| 0 <= k < segs@.len() ==> (#[trigger] segs@[k]).wf(),
            total == cap(done_total(segs@.take(i as int))),
            done_total(segs@.take(i as int)) >= 0,
        decreases segs@.len() - i,
    {
        assert(segs@.take(i + 1).drop_last() =~= segs@.take(i as int));
        let w = segs[i];
        assert(w.wf());
        let d = w.current_pos - w.start_pos;
        total = if total <= u64::MAX - d {
            total + d
        } else {
            u64::MAX
        };
        i = i + 1;
    }
    assert(segs@.take(i as int) =~= segs@);
    total
}

/// The indices of the segments that still have bytes to fetch, in order;
/// complete segments are left out.
pub fn pending_segments(segs: &[WorkerInfo]) -> (r: Vec<usize>)
    ensures
        forall|k: int| 0 <= k < r@.len() ==> (#[trigger] r@[k]) < segs@.len()
            && segs@[r@[k] as int].current_pos < segs@[r@[k] as int].end_pos,
        forall|i: int|
            0 <= i < segs@.len() && (#[trigger] segs@[i]).current_pos < segs@[i].end_pos ==> r@.contains(
                i as usize,
            ),
        forall|a: int, b: int| 0 <= a < b < r@.len() ==> r@[a] < r@[b],
{
    let mut out: Vec<usize> = Vec::new();
    let mut i: usize = 0;
    while i < segs.len()
        invariant
            i <= segs@.len(),
            forall|k: int| 0 <= k < out@.len() ==> (#[trigger] out@[k]) < i
                && segs@[out@[k] as int].current_pos < segs@[out@[k] as int].end_pos,
            forall|j: int|
                0 <= j < i && (#[trigger] segs@[j]).current_pos < segs@[j].end_pos ==> out@.contains(
                    j as usize,
                ),
            forall|a: int, b: int| 0 <= a < b < out@.len() ==> out@[a] < out@[b],
        decreases segs@.len() - i,
    {
        let ghost prev = out@;
        if segs[i].current_pos < segs[i].end_pos {
            out.push(i);
            assert(out@[out@.len() - 1] == i);
        }
        assert forall|j: int|
            0 <= j < i + 1 && (#[trigger] segs@[j]).current_pos < segs@[j].end_pos implies out@.contains(
                j as usize,
            ) by {
            if j < i {
                let k = choose|k: int| 0 <= k < prev.len() && prev[k] == j as usize;
                assert(out@[k] == prev[k]);
            } else {
                assert(out@[out@.len() - 1] == i);
            }
        }
        i = i + 1;
    }
    out
}

/// How many segments may run at once.
pub fn admission_limit(thread_count: u16) -> (r: usize)
    ensures
        r == (if thread_count as int <= MAX_CONCURRENCY {
            thread_count as int
        } else {
            MAX_CONCURRENCY as int
        }),
{
    if (thread_count as usize) <= MAX_CONCURRENCY {
        thread_count as usize
    } else {
        MAX_CONCURRENCY
    }
}

/// The end of a segmented run, given the indices of the segments that
/// failed and the length of the file on disk. Any failed segment fails the
/// run; else a file whose length is not the expected one does. The
/// checkpoint is deleted exactly when the run succeeds.
pub fn finish_segmented(failed: Vec<usize>, file_len: u64, expected: u64) -> (r: Completion)
    ensures
        r.delete_checkpoint == (r.outcome is Ok),
        failed@.len() > 0 ==> r.outcome == Err::<(), DownloadError>(
            DownloadError::SegmentsFailed(failed),
        ),
        failed@.len() == 0 && file_len != expected ==> r.outcome == Err::<(), DownloadError>(
            DownloadError::SizeMismatch { expected, actual: file_len },
        ),
        failed@.len() == 0 && file_len == expected ==> r.outcome is Ok,
{
    if failed.len() > 0 {
        Completion { outcome: Err(DownloadError::SegmentsFailed(failed)), delete_checkpoint: false }
    } else if file_len != expected {
        Completion {
            outcome: Err(DownloadError::SizeMismatch { expected, actual: file_len }),
            delete_checkpoint: false,
        }
    } else {
        Completion { outcome: Ok(()), delete_checkpoint: true }
    }
}

/// A single-stream response is usable when its status is a success.
pub fn single_stream_accepts(status: u16) -> (r: bool)
    ensures
        r == (200 <= status && status <= 299),
{
    200 <= status && status <= 299
}

/// Resuming from a checkpoint leaves a completed segment alone. The text
/// saved for well-formed segments that cover `[0, total)` loads back as the
/// same segments, and a segmented plan resumes exactly them. A completed
/// segment among them is not to be fetched. Every other segment's range,
/// within which all its writes fall, and the range that its request asks
/// for, from its saved cursor to its end, are disjoint from the completed
/// segment's range.
pub proof fn lemma_resume_skips_completed(segs: Seq<WorkerInfo>, total: nat, thread_count: nat, k: int)
    requires
        tiles(segs, total),
        forall|i: int| 0 <= i < segs.len() ==> (#[trigger] segs[i]).wf(),
        0 <= k < segs.len(),
        segs[k].is_complete(),
    ensures
        decode_spec(state_bytes(segs)) == Ok::<Seq<WorkerInfo>, CheckpointError>(segs),
        segments_for(Some(state_bytes(segs)), total, thread_count) == (segs, true),
        !(segs[k].current_pos < segs[k].end_pos),
        forall|j: int, b: int|
            0 <= j < segs.len() && j != k && #[trigger] segs[j].contains(b) ==> !segs[k].contains(b),
        forall|j: int, b: int|
            0 <= j < segs.len() && j != k && #[trigger] segs[j].rest_contains(b)
                ==> !segs[k].contains(b),
{
    lemma_checkpoint_round_trip(segs);
    assert forall|j: int, b: int|
        0 <= j < segs.len() && j != k && #[trigger] segs[j].contains(b) implies !segs[k].contains(b) by {
        if j < k {
            lemma_tiles_ordered(segs, total, j, k);
        } else {
            lemma_tiles_ordered(segs, total, k, j);
        }
    }
    assert forall|j: int, b: int|
        0 <= j < segs.len() && j != k && #[trigger] segs[j].rest_contains(b)
            implies !segs[k].contains(b) by {
        assert(segs[j].wf());
        assert(segs[j].contains(b));
    }
}

} // verus!
