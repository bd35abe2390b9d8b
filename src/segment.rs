//! Segments of the destination file and the plan that splits a file into them.

use vstd::prelude::*;

verus! {

/// One contiguous byte range `[start_pos, end_pos)` of the destination file,
/// with `current_pos` the next offset to write.
#[derive(Debug, Clone, Copy, PartialEq, Eq, Structural)]
pub struct WorkerInfo {
    pub start_pos: u64,
    pub current_pos: u64,
    pub end_pos: u64,
}

impl WorkerInfo {
    /// `start <= cursor <= end`.
    pub open spec fn wf(&self) -> bool {
        self.start_pos <= self.current_pos && self.current_pos <= self.end_pos
    }

    /// Every byte of the range has been written.
    pub open spec fn is_complete(&self) -> bool {
        self.current_pos == self.end_pos
    }

    /// Offset `b` lies in the range of this segment.
    pub open spec fn contains(&self, b: int) -> bool {
        self.start_pos <= b && b < self.end_pos
    }

    /// Offset `b` lies in the unwritten rest `[current_pos, end_pos)`, the
    /// range that the segment's next request asks for.
    pub open spec fn rest_contains(&self, b: int) -> bool {
        self.current_pos <= b && b < self.end_pos
    }

    /// Bytes of the range already written.
    pub open spec fn done_bytes(&self) -> int {
        self.current_pos - self.start_pos
    }
}

/// Some segment of `segs` holds offset `b`.
pub open spec fn covered_by(segs: Seq<WorkerInfo>, b: int) -> bool {
    exists|i: int| 0 <= i < segs.len() && #[trigger] segs[i].contains(b)
}

/// Segment `i` of the plan that splits `total` bytes into `count` pieces:
/// every piece holds `total / count` bytes, but the last one, which also
/// takes the remainder.
pub open spec fn planned_segment(total: nat, count: nat, i: nat) -> WorkerInfo {
    let chunk = total / count;
    let start = i * chunk;
    let end = if i + 1 == count { total } else { (i + 1) * chunk };
    WorkerInfo { start_pos: start as u64, current_pos: start as u64, end_pos: end as u64 }
}

/// The whole plan for `total` bytes in `count` pieces.
pub open spec fn plan(total: nat, count: nat) -> Seq<WorkerInfo> {
    Seq::new(count, |i: int| planned_segment(total, count, i as nat))
}

/// The segments follow one another without gap from offset 0 to `total`.
pub open spec fn tiles(segs: Seq<WorkerInfo>, total: nat) -> bool {
    &&& segs.len() > 0
    &&& segs[0].start_pos == 0
    &&& segs.last().end_pos == total
    &&& forall|i: int| 0 <= i < segs.len() ==> (#[trigger] segs[i]).start_pos <= segs[i].end_pos
    &&& forall|i: int|
        0 <= i < segs.len() - 1 ==> (#[trigger] segs[i]).end_pos == segs[i + 1].start_pos
}

/// Whether `segs` follow one another without gap from offset 0 to `total`.
pub fn tiles_file(segs: &[WorkerInfo], total: u64) -> (r: bool)
    ensures
        r == tiles(segs@, total as nat),
{
    let n = segs.len();
    if n == 0 || segs[0].start_pos != 0 || segs[n - 1].end_pos != total {
        return false;
    }
    let mut i: usize = 0;
    while i < n
        invariant
            i <= n == segs@.len(),
            n > 0,
            forall|j: int| 0 <= j < i ==> (#[trigger] segs@[j]).start_pos <= segs@[j].end_pos,
            forall|j: int| 0 <= j < i && j < n - 1 ==> (#[trigger] segs@[j]).end_pos == segs@[j + 1].start_pos,
        decreases n - i,
    {
        if segs[i].start_pos > segs[i].end_pos {
            return false;
        }
        if i + 1 < n && segs[i].end_pos != segs[i + 1].start_pos {
            return false;
        }
        i = i + 1;
    }
    true
}

proof fn lemma_chunk_bounds(total: nat, count: nat, i: nat)
    requires
        count > 0,
        i <= count,
    ensures
        i * (total / count) <= total,
        i * (total / count) <= (i + 1) * (total / count),
{
    let chunk = total / count;
    assert(chunk * count <= total) by (nonlinear_arith)
        requires
            count > 0,
            chunk == total / count,
    ;
    assert(i * chunk <= count * chunk) by (nonlinear_arith)
        requires
            i <= count,
    ;
    assert(i * chunk <= (i + 1) * chunk) by (nonlinear_arith);
}

/// Splits `file_size` bytes into `thread_count` segments, none of them
/// started.
pub fn create_workers(file_size: u64, thread_count: u16) -> (r: Vec<WorkerInfo>)
    requires
        thread_count >= 1,
    ensures
        r@ == plan(file_size as nat, thread_count as nat),
{
    let chunk_size = file_size / thread_count as u64;
    let mut workers: Vec<WorkerInfo> = Vec::new();
    let mut i: u16 = 0;
    while i < thread_count
        invariant
            i <= thread_count,
            thread_count >= 1,
            chunk_size == file_size / thread_count as u64,
            workers@ =~= plan(file_size as nat, thread_count as nat).take(i as int),
        decreases thread_count - i,
    {
        proof {
            lemma_chunk_bounds(file_size as nat, thread_count as nat, i as nat);
            lemma_chunk_bounds(file_size as nat, thread_count as nat, (i + 1) as nat);
        }
        let start = i as u64 * chunk_size;
        let end = if i == thread_count - 1 {
            file_size
        } else {
            (i as u64 + 1) * chunk_size
        };
        workers.push(WorkerInfo { start_pos: start, current_pos: start, end_pos: end });
        i = i + 1;
    }
    workers
}

/// The plan covers the file: its segments follow one another from offset 0
/// to `total` without gap or overlap, each well formed and not started.
pub proof fn lemma_plan_tiles(total: nat, count: nat)
    requires
        count >= 1,
        total <= u64::MAX,
    ensures
        tiles(plan(total, count), total),
        forall|i: int| 0 <= i < count ==> (#[trigger] plan(total, count)[i]).wf(),
{
    let segs = plan(total, count);
    assert forall|i: int| 0 <= i < segs.len() implies (#[trigger] segs[i]).start_pos
        <= segs[i].end_pos && segs[i].wf() by {
        lemma_chunk_bounds(total, count, i as nat);
        lemma_chunk_bounds(total, count, (i + 1) as nat);
    }
    assert forall|i: int| 0 <= i < segs.len() - 1 implies (#[trigger] segs[i]).end_pos
        == segs[i + 1].start_pos by {
        lemma_chunk_bounds(total, count, (i + 1) as nat);
    }
}

/// In a tiling, a segment ends no later than any later segment starts.
pub proof fn lemma_tiles_ordered(segs: Seq<WorkerInfo>, total: nat, i: int, j: int)
    requires
        tiles(segs, total),
        0 <= i < j < segs.len(),
    ensures
        segs[i].end_pos <= segs[j].start_pos,
    decreases j - i,
{
    if j > i + 1 {
        lemma_tiles_ordered(segs, total, i, j - 1);
        assert(segs[j - 1].start_pos <= segs[j - 1].end_pos);
    }
}

/// In a tiling, every segment lies within `[0, total)`.
pub proof fn lemma_tiles_bounded(segs: Seq<WorkerInfo>, total: nat, i: int)
    requires
        tiles(segs, total),
        0 <= i < segs.len(),
    ensures
        segs[i].end_pos <= total,
{
    let n = segs.len() as int;
    if i < n - 1 {
        lemma_tiles_ordered(segs, total, i, n - 1);
        assert(segs[n - 1].start_pos <= segs[n - 1].end_pos);
    }
}

/// In a tiling, each offset of `[0, total)` lies in exactly one segment.
pub proof fn lemma_tiles_partition(segs: Seq<WorkerInfo>, total: nat, b: int)
    requires
        tiles(segs, total),
        0 <= b < total,
    ensures
        covered_by(segs, b),
        forall|i: int, j: int|
            0 <= i < segs.len() && 0 <= j < segs.len() && #[trigger] segs[i].contains(b)
                && #[trigger] segs[j].contains(b) ==> i == j,
    decreases segs.len(),
{
    assert forall|i: int, j: int|
        0 <= i < segs.len() && 0 <= j < segs.len() && #[trigger] segs[i].contains(b)
            && #[trigger] segs[j].contains(b) implies i == j by {
        if i < j {
            lemma_tiles_ordered(segs, total, i, j);
        } else if j < i {
            lemma_tiles_ordered(segs, total, j, i);
        }
    }
    let n = segs.len() as int;
    if b >= segs[n - 1].start_pos {
        assert(segs[n - 1].contains(b));
    } else {
        let prefix = segs.drop_last();
        let t = segs[n - 1].start_pos as nat;
        assert(tiles(prefix, t)) by {
            assert(prefix.last() == segs[n - 2]);
            assert forall|i: int| 0 <= i < prefix.len() implies (#[trigger] prefix[i]).start_pos
                <= prefix[i].end_pos by {
                assert(prefix[i] == segs[i]);
            }
            assert forall|i: int| 0 <= i < prefix.len() - 1 implies (#[trigger] prefix[i]).end_pos
                == prefix[i + 1].start_pos by {
                assert(prefix[i] == segs[i]);
                assert(prefix[i + 1] == segs[i + 1]);
            }
        }
        lemma_tiles_partition(prefix, t, b);
        let k = choose|k: int| 0 <= k < prefix.len() && #[trigger] prefix[k].contains(b);
        assert(segs[k].contains(b));
    }
}

/// The plan for a known, non-empty file and several segments covers
/// `[0, total_length)` exactly: each offset lies in exactly one planned
/// segment, no segment reaches past the end, and the last one ends at
/// `total_length`.
pub proof fn lemma_plan_covers_file(total_length: u64, thread_count: u16)
    requires
        total_length > 0,
        2 <= thread_count <= 64,
    ensures
        ({
            let segs = plan(total_length as nat, thread_count as nat);
            &&& segs.last().end_pos == total_length
            &&& forall|i: int|
                0 <= i < segs.len() ==> #[trigger] segs[i].end_pos <= total_length
            &&& forall|b: int| 0 <= b < total_length ==> #[trigger] covered_by(segs, b)
            &&& forall|b: int, i: int, j: int|
                0 <= i < segs.len() && 0 <= j < segs.len() && #[trigger] segs[i].contains(b)
                    && #[trigger] segs[j].contains(b) ==> i == j
        }),
{
    let segs = plan(total_length as nat, thread_count as nat);
    lemma_plan_tiles(total_length as nat, thread_count as nat);
    assert forall|i: int| 0 <= i < segs.len() implies #[trigger] segs[i].end_pos
        <= total_length by {
        lemma_tiles_bounded(segs, total_length as nat, i);
    }
    assert forall|b: int| 0 <= b < total_length implies #[trigger] covered_by(segs, b) by {
        lemma_tiles_partition(segs, total_length as nat, b);
    }
    assert forall|b: int, i: int, j: int|
        0 <= i < segs.len() && 0 <= j < segs.len() && #[trigger] segs[i].contains(b)
            && #[trigger] segs[j].contains(b) implies i == j by {
        lemma_tiles_partition(segs, total_length as nat, b);
    }
}

} // verus!
