//! The resume checkpoint: one `start,cursor,end` line per segment, in decimal
//! ASCII, each ended by a newline.

use vstd::prelude::*;
use crate::segment::WorkerInfo;
use crate::text::{
    decimal_bytes, find_byte, index_of, lemma_decimal_bytes_digits, lemma_index_of_absent,
    lemma_index_of_bound, lemma_index_of_found, lemma_parse_decimal, parse_u64, parse_u64_spec,
    push_decimal, is_digit_byte,
};

verus! {

/// Why a checkpoint cannot be used.
#[derive(Debug, Clone, Copy, PartialEq, Eq, Structural)]
pub enum CheckpointError {
    /// Not one line of the text is a well-formed segment.
    NoSegments,
}

/// The checkpoint line of one segment.
pub open spec fn line_bytes(w: WorkerInfo) -> Seq<u8> {
    decimal_bytes(w.start_pos as nat) + seq![44u8] + decimal_bytes(w.current_pos as nat) + seq![
        44u8,
    ] + decimal_bytes(w.end_pos as nat) + seq![10u8]
}

/// The checkpoint text of a sequence of segments, in order.
pub open spec fn state_bytes(segs: Seq<WorkerInfo>) -> Seq<u8>
    decreases segs.len(),
{
    if segs.len() == 0 {
        Seq::empty()
    } else {
        line_bytes(segs[0]) + state_bytes(segs.skip(1))
    }
}

/// A line without the carriage return that may precede its newline.
pub open spec fn strip_cr(l: Seq<u8>) -> Seq<u8> {
    if l.len() > 0 && l.last() == 13u8 {
        l.drop_last()
    } else {
        l
    }
}

/// The segment that a line states: exactly three comma-separated decimal
/// numbers `start,cursor,end` with `start <= cursor <= end`.
pub open spec fn parse_line_spec(l: Seq<u8>) -> Option<WorkerInfo> {
    let k1 = index_of(l, 44u8);
    let r1 = l.skip(k1 + 1int);
    let k2 = index_of(r1, 44u8);
    let r2 = r1.skip(k2 + 1int);
    if k1 < l.len() && k2 < r1.len() && index_of(r2, 44u8) == r2.len() {
        match (parse_u64_spec(l.take(k1 as int)), parse_u64_spec(r1.take(k2 as int)), parse_u64_spec(r2)) {
            (Some(a), Some(b), Some(c)) => if a <= b && b <= c {
                Some(WorkerInfo { start_pos: a, current_pos: b, end_pos: c })
            } else {
                None
            },
            _ => None,
        }
    } else {
        None
    }
}

pub open spec fn prepend(w: Option<WorkerInfo>, rest: Seq<WorkerInfo>) -> Seq<WorkerInfo> {
    match w {
        Some(w) => seq![w] + rest,
        None => rest,
    }
}

/// The well-formed segments of a checkpoint text, line by line; lines that
/// state no segment are passed over.
pub open spec fn segments_in(t: Seq<u8>) -> Seq<WorkerInfo>
    decreases t.len(),
{
    if t.len() == 0 {
        Seq::empty()
    } else {
        let k = index_of(t, 10u8);
        if k < t.len() {
            prepend(parse_line_spec(strip_cr(t.take(k as int))), segments_in(t.skip(k + 1int)))
        } else {
            prepend(parse_line_spec(t), Seq::empty())
        }
    }
}

/// What loading a checkpoint text gives.
pub open spec fn decode_spec(t: Seq<u8>) -> Result<Seq<WorkerInfo>, CheckpointError> {
    if segments_in(t).len() > 0 {
        Ok(segments_in(t))
    } else {
        Err(CheckpointError::NoSegments)
    }
}

/// Every segment that a checkpoint text yields is well formed.
pub proof fn lemma_segments_in_wf(t: Seq<u8>)
    ensures
        forall|i: int| 0 <= i < segments_in(t).len() ==> (#[trigger] segments_in(t)[i]).wf(),
    decreases t.len(),
{
    if t.len() > 0 {
        let k = index_of(t, 10u8);
        if k < t.len() {
            lemma_segments_in_wf(t.skip(k + 1int));
            let rest = segments_in(t.skip(k + 1int));
            let w = parse_line_spec(strip_cr(t.take(k as int)));
            assert forall|i: int| 0 <= i < segments_in(t).len() implies (#[trigger] segments_in(
                t,
            )[i]).wf() by {
                if w is Some && i > 0 {
                    assert(segments_in(t)[i] == rest[i - 1]);
                }
            }
        }
    }
}

proof fn lemma_state_bytes_push(segs: Seq<WorkerInfo>, w: WorkerInfo)
    ensures
        state_bytes(segs.push(w)) == state_bytes(segs) + line_bytes(w),
    decreases segs.len(),
{
    if segs.len() == 0 {
        assert(segs.push(w).skip(1) =~= Seq::<WorkerInfo>::empty());
        assert(state_bytes(Seq::<WorkerInfo>::empty()) =~= Seq::<u8>::empty());
        assert(state_bytes(segs.push(w)) =~= line_bytes(w));
    } else {
        assert(segs.push(w).skip(1) =~= segs.skip(1).push(w));
        lemma_state_bytes_push(segs.skip(1), w);
        assert(state_bytes(segs.push(w)) =~= state_bytes(segs) + line_bytes(w));
    }
}

/// The checkpoint text of `workers`, to be written over the whole sidecar file.
pub fn encode_download_state(workers: &[WorkerInfo]) -> (r: Vec<u8>)
    ensures
        r@ == state_bytes(workers@),
{
    let mut out: Vec<u8> = Vec::new();
    let mut i: usize = 0;
    while i < workers.len()
        invariant
            i <= workers@.len(),
            out@ == state_bytes(workers@.take(i as int)),
        decreases workers@.len() - i,
    {
        let w = workers[i];
        push_decimal(&mut out, w.start_pos);
        out.push(44u8);
        push_decimal(&mut out, w.current_pos);
        out.push(44u8);
        push_decimal(&mut out, w.end_pos);
        out.push(10u8);
        proof {
            lemma_state_bytes_push(workers@.take(i as int), w);
            assert(workers@.take(i + 1) =~= workers@.take(i as int).push(w));
        }
        i = i + 1;
    }
    assert(workers@.take(i as int) =~= workers@);
    out
}

/// Reads the segment stated by `s[lo..hi]`, if it states one.
fn parse_line(s: &[u8], lo: usize, hi: usize) -> (r: Option<WorkerInfo>)
    requires
        lo <= hi <= s@.len(),
    ensures
        r == parse_line_spec(s@.subrange(lo as int, hi as int)),
{
    let ghost l = s@.subrange(lo as int, hi as int);
    let k1 = find_byte(s, lo, hi, 44u8);
    if k1 == hi {
        return None;
    }
    let k2 = find_byte(s, k1 + 1, hi, 44u8);
    proof {
        assert(l.skip(k1 - lo + 1) =~= s@.subrange(k1 + 1, hi as int));
    }
    if k2 == hi {
        return None;
    }
    let k3 = find_byte(s, k2 + 1, hi, 44u8);
    proof {
        assert(l.skip(k1 - lo + 1).skip(k2 - k1) =~= s@.subrange(k2 + 1, hi as int));
        assert(l.take(k1 - lo) =~= s@.subrange(lo as int, k1 as int));
        assert(l.skip(k1 - lo + 1).take(k2 - k1 - 1) =~= s@.subrange(k1 + 1, k2 as int));
    }
    if k3 != hi {
        return None;
    }
    let a = parse_u64(s, lo, k1);
    let b = parse_u64(s, k1 + 1, k2);
    let c = parse_u64(s, k2 + 1, hi);
    match (a, b, c) {
        (Some(a), Some(b), Some(c)) => {
            if a <= b && b <= c {
                Some(WorkerInfo { start_pos: a, current_pos: b, end_pos: c })
            } else {
                None
            }
        },
        _ => None,
    }
}

/// Loads the segments of a checkpoint text. Lines that state no well-formed
/// segment are passed over; the load fails when none is left.
pub fn decode_download_state(text: &[u8]) -> (r: Result<Vec<WorkerInfo>, CheckpointError>)
    ensures
        match r {
            Ok(v) => decode_spec(text@) == Ok::<Seq<WorkerInfo>, CheckpointError>(v@),
            Err(e) => decode_spec(text@) == Err::<Seq<WorkerInfo>, CheckpointError>(e),
        },
{
    let n = text.len();
    let mut out: Vec<WorkerInfo> = Vec::new();
    let mut pos: usize = 0;
    assert(text@.subrange(0, n as int) =~= text@);
    while pos < n
        invariant
            pos <= n == text@.len(),
            segments_in(text@) == out@ + segments_in(text@.subrange(pos as int, n as int)),
        decreases n - pos,
    {
        let k = find_byte(text, pos, n, 10u8);
        if k < n {
            let mut e = k;
            if e > pos && text[e - 1] == 13u8 {
                e = e - 1;
            }
            let line = parse_line(text, pos, e);
            proof {
                lemma_segments_in_step(text@, pos as int, k as int, e as int);
            }
            match line {
                Some(w) => {
                    out.push(w);
                },
                None => {},
            }
            pos = k + 1;
        } else {
            let line = parse_line(text, pos, n);
            proof {
                lemma_index_of_bound(text@.subrange(pos as int, n as int), 10u8);
            }
            match line {
                Some(w) => {
                    out.push(w);
                },
                None => {},
            }
            pos = n;
            proof {
                assert(text@.subrange(pos as int, n as int) =~= Seq::<u8>::empty());
            }
        }
    }
    proof {
        assert(text@.subrange(pos as int, n as int) =~= Seq::<u8>::empty());
        assert(segments_in(text@) =~= out@);
    }
    if out.len() == 0 {
        Err(CheckpointError::NoSegments)
    } else {
        Ok(out)
    }
}

proof fn lemma_segments_in_step(t: Seq<u8>, pos: int, k: int, e: int)
    requires
        0 <= pos <= k < t.len(),
        t[k] == 10u8,
        forall|j: int| pos <= j < k ==> t[j] != 10u8,
        e == (if k > pos && t[k - 1] == 13u8 {
            k - 1
        } else {
            k
        }),
    ensures
        segments_in(t.subrange(pos, t.len() as int)) == prepend(
            parse_line_spec(t.subrange(pos, e)),
            segments_in(t.subrange(k + 1, t.len() as int)),
        ),
{
    let u = t.subrange(pos, t.len() as int);
    lemma_index_of_found(u, 10u8, k - pos);
    assert(u.take(k - pos) =~= t.subrange(pos, k));
    assert(strip_cr(u.take(k - pos)) =~= t.subrange(pos, e));
    assert(u.skip(k - pos + 1) =~= t.subrange(k + 1, t.len() as int));
}

proof fn lemma_no_separators(n: nat)
    ensures
        forall|i: int|
            0 <= i < decimal_bytes(n).len() ==> #[trigger] decimal_bytes(n)[i] != 44u8
                && decimal_bytes(n)[i] != 10u8 && decimal_bytes(n)[i] != 13u8,
{
    lemma_decimal_bytes_digits(n);
    assert forall|i: int| 0 <= i < decimal_bytes(n).len() implies #[trigger] decimal_bytes(n)[i]
        != 44u8 && decimal_bytes(n)[i] != 10u8 && decimal_bytes(n)[i] != 13u8 by {
        assert(is_digit_byte(decimal_bytes(n)[i]));
    }
}

proof fn lemma_parse_line_bytes(w: WorkerInfo)
    requires
        w.wf(),
    ensures
        ({
            let body = line_bytes(w).drop_last();
            parse_line_spec(body) == Some(w)
        }),
{
    let da = decimal_bytes(w.start_pos as nat);
    let db = decimal_bytes(w.current_pos as nat);
    let dc = decimal_bytes(w.end_pos as nat);
    lemma_no_separators(w.start_pos as nat);
    lemma_no_separators(w.current_pos as nat);
    lemma_no_separators(w.end_pos as nat);
    lemma_parse_decimal(w.start_pos);
    lemma_parse_decimal(w.current_pos);
    lemma_parse_decimal(w.end_pos);
    let body = line_bytes(w).drop_last();
    assert(body =~= da + seq![44u8] + db + seq![44u8] + dc);
    lemma_index_of_found(body, 44u8, da.len() as int);
    let r1 = body.skip(da.len() + 1int);
    assert(r1 =~= db + seq![44u8] + dc);
    assert(body.take(da.len() as int) =~= da);
    lemma_index_of_found(r1, 44u8, db.len() as int);
    let r2 = r1.skip(db.len() + 1int);
    assert(r2 =~= dc);
    assert(r1.take(db.len() as int) =~= db);
    lemma_index_of_absent(r2, 44u8);
}

proof fn lemma_segments_in_line(w: WorkerInfo, rest: Seq<u8>)
    requires
        w.wf(),
    ensures
        segments_in(line_bytes(w) + rest) == seq![w] + segments_in(rest),
{
    let t = line_bytes(w) + rest;
    let body = line_bytes(w).drop_last();
    let da = decimal_bytes(w.start_pos as nat);
    let db = decimal_bytes(w.current_pos as nat);
    let dc = decimal_bytes(w.end_pos as nat);
    lemma_no_separators(w.start_pos as nat);
    lemma_no_separators(w.current_pos as nat);
    lemma_no_separators(w.end_pos as nat);
    lemma_decimal_bytes_digits(w.end_pos as nat);
    assert(body =~= da + seq![44u8] + db + seq![44u8] + dc);
    assert forall|j: int| 0 <= j < body.len() implies t[j] != 10u8 by {
        assert(t[j] == body[j]);
    }
    assert(t[body.len() as int] == 10u8);
    lemma_index_of_found(t, 10u8, body.len() as int);
    assert(t.take(body.len() as int) =~= body);
    assert(body.last() == dc.last());
    assert(strip_cr(body) == body);
    assert(t.skip(body.len() + 1int) =~= rest);
    lemma_parse_line_bytes(w);
}

/// Saving a well-formed, non-empty set of segments and loading the text back
/// yields the same segments, in the same order, with the same `start`,
/// `cursor` and `end`.
pub proof fn lemma_checkpoint_round_trip(segs: Seq<WorkerInfo>)
    requires
        segs.len() > 0,
        forall|i: int| 0 <= i < segs.len() ==> (#[trigger] segs[i]).wf(),
    ensures
        decode_spec(state_bytes(segs)) == Ok::<Seq<WorkerInfo>, CheckpointError>(segs),
{
    lemma_segments_in_state(segs);
}

proof fn lemma_segments_in_state(segs: Seq<WorkerInfo>)
    requires
        forall|i: int| 0 <= i < segs.len() ==> (#[trigger] segs[i]).wf(),
    ensures
        segments_in(state_bytes(segs)) == segs,
    decreases segs.len(),
{
    if segs.len() == 0 {
        assert(segments_in(state_bytes(segs)) =~= segs);
    } else {
        let rest = segs.skip(1);
        assert forall|i: int| 0 <= i < rest.len() implies (#[trigger] rest[i]).wf() by {
            assert(rest[i] == segs[i + 1]);
        }
        lemma_segments_in_state(rest);
        lemma_segments_in_line(segs[0], state_bytes(rest));
        assert(seq![segs[0]] + rest =~= segs);
    }
}

} // verus!
