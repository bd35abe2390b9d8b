//! Fetching one segment: the ranged request to send, what a response status
//! means, where each received chunk goes, and what a failure leads to.

use vstd::prelude::*;
use crate::retry::{RetryDecision, RetryPolicy};
use crate::segment::WorkerInfo;
use crate::text::{decimal_chars, push_decimal_chars, string_of};

verus! {

pub const STATUS_OK: u16 = 200;
pub const STATUS_PARTIAL_CONTENT: u16 = 206;
pub const STATUS_RANGE_NOT_SATISFIABLE: u16 = 416;

/// Why a response cannot be streamed into the segment.
#[derive(Debug, Clone, Copy, PartialEq, Eq, Structural)]
pub enum FetchRejection {
    /// The server sent the whole resource although part of the segment is
    /// already written.
    FullContentAfterResume,
    /// The server answered with a status that a ranged request does not
    /// expect.
    UnexpectedStatus(u16),
}

/// What to do with a response to the segment's request.
#[derive(Debug, Clone, Copy, PartialEq, Eq, Structural)]
pub enum ResponseAction {
    /// Read the body chunk by chunk.
    Stream,
    /// The server holds nothing more for this range: the segment is done.
    AlreadyComplete,
    /// The attempt failed.
    Reject(FetchRejection),
}

/// Where a chunk of the body goes: after skipping `skip` bytes of it, `len`
/// bytes are written at file offset `offset`.
#[derive(Debug, Clone, Copy, PartialEq, Eq, Structural)]
pub struct ChunkWrite {
    pub skip: u64,
    pub len: u64,
    pub offset: u64,
}

/// The progress of one segment's fetch across its attempts.
#[derive(Debug, Clone, Copy, PartialEq, Eq, Structural)]
pub struct SegmentFetch {
    pub segment: WorkerInfo,
    /// Failed attempts since the last one that ended well.
    pub failures: u32,
    /// While a body is read, the resource offset of its next byte.
    pub body_pos: u64,
    /// A body is being read.
    pub streaming: bool,
}

/// The `Range` header value that asks for the unwritten rest of a segment.
pub open spec fn range_header_spec(seg: WorkerInfo) -> Seq<char> {
    seq!['b', 'y', 't', 'e', 's', '='] + decimal_chars(seg.current_pos as nat) + seq!['-']
        + decimal_chars((seg.end_pos - 1) as nat)
}

pub open spec fn min(a: int, b: int) -> int {
    if a <= b {
        a
    } else {
        b
    }
}

/// The part of a chunk of `len` bytes, starting at resource offset
/// `body_pos`, that falls in the unwritten rest of the segment.
pub open spec fn chunk_write_spec(seg: WorkerInfo, body_pos: u64, len: u64) -> ChunkWrite {
    let skip = min(seg.current_pos - body_pos, len as int);
    let n = min(len - skip, seg.end_pos - seg.current_pos);
    ChunkWrite { skip: skip as u64, len: n as u64, offset: seg.current_pos }
}

/// What a response status means for a segment.
pub open spec fn response_action_spec(seg: WorkerInfo, status: u16) -> ResponseAction {
    if status == STATUS_PARTIAL_CONTENT {
        ResponseAction::Stream
    } else if status == STATUS_OK {
        if seg.current_pos == seg.start_pos {
            ResponseAction::Stream
        } else {
            ResponseAction::Reject(FetchRejection::FullContentAfterResume)
        }
    } else if status == STATUS_RANGE_NOT_SATISFIABLE {
        ResponseAction::AlreadyComplete
    } else {
        ResponseAction::Reject(FetchRejection::UnexpectedStatus(status))
    }
}

impl SegmentFetch {
    /// The segment is well formed and a body being read has not passed the
    /// cursor of an unfinished segment.
    pub open spec fn wf(&self) -> bool {
        &&& self.segment.wf()
        &&& self.streaming && self.segment.current_pos < self.segment.end_pos ==> self.body_pos
            <= self.segment.current_pos
    }

    /// Starts the fetch of `segment`.
    pub fn new(segment: WorkerInfo) -> (r: SegmentFetch)
        requires
            segment.wf(),
        ensures
            r.wf(),
            r.segment == segment,
            r.failures == 0,
            !r.streaming,
    {
        SegmentFetch { segment, failures: 0, body_pos: 0, streaming: false }
    }

    /// Every byte of the segment is written.
    pub fn is_complete(&self) -> (r: bool)
        ensures
            r == (self.segment.current_pos >= self.segment.end_pos),
    {
        self.segment.current_pos >= self.segment.end_pos
    }

    /// The `Range` header for the next attempt, from the current cursor to
    /// the end of the segment; `None` once the segment is complete, when no
    /// request is due.
    pub fn next_request(&self) -> (r: Option<String>)
        requires
            self.wf(),
        ensures
            self.segment.current_pos < self.segment.end_pos ==> (r matches Some(h) && h@
                == range_header_spec(self.segment)),
            self.segment.current_pos >= self.segment.end_pos ==> r is None,
    {
        if self.segment.current_pos >= self.segment.end_pos {
            return None;
        }
        let mut v: Vec<char> = vec!['b', 'y', 't', 'e', 's', '='];
        push_decimal_chars(&mut v, self.segment.current_pos);
        v.push('-');
        push_decimal_chars(&mut v, self.segment.end_pos - 1);
        let h = string_of(v.as_slice());
        assert(h@ =~= range_header_spec(self.segment));
        Some(h)
    }

    /// Takes the status of the response to the segment's request. A `206`
    /// body starts at the cursor. A `200` body is the whole resource from
    /// offset 0, usable only while nothing of the segment is written; the
    /// bytes before the cursor are then skipped. A `416` marks the segment
    /// complete without a byte written.
    pub fn on_response(&mut self, status: u16) -> (r: ResponseAction)
        requires
            old(self).wf(),
        ensures
            final(self).wf(),
            r == response_action_spec(old(self).segment, status),
            final(self).failures == old(self).failures,
            final(self).segment.start_pos == old(self).segment.start_pos,
            final(self).segment.end_pos == old(self).segment.end_pos,
            final(self).streaming == (r == ResponseAction::Stream),
            r == ResponseAction::AlreadyComplete ==> final(self).segment.current_pos
                == old(self).segment.end_pos,
            r != ResponseAction::AlreadyComplete ==> final(self).segment == old(self).segment,
            r == ResponseAction::Stream && status == STATUS_PARTIAL_CONTENT
                ==> final(self).body_pos == old(self).segment.current_pos,
            r == ResponseAction::Stream && status != STATUS_PARTIAL_CONTENT
                ==> final(self).body_pos == 0,
    {
        if status == STATUS_PARTIAL_CONTENT {
            self.body_pos = self.segment.current_pos;
            self.streaming = true;
            ResponseAction::Stream
        } else if status == STATUS_OK {
            if self.segment.current_pos == self.segment.start_pos {
                self.body_pos = 0;
                self.streaming = true;
                ResponseAction::Stream
            } else {
                self.streaming = false;
                ResponseAction::Reject(FetchRejection::FullContentAfterResume)
            }
        } else if status == STATUS_RANGE_NOT_SATISFIABLE {
            self.segment.current_pos = self.segment.end_pos;
            self.streaming = false;
            ResponseAction::AlreadyComplete
        } else {
            self.streaming = false;
            ResponseAction::Reject(FetchRejection::UnexpectedStatus(status))
        }
    }

    /// Takes the next chunk of `len` body bytes and says which of them to
    /// write where; the cursor moves past what is written, never past the
    /// end of the segment.
    pub fn on_chunk(&mut self, len: u64) -> (w: ChunkWrite)
        requires
            old(self).wf(),
            old(self).streaming,
            old(self).segment.current_pos < old(self).segment.end_pos,
        ensures
            final(self).wf(),
            final(self).streaming,
            w == chunk_write_spec(old(self).segment, old(self).body_pos, len),
            w.skip + w.len <= len,
            w.offset == old(self).segment.current_pos,
            w.offset >= old(self).segment.start_pos,
            w.offset + w.len <= old(self).segment.end_pos,
            final(self).segment.current_pos == old(self).segment.current_pos + w.len,
            final(self).body_pos == (if old(self).body_pos + len <= u64::MAX {
                old(self).body_pos + len
            } else {
                u64::MAX as int
            }),
            final(self).segment.start_pos == old(self).segment.start_pos,
            final(self).segment.end_pos == old(self).segment.end_pos,
            final(self).failures == old(self).failures,
    {
        let cursor = self.segment.current_pos;
        let end = self.segment.end_pos;
        let behind = cursor - self.body_pos;
        let skip = if behind <= len {
            behind
        } else {
            len
        };
        let avail = len - skip;
        let room = end - cursor;
        let n = if avail <= room {
            avail
        } else {
            room
        };
        self.segment.current_pos = cursor + n;
        self.body_pos = if self.body_pos <= u64::MAX - len {
            self.body_pos + len
        } else {
            u64::MAX
        };
        ChunkWrite { skip, len: n, offset: cursor }
    }

    /// The body ended without an error: the attempt went well, and the
    /// failure count starts again.
    pub fn on_stream_end(&mut self)
        requires
            old(self).wf(),
        ensures
            final(self).wf(),
            final(self).segment == old(self).segment,
            final(self).failures == 0,
            !final(self).streaming,
    {
        self.streaming = false;
        self.failures = 0;
    }

    /// The attempt failed (transport error, interrupted body, rejected
    /// response): counts the failure and says whether to try again, and
    /// after how long. The cursor stays, so a retry resumes from it.
    pub fn on_failure(&mut self, policy: &RetryPolicy) -> (r: RetryDecision)
        requires
            old(self).wf(),
            policy.wf(),
        ensures
            final(self).wf(),
            final(self).segment == old(self).segment,
            !final(self).streaming,
            final(self).failures == (if old(self).failures < u32::MAX {
                old(self).failures + 1
            } else {
                old(self).failures as int
            }),
            r == policy.decide_spec(final(self).failures as nat),
    {
        self.streaming = false;
        if self.failures < u32::MAX {
            self.failures = self.failures + 1;
        }
        policy.after_failure(self.failures)
    }
}

} // verus!
