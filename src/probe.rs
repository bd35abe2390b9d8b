//! Probing a resource before the download: what a HEAD response, or the
//! ranged GET that stands in for a failed HEAD, says of size, name and range
//! support, and when to try again.

use vstd::prelude::*;
use vstd::utf8::encode_utf8;
use crate::fetch::STATUS_PARTIAL_CONTENT;
use crate::filename::{resolve_filename, resolve_filename_spec};
use crate::retry::{RetryDecision, RetryPolicy};
use crate::text::{after_last, chars_of, find_chars, find_sub, parse_u64, parse_u64_spec, string_of, suffix_after_last};

verus! {

/// What the probe learnt: where to fetch from, under which name, how many
/// bytes (0 if unknown), and whether byte ranges are served.
#[derive(Debug, Clone, PartialEq, Eq)]
pub struct DownloadTarget {
    pub url: String,
    pub filename: String,
    pub total_length: u64,
    pub supports_range: bool,
}

/// The parts of a response that the probe reads: its status, the URL after
/// redirects, and the header values that are valid text.
#[derive(Debug, Clone, PartialEq, Eq)]
pub struct ResponseMeta {
    pub status: u16,
    pub final_url: String,
    pub content_disposition: Option<String>,
    pub accept_ranges: Option<String>,
    pub content_length: Option<String>,
    pub content_range: Option<String>,
}

pub open spec fn opt_view(o: Option<String>) -> Option<Seq<char>> {
    match o {
        Some(s) => Some(s@),
        None => None,
    }
}

/// A header value read as a decimal `u64`; 0 where it is absent or is no
/// such number.
pub open spec fn header_u64_spec(v: Option<Seq<char>>) -> u64 {
    match v {
        Some(s) => match parse_u64_spec(encode_utf8(s)) {
            Some(n) => n,
            None => 0,
        },
        None => 0,
    }
}

pub open spec fn bytes_word() -> Seq<char> {
    seq!['b', 'y', 't', 'e', 's']
}

/// An `Accept-Ranges` value that mentions `bytes`.
pub open spec fn advertises_bytes_spec(v: Option<Seq<char>>) -> bool {
    match v {
        Some(s) => find_sub(s, bytes_word()) < s.len(),
        None => false,
    }
}

/// The total size after the last `/` of a `Content-Range` value; 0 where
/// there is none.
pub open spec fn content_range_total_spec(v: Option<Seq<char>>) -> u64 {
    match v {
        Some(s) => header_u64_spec(Some(after_last(s, '/'))),
        None => 0,
    }
}

/// A success status.
pub open spec fn is_success(status: u16) -> bool {
    200 <= status && status <= 299
}

/// `t` holds exactly these values.
pub open spec fn target_is(t: DownloadTarget, url: Seq<char>, name: Seq<char>, total: u64, range: bool) -> bool {
    t.url@ == url && t.filename@ == name && t.total_length == total && t.supports_range == range
}

/// The target that a successful HEAD response describes.
pub open spec fn head_target_spec(t: DownloadTarget, m: ResponseMeta) -> bool {
    target_is(
        t,
        m.final_url@,
        resolve_filename_spec(opt_view(m.content_disposition), m.final_url@),
        header_u64_spec(opt_view(m.content_length)),
        advertises_bytes_spec(opt_view(m.accept_ranges)),
    )
}

/// The target that a response to the ranged GET for byte 0 describes: a
/// `206` shows range support and gives the size after the `/` of its
/// `Content-Range`; any other status gives the size in `Content-Length`.
pub open spec fn ranged_get_target_spec(t: DownloadTarget, m: ResponseMeta) -> bool {
    target_is(
        t,
        m.final_url@,
        resolve_filename_spec(opt_view(m.content_disposition), m.final_url@),
        if m.status == STATUS_PARTIAL_CONTENT {
            content_range_total_spec(opt_view(m.content_range))
        } else {
            header_u64_spec(opt_view(m.content_length))
        },
        m.status == STATUS_PARTIAL_CONTENT || advertises_bytes_spec(opt_view(m.accept_ranges)),
    )
}

/// A header value read as a decimal `u64`; 0 where it is absent or is no
/// such number.
pub fn header_u64(v: &Option<String>) -> (r: u64)
    ensures
        r == header_u64_spec(opt_view(*v)),
{
    match v {
        Some(s) => {
            let b = s.as_str().as_bytes();
            assert(b@.subrange(0, b@.len() as int) =~= b@);
            match parse_u64(b, 0, b.len()) {
                Some(n) => n,
                None => 0,
            }
        },
        None => 0,
    }
}

fn advertises_bytes(v: &Option<String>) -> (r: bool)
    ensures
        r == advertises_bytes_spec(opt_view(*v)),
{
    match v {
        Some(s) => {
            let c = chars_of(s.as_str());
            let w = vec!['b', 'y', 't', 'e', 's'];
            assert(w@ =~= bytes_word());
            find_chars(c.as_slice(), w.as_slice()) < c.len()
        },
        None => false,
    }
}

fn content_range_total(v: &Option<String>) -> (r: u64)
    ensures
        r == content_range_total_spec(opt_view(*v)),
{
    match v {
        Some(s) => {
            let c = chars_of(s.as_str());
            let last = string_of(suffix_after_last(c.as_slice(), '/').as_slice());
            header_u64(&Some(last))
        },
        None => 0,
    }
}

/// The target that a successful HEAD response describes.
pub fn target_from_head(m: &ResponseMeta) -> (t: DownloadTarget)
    ensures
        head_target_spec(t, *m),
{
    let filename = match &m.content_disposition {
        Some(cd) => resolve_filename(Some(cd.as_str()), m.final_url.as_str()),
        None => resolve_filename(None, m.final_url.as_str()),
    };
    DownloadTarget {
        url: m.final_url.clone(),
        filename,
        total_length: header_u64(&m.content_length),
        supports_range: advertises_bytes(&m.accept_ranges),
    }
}

/// The target that a response to the ranged GET for byte 0 describes.
pub fn target_from_ranged_get(m: &ResponseMeta) -> (t: DownloadTarget)
    ensures
        ranged_get_target_spec(t, *m),
{
    let filename = match &m.content_disposition {
        Some(cd) => resolve_filename(Some(cd.as_str()), m.final_url.as_str()),
        None => resolve_filename(None, m.final_url.as_str()),
    };
    let partial = m.status == STATUS_PARTIAL_CONTENT;
    let total_length = if partial {
        content_range_total(&m.content_range)
    } else {
        header_u64(&m.content_length)
    };
    DownloadTarget {
        url: m.final_url.clone(),
        filename,
        total_length,
        supports_range: partial || advertises_bytes(&m.accept_ranges),
    }
}

/// The next thing a probe does.
#[derive(Debug, Clone, PartialEq, Eq)]
pub enum ProbeStep {
    /// Send a HEAD request for the URL.
    SendHead,
    /// Send a GET for the URL with `Range: bytes=0-0`.
    SendRangedGet,
    /// Wait this many seconds, then send a HEAD request again.
    Wait(u64),
    /// The probe is done.
    Done(DownloadTarget),
    /// The attempts are spent.
    Fail,
}

/// A probe across its attempts.
#[derive(Debug, Clone, Copy, PartialEq, Eq, Structural)]
pub struct Prober {
    pub failures: u32,
    pub policy: RetryPolicy,
}

impl Prober {
    /// A probe that has not started, with the probing retry policy.
    pub fn new() -> (r: Prober)
        ensures
            r.failures == 0,
            r.policy.wf(),
            r.policy.max_attempts == 4,
            r.policy.base_delay_secs == 2,
            r.policy.max_exponent == 3,
    {
        Prober { failures: 0, policy: RetryPolicy::probe() }
    }

    /// Takes the outcome of the HEAD request: a response, or `None` for a
    /// transport error. A success status ends the probe; anything else falls
    /// back to the ranged GET.
    pub fn on_head(&self, response: Option<&ResponseMeta>) -> (r: ProbeStep)
        ensures
            match response {
                Some(m) => if is_success(m.status) {
                    r matches ProbeStep::Done(t) && head_target_spec(t, *m)
                } else {
                    r == ProbeStep::SendRangedGet
                },
                None => r == ProbeStep::SendRangedGet,
            },
    {
        match response {
            Some(m) => {
                if 200 <= m.status && m.status <= 299 {
                    ProbeStep::Done(target_from_head(m))
                } else {
                    ProbeStep::SendRangedGet
                }
            },
            None => ProbeStep::SendRangedGet,
        }
    }

    /// Takes the outcome of the ranged GET: any response ends the probe; a
    /// transport error fails the attempt, which is retried after a delay
    /// until the attempts are spent.
    pub fn on_ranged_get(&mut self, response: Option<&ResponseMeta>) -> (r: ProbeStep)
        requires
            old(self).policy.wf(),
        ensures
            final(self).policy == old(self).policy,
            match response {
                Some(m) => (r matches ProbeStep::Done(t) && ranged_get_target_spec(t, *m))
                    && final(self).failures == old(self).failures,
                None => {
                    &&& final(self).failures == (if old(self).failures < u32::MAX {
                        old(self).failures + 1
                    } else {
                        old(self).failures as int
                    })
                    &&& match old(self).policy.decide_spec(final(self).failures as nat) {
                        RetryDecision::GiveUp => r == ProbeStep::Fail,
                        RetryDecision::RetryAfter(d) => r == ProbeStep::Wait(d),
                    }
                },
            },
    {
        match response {
            Some(m) => ProbeStep::Done(target_from_ranged_get(m)),
            None => {
                if self.failures < u32::MAX {
                    self.failures = self.failures + 1;
                }
                match self.policy.after_failure(self.failures) {
                    RetryDecision::GiveUp => ProbeStep::Fail,
                    RetryDecision::RetryAfter(d) => ProbeStep::Wait(d),
                }
            },
        }
    }
}

} // verus!
