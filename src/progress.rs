//! Progress reporting: the notifications a download emits, how percentages
//! and speeds are written, the sampled speed estimate, and the store that
//! keeps the latest status of an update download.

use vstd::prelude::*;
use crate::text::{decimal_chars, digit_char, push_decimal_chars, string_of};

verus! {

/// A progress notification for a file or plugin download.
#[derive(Debug, Clone, PartialEq, Eq)]
pub struct DownloadInfo {
    /// A percentage such as `42.5%`.
    pub progress: String,
    /// A speed such as `12.34MB/s`.
    pub speed: String,
    /// The download is still running.
    pub downloading: bool,
}

/// The status of an update download.
#[derive(Debug, Clone, PartialEq, Eq)]
pub struct DownloadStatus {
    /// Whole percent, at most 100.
    pub progress: u64,
    /// MB/s with two decimals, such as `12.34`.
    pub speed: String,
}

/// A notification for the sink that the caller supplied.
#[derive(Debug, Clone, PartialEq, Eq)]
pub enum DownloadEvent {
    Progress(DownloadInfo),
    UpdateProgress(DownloadStatus),
}

/// What a download is for, which decides the kind of its notifications.
#[derive(Debug, Clone, Copy, PartialEq, Eq, Structural)]
pub enum DownloadEventType {
    FileDownload,
    UpdateDownload,
    PluginDownload,
}

pub const TICK_MS: u64 = 100;
pub const EMIT_INTERVAL_MS: u64 = 250;
pub const SPEED_WINDOW_MS: u64 = 2000;
pub const SAVE_INTERVAL_MS: u64 = 30000;
pub const MAX_DELTAS_PER_TICK: usize = 1000;

/// Tenths of a percent of `done` out of `total`, rounded half up, at most
/// 100 %.
pub open spec fn tenths_spec(done: nat, total: nat) -> nat {
    let t = (done * 2000 + total) / (2 * total);
    if t <= 1000 {
        t
    } else {
        1000
    }
}

/// Whole percent of `done` out of `total`, rounded down, at most 100.
pub open spec fn whole_percent_spec(done: nat, total: nat) -> nat {
    let p = (done * 100) / total;
    if p <= 100 {
        p
    } else {
        100
    }
}

/// Hundredths of MB/s (1 MB = 1048576 bytes) for `bytes` in `elapsed_ms`,
/// rounded half up; 0 for no elapsed time.
pub open spec fn speed_centi_spec(bytes: nat, elapsed_ms: nat) -> nat {
    if elapsed_ms == 0 {
        0
    } else {
        let v = (bytes * 200000 + elapsed_ms * 1048576) / (elapsed_ms * 2097152);
        if v <= u64::MAX {
            v
        } else {
            u64::MAX as nat
        }
    }
}

/// A percentage with one decimal: `42.5%`.
pub open spec fn percent_text_spec(tenths: nat) -> Seq<char> {
    decimal_chars(tenths / 10) + seq!['.', digit_char(tenths % 10), '%']
}

/// The percentage shown when the total size is unknown.
pub open spec fn indeterminate_text() -> Seq<char> {
    seq!['-', '-']
}

/// A number of hundredths with two decimals: `12.34`.
pub open spec fn centi_text_spec(centi: nat) -> Seq<char> {
    decimal_chars(centi / 100) + seq!['.', digit_char((centi % 100) / 10), digit_char(centi % 10)]
}

pub open spec fn mb_per_s() -> Seq<char> {
    seq!['M', 'B', '/', 's']
}

/// The percentage text of `done` out of `total`; indeterminate when `total`
/// is 0, the size being unknown.
pub open spec fn progress_text_spec(done: nat, total: nat) -> Seq<char> {
    if total == 0 {
        indeterminate_text()
    } else {
        percent_text_spec(tenths_spec(done, total))
    }
}

/// `ev` is the in-flight notification of a `kind` download with `done` of
/// `total` bytes at `centi` hundredths of MB/s.
pub open spec fn is_progress_event(
    ev: DownloadEvent,
    kind: DownloadEventType,
    done: nat,
    total: nat,
    centi: nat,
) -> bool {
    match kind {
        DownloadEventType::UpdateDownload => match ev {
            DownloadEvent::UpdateProgress(st) => st.progress == (if total == 0 {
                0
            } else {
                whole_percent_spec(done, total)
            }) && st.speed@ == centi_text_spec(centi),
            _ => false,
        },
        _ => match ev {
            DownloadEvent::Progress(info) => info.progress@ == progress_text_spec(done, total)
                && info.speed@ == centi_text_spec(centi) + mb_per_s() && info.downloading,
            _ => false,
        },
    }
}

/// `ev` is the completion notification of a `kind` download: 100 % at no
/// speed, no longer running.
pub open spec fn is_completion_event(ev: DownloadEvent, kind: DownloadEventType) -> bool {
    match kind {
        DownloadEventType::UpdateDownload => match ev {
            DownloadEvent::UpdateProgress(st) => st.progress == 100 && st.speed@ == seq![
                '0',
                '.',
                '0',
                '0',
            ],
            _ => false,
        },
        _ => match ev {
            DownloadEvent::Progress(info) => info.progress@ == seq!['1', '0', '0', '%']
                && info.speed@ == seq!['0', '.', '0', '0', 'M', 'B', '/', 's'] && !info.downloading,
            _ => false,
        },
    }
}

/// Tenths of a percent of `done` out of `total`.
pub fn percent_tenths(done: u64, total: u64) -> (r: u64)
    requires
        total > 0,
    ensures
        r == tenths_spec(done as nat, total as nat),
{
    let t = (done as u128 * 2000 + total as u128) / (2 * total as u128);
    if t <= 1000 {
        t as u64
    } else {
        1000
    }
}

/// Whole percent of `done` out of `total`.
pub fn whole_percent(done: u64, total: u64) -> (r: u64)
    requires
        total > 0,
    ensures
        r == whole_percent_spec(done as nat, total as nat),
{
    let p = (done as u128 * 100) / total as u128;
    if p <= 100 {
        p as u64
    } else {
        100
    }
}

/// Hundredths of MB/s for `bytes` transferred in `elapsed_ms`.
pub fn speed_centi(bytes: u64, elapsed_ms: u64) -> (r: u64)
    ensures
        r == speed_centi_spec(bytes as nat, elapsed_ms as nat),
{
    if elapsed_ms == 0 {
        return 0;
    }
    assert(bytes * 200000 + elapsed_ms * 1048576 <= u128::MAX) by (nonlinear_arith)
        requires
            bytes <= u64::MAX,
            elapsed_ms <= u64::MAX,
    ;
    let num = bytes as u128 * 200000 + elapsed_ms as u128 * 1048576;
    let den = elapsed_ms as u128 * 2097152;
    let v = num / den;
    if v <= u64::MAX as u128 {
        v as u64
    } else {
        u64::MAX
    }
}

fn push_digit(out: &mut Vec<char>, d: u64)
    requires
        d < 10,
    ensures
        final(out)@ == old(out)@.push(digit_char(d as nat)),
{
    out.push((d as u8 + 48) as char);
}

/// `42.5%` for 425 tenths.
pub fn percent_text(tenths: u64) -> (r: String)
    ensures
        r@ == percent_text_spec(tenths as nat),
{
    let mut v: Vec<char> = Vec::new();
    push_decimal_chars(&mut v, tenths / 10);
    v.push('.');
    push_digit(&mut v, tenths % 10);
    v.push('%');
    let r = string_of(v.as_slice());
    assert(r@ =~= percent_text_spec(tenths as nat));
    r
}

/// `12.34` for 1234 hundredths.
pub fn centi_text(centi: u64) -> (r: Vec<char>)
    ensures
        r@ == centi_text_spec(centi as nat),
{
    let mut v: Vec<char> = Vec::new();
    push_decimal_chars(&mut v, centi / 100);
    v.push('.');
    push_digit(&mut v, (centi % 100) / 10);
    push_digit(&mut v, centi % 10);
    assert(v@ =~= centi_text_spec(centi as nat));
    v
}

/// The in-flight notification for `done` of `total` bytes (`total` 0 when
/// unknown) at `centi` hundredths of MB/s.
pub fn progress_event(kind: DownloadEventType, done: u64, total: u64, centi: u64) -> (r:
    DownloadEvent)
    ensures
        is_progress_event(r, kind, done as nat, total as nat, centi as nat),
{
    let speed = centi_text(centi);
    match kind {
        DownloadEventType::UpdateDownload => {
            let progress = if total == 0 {
                0
            } else {
                whole_percent(done, total)
            };
            DownloadEvent::UpdateProgress(DownloadStatus { progress, speed: string_of(speed.as_slice()) })
        },
        _ => {
            let progress = if total == 0 {
                let d = vec!['-', '-'];
                assert(d@ =~= indeterminate_text());
                string_of(d.as_slice())
            } else {
                percent_text(percent_tenths(done, total))
            };
            let mut s = speed;
            s.push('M');
            s.push('B');
            s.push('/');
            s.push('s');
            assert(s@ =~= centi_text_spec(centi as nat) + mb_per_s());
            DownloadEvent::Progress(DownloadInfo { progress, speed: string_of(s.as_slice()), downloading: true })
        },
    }
}

/// The notification that a `kind` download has completed.
pub fn completion_event(kind: DownloadEventType) -> (r: DownloadEvent)
    ensures
        is_completion_event(r, kind),
{
    match kind {
        DownloadEventType::UpdateDownload => {
            let s = vec!['0', '.', '0', '0'];
            DownloadEvent::UpdateProgress(DownloadStatus { progress: 100, speed: string_of(s.as_slice()) })
        },
        _ => {
            let p = vec!['1', '0', '0', '%'];
            let s = vec!['0', '.', '0', '0', 'M', 'B', '/', 's'];
            DownloadEvent::Progress(
                DownloadInfo {
                    progress: string_of(p.as_slice()),
                    speed: string_of(s.as_slice()),
                    downloading: false,
                },
            )
        },
    }
}

impl DownloadInfo {
    /// The notification sent when a download starts: 0 %, running.
    pub fn started() -> (r: DownloadInfo)
        ensures
            r.progress@ == seq!['0', '%'],
            r.speed@ == seq!['0', '.', '0', '0', 'M', 'B', '/', 's'],
            r.downloading,
    {
        let p = vec!['0', '%'];
        let s = vec!['0', '.', '0', '0', 'M', 'B', '/', 's'];
        DownloadInfo { progress: string_of(p.as_slice()), speed: string_of(s.as_slice()), downloading: true }
    }

    /// The notification sent when a download has failed: 0 %, stopped.
    pub fn failed() -> (r: DownloadInfo)
        ensures
            r.progress@ == seq!['0', '%'],
            r.speed@ == seq!['0', '.', '0', '0', 'M', 'B', '/', 's'],
            !r.downloading,
    {
        let p = vec!['0', '%'];
        let s = vec!['0', '.', '0', '0', 'M', 'B', '/', 's'];
        DownloadInfo { progress: string_of(p.as_slice()), speed: string_of(s.as_slice()), downloading: false }
    }
}

impl DownloadStatus {
    /// The status of an update download that has just been started.
    pub fn initial() -> (r: DownloadStatus)
        ensures
            r.progress == 0,
            r.speed@ == seq!['0', '.', '0', '0'],
    {
        let s = vec!['0', '.', '0', '0'];
        DownloadStatus { progress: 0, speed: string_of(s.as_slice()) }
    }

    /// A copy with the same fields.
    pub fn duplicate(&self) -> (r: DownloadStatus)
        ensures
            r.progress == self.progress,
            r.speed@ == self.speed@,
    {
        DownloadStatus { progress: self.progress, speed: self.speed.clone() }
    }
}

/// Keeps the latest status of an update download, for a caller that polls.
pub struct UpdateStatusStore {
    pub status: Option<DownloadStatus>,
}

/// Two optional statuses hold the same fields.
pub open spec fn same_status(a: Option<DownloadStatus>, b: Option<DownloadStatus>) -> bool {
    match (a, b) {
        (Some(x), Some(y)) => x.progress == y.progress && x.speed@ == y.speed@,
        (None, None) => true,
        _ => false,
    }
}

impl UpdateStatusStore {
    /// A store that has seen no status.
    pub fn new() -> (r: UpdateStatusStore)
        ensures
            r.status is None,
    {
        UpdateStatusStore { status: None }
    }

    /// Records the start of an update download: 0 % at no speed.
    pub fn reset(&mut self)
        ensures
            final(self).status matches Some(s) && s.progress == 0 && s.speed@ == seq![
                '0',
                '.',
                '0',
                '0',
            ],
    {
        self.status = Some(DownloadStatus::initial());
    }

    /// Takes a notification: an update status replaces the stored one; a
    /// file or plugin notification leaves it as it is.
    pub fn notify(&mut self, event: &DownloadEvent)
        ensures
            match *event {
                DownloadEvent::UpdateProgress(st) => same_status(final(self).status, Some(st)),
                DownloadEvent::Progress(_) => same_status(final(self).status, old(self).status),
            },
    {
        match event {
            DownloadEvent::UpdateProgress(st) => {
                self.status = Some(st.duplicate());
            },
            DownloadEvent::Progress(_) => {
                proof {
                    assert(same_status(self.status, self.status));
                }
            },
        }
    }
}

/// The latest status of the update download that `store` follows, if one
/// has started.
pub fn get_update_download_status(store: &UpdateStatusStore) -> (r: Option<DownloadStatus>)
    ensures
        same_status(r, store.status),
{
    match &store.status {
        Some(s) => Some(s.duplicate()),
        None => None,
    }
}

/// Cumulative bytes at a moment, in milliseconds of the caller's clock.
#[derive(Debug, Clone, Copy, PartialEq, Eq, Structural)]
pub struct Sample {
    pub at_ms: u64,
    pub bytes: u64,
}

/// The samples of `w` taken less than the speed window before `now`.
pub open spec fn recent(w: Seq<Sample>, now: nat) -> Seq<Sample>
    decreases w.len(),
{
    if w.len() == 0 {
        w
    } else {
        let r = recent(w.drop_last(), now);
        if now - w.last().at_ms < SPEED_WINDOW_MS {
            r.push(w.last())
        } else {
            r
        }
    }
}

/// The sum of `d`.
pub open spec fn sum(d: Seq<u64>) -> nat
    decreases d.len(),
{
    if d.len() == 0 {
        0
    } else {
        sum(d.drop_last()) + d.last() as nat
    }
}

pub open spec fn cap(n: int) -> nat {
    if n <= u64::MAX {
        n as nat
    } else {
        u64::MAX as nat
    }
}

/// The speed over a window: from its oldest sample to `downloaded` at
/// `now`; 0 with fewer than two samples.
pub open spec fn window_speed_spec(w: Seq<Sample>, downloaded: nat, now: nat) -> nat {
    if w.len() >= 2 {
        speed_centi_spec((downloaded - w[0].bytes) as nat, (now - w[0].at_ms) as nat)
    } else {
        0
    }
}

/// What one tick of the tracker asks of the caller.
pub struct TickReport {
    /// An in-flight notification to emit.
    pub progress: Option<DownloadEvent>,
    /// The checkpoint is due to be saved.
    pub save_checkpoint: bool,
    /// The completion notification, once every byte has arrived.
    pub completed: Option<DownloadEvent>,
}

/// Aggregates the byte counts that fetchers report and turns them into
/// notifications.
pub struct ProgressTracker {
    pub kind: DownloadEventType,
    /// The expected size; 0 when unknown.
    pub total: u64,
    pub downloaded: u64,
    pub window: Vec<Sample>,
    pub last_tick_ms: u64,
    pub last_emit_ms: u64,
    pub last_save_ms: u64,
    pub finished: bool,
}

impl ProgressTracker {
    /// The clock marks are no later than the last tick, and every sample is
    /// no later than it and no larger than the count.
    pub open spec fn wf(&self) -> bool {
        &&& self.last_emit_ms <= self.last_tick_ms
        &&& self.last_save_ms <= self.last_tick_ms
        &&& forall|i: int|
            0 <= i < self.window@.len() ==> (#[trigger] self.window@[i]).at_ms <= self.last_tick_ms
                && self.window@[i].bytes <= self.downloaded
    }

    /// A tracker for a `kind` download of `total` bytes (0 if unknown), of
    /// which `already` were fetched before, started at `now_ms`.
    pub fn new(kind: DownloadEventType, total: u64, already: u64, now_ms: u64) -> (r: ProgressTracker)
        ensures
            r.wf(),
            r.kind == kind,
            r.total == total,
            r.downloaded == already,
            r.window@.len() == 0,
            r.last_tick_ms == now_ms,
            r.last_emit_ms == now_ms,
            r.last_save_ms == now_ms,
            !r.finished,
    {
        ProgressTracker {
            kind,
            total,
            downloaded: already,
            window: Vec::new(),
            last_tick_ms: now_ms,
            last_emit_ms: now_ms,
            last_save_ms: now_ms,
            finished: false,
        }
    }

    /// Takes the byte counts reported since the last tick, at `now_ms`: adds
    /// them up, samples the total, and says what to emit and whether to save
    /// the checkpoint.
    pub fn tick(&mut self, now_ms: u64, deltas: &[u64]) -> (r: TickReport)
        requires
            old(self).wf(),
            now_ms >= old(self).last_tick_ms,
        ensures
            final(self).wf(),
            final(self).kind == old(self).kind,
            final(self).total == old(self).total,
            final(self).last_tick_ms == now_ms,
            final(self).downloaded == cap(old(self).downloaded + sum(deltas@)),
            final(self).window@ == (if sum(deltas@) > 0 {
                recent(
                    old(self).window@.push(Sample { at_ms: now_ms, bytes: final(self).downloaded }),
                    now_ms as nat,
                )
            } else {
                old(self).window@
            }),
            (now_ms - old(self).last_emit_ms >= EMIT_INTERVAL_MS) == (r.progress is Some),
            r.progress matches Some(ev) ==> is_progress_event(
                ev,
                final(self).kind,
                final(self).downloaded as nat,
                final(self).total as nat,
                window_speed_spec(final(self).window@, final(self).downloaded as nat, now_ms as nat),
            ),
            final(self).last_emit_ms == (if r.progress is Some {
                now_ms
            } else {
                old(self).last_emit_ms
            }),
            r.save_checkpoint == (now_ms - old(self).last_save_ms >= SAVE_INTERVAL_MS),
            final(self).last_save_ms == (if r.save_checkpoint {
                now_ms
            } else {
                old(self).last_save_ms
            }),
            (r.completed is Some) == (!old(self).finished && final(self).total > 0
                && final(self).downloaded >= final(self).total),
            r.completed matches Some(ev) ==> is_completion_event(ev, final(self).kind),
            final(self).finished == (old(self).finished || r.completed is Some),
    {
        let mut batch: u64 = 0;
        let mut i: usize = 0;
        while i < deltas.len()
            invariant
                i <= deltas@.len(),
                batch == cap(sum(deltas@.take(i as int)) as int),
            decreases deltas@.len() - i,
        {
            assert(deltas@.take(i + 1).drop_last() =~= deltas@.take(i as int));
            let d = deltas[i];
            batch = if batch <= u64::MAX - d {
                batch + d
            } else {
                u64::MAX
            };
            i = i + 1;
        }
        assert(deltas@.take(i as int) =~= deltas@);
        let ghost old_window = self.window@;
        let ghost old_downloaded = self.downloaded;
        if batch > 0 {
            self.downloaded = if self.downloaded <= u64::MAX - batch {
                self.downloaded + batch
            } else {
                u64::MAX
            };
            self.window.push(Sample { at_ms: now_ms, bytes: self.downloaded });
            let ghost pushed = self.window@;
            let mut kept: Vec<Sample> = Vec::new();
            let mut j: usize = 0;
            while j < self.window.len()
                invariant
                    j <= self.window@.len(),
                    self.window@ == pushed,
                    kept@ == recent(pushed.take(j as int), now_ms as nat),
                    forall|k: int| 0 <= k < pushed.len() ==> (#[trigger] pushed[k]).at_ms <= now_ms,
                    forall|k: int| 0 <= k < kept@.len() ==> #[trigger] kept@[k].at_ms <= now_ms
                        && kept@[k].bytes <= self.downloaded,
                    forall|k: int| 0 <= k < pushed.len() ==> (#[trigger] pushed[k]).bytes <= self.downloaded,
                decreases self.window@.len() - j,
            {
                assert(pushed.take(j + 1).drop_last() =~= pushed.take(j as int));
                let s = self.window[j];
                if now_ms - s.at_ms < SPEED_WINDOW_MS {
                    kept.push(s);
                }
                j = j + 1;
            }
            assert(pushed.take(j as int) =~= pushed);
            self.window = kept;
        }
        self.last_tick_ms = now_ms;
        assert(forall|k: int| 0 <= k < self.window@.len() ==> (#[trigger] self.window@[k]).at_ms <= now_ms
            && self.window@[k].bytes <= self.downloaded);
        let progress = if now_ms - self.last_emit_ms >= EMIT_INTERVAL_MS {
            self.last_emit_ms = now_ms;
            let speed = if self.window.len() >= 2 {
                let oldest = self.window[0];
                speed_centi(self.downloaded - oldest.bytes, now_ms - oldest.at_ms)
            } else {
                0
            };
            Some(progress_event(self.kind, self.downloaded, self.total, speed))
        } else {
            None
        };
        let save_checkpoint = now_ms - self.last_save_ms >= SAVE_INTERVAL_MS;
        if save_checkpoint {
            self.last_save_ms = now_ms;
        }
        let completed = if !self.finished && self.total > 0 && self.downloaded >= self.total {
            self.finished = true;
            Some(completion_event(self.kind))
        } else {
            None
        };
        TickReport { progress, save_checkpoint, completed }
    }
}

} // verus!
