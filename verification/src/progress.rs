//! Live transfer status, polled by callers while a transfer runs.
//!
//! A `TransferStatus` is created fresh when a transfer starts (overwriting
//! any prior entry for the session) and lives only in memory. The registry
//! is a map from session id to status behind a narrow interface of get,
//! insert and field-update operations; the caller guards it with its own
//! lock, held only for these synchronous updates.

use vstd::prelude::*;

use crate::manifest::spec_saturate_u64;
use crate::transfer::FileEntry;

verus! {

/// Per-file progress: bytes transferred so far (never exceeding the
/// file's total) and whether the file is finished.
#[derive(Clone, Debug)]
pub struct FileProgress {
    pub path: String,
    pub transferred: u64,
    pub total: u64,
    pub done: bool,
}

/// The closed set of states a transfer session moves through, in order;
/// `Completed` is terminal.
#[derive(Clone, Copy, Debug, PartialEq, Eq, Structural)]
pub enum TransferState {
    Pending,
    Resuming,
    Transferring,
    Completed,
}

/// One session's live status: byte totals, per-file progress in file-set
/// order, an instantaneous rate in bytes per second, and the moment (in
/// wall-clock milliseconds) the transfer started.
#[derive(Clone, Debug)]
pub struct TransferStatus {
    pub session_id: String,
    pub total_bytes: u64,
    pub transferred_bytes: u64,
    pub file_progress: Vec<FileProgress>,
    pub rate: u64,
    pub eta_seconds: Option<u64>,
    pub state: TransferState,
    pub started_at_ms: u64,
}

/// Relies on `std::time::SystemTime`: the wall clock now, in milliseconds
/// since the Unix epoch. Nothing can be promised of a clock reading.
#[verifier::external_body]
pub fn instant_now() -> u64 {
    match std::time::SystemTime::now().duration_since(std::time::UNIX_EPOCH) {
        Ok(d) => d.as_millis() as u64,
        Err(_) => 0,
    }
}

/// Milliseconds from `started` to `now`, zero if the clock went backwards.
pub open spec fn spec_elapsed_ms(started: u64, now: u64) -> u64 {
    if now >= started {
        (now - started) as u64
    } else {
        0
    }
}

/// The instantaneous rate in bytes per second: `bytes` over the elapsed
/// milliseconds (at least one), saturated into `u64`.
pub open spec fn spec_rate(bytes: u64, elapsed_ms: u64) -> u64 {
    let ms = if elapsed_ms == 0 {
        1
    } else {
        elapsed_ms as nat
    };
    spec_saturate_u64(((bytes * 1000) as nat / ms) as nat)
}

/// Computes `spec_rate`.
pub fn compute_rate(bytes: u64, elapsed_ms: u64) -> (r: u64)
    ensures
        r == spec_rate(bytes, elapsed_ms),
{
    let ms: u128 = if elapsed_ms == 0 {
        1
    } else {
        elapsed_ms as u128
    };
    let scaled: u128 = (bytes as u128) * 1000 / ms;
    if scaled > u64::MAX as u128 {
        u64::MAX
    } else {
        scaled as u64
    }
}

/// The sum of the sizes of a file set, the session's byte total.
pub open spec fn spec_total_size(files: Seq<FileEntry>) -> nat
    decreases files.len(),
{
    if files.len() == 0 {
        0
    } else {
        (spec_total_size(files.drop_last()) + files.last().size) as nat
    }
}

/// The sum of per-file transferred counters.
pub open spec fn spec_progress_sum(fps: Seq<FileProgress>) -> nat
    decreases fps.len(),
{
    if fps.len() == 0 {
        0
    } else {
        (spec_progress_sum(fps.drop_last()) + fps.last().transferred) as nat
    }
}

/// A per-file counter after one chunk of `chunk` bytes: raised, clamped to
/// the file's total.
pub open spec fn spec_fp_bumped(fp: FileProgress, chunk: u64) -> FileProgress {
    FileProgress {
        transferred: if fp.transferred + chunk <= fp.total {
            (fp.transferred + chunk) as u64
        } else {
            fp.total
        },
        ..fp
    }
}

/// The session counter after one file's counter moved from `before` to
/// `after`: raised or lowered by the same amount, clamped at the type's
/// bounds.
pub open spec fn spec_rebalanced(counter: u64, before: u64, after: u64) -> u64 {
    if after >= before {
        spec_saturate_u64((counter + (after - before)) as nat)
    } else if counter >= before - after {
        (counter - (before - after)) as u64
    } else {
        0
    }
}

/// Computes `spec_rebalanced`.
fn rebalanced(counter: u64, before: u64, after: u64) -> (r: u64)
    ensures
        r == spec_rebalanced(counter, before, after),
{
    if after >= before {
        let d = after - before;
        if counter <= u64::MAX - d {
            counter + d
        } else {
            u64::MAX
        }
    } else {
        let d = before - after;
        if counter >= d {
            counter - d
        } else {
            0
        }
    }
}

/// Progress is monotone: a chunk update never lowers a file's transferred
/// counter and never pushes it past the file's total.
pub proof fn lemma_progress_monotone(fp: FileProgress, chunk: u64)
    requires
        fp.transferred <= fp.total,
    ensures
        fp.transferred <= spec_fp_bumped(fp, chunk).transferred,
        spec_fp_bumped(fp, chunk).transferred <= fp.total,
{
}

/// Rewriting one entry moves the sum of per-file counters by exactly that
/// entry's change.
pub proof fn lemma_progress_sum_update(fps: Seq<FileProgress>, q: int, fp2: FileProgress)
    requires
        0 <= q < fps.len(),
    ensures
        spec_progress_sum(fps.update(q, fp2)) + fps[q].transferred == spec_progress_sum(fps)
            + fp2.transferred,
    decreases fps.len(),
{
    let updated = fps.update(q, fp2);
    if q == fps.len() - 1 {
        assert(updated.drop_last() =~= fps.drop_last());
        assert(updated.last() == fp2);
    } else {
        lemma_progress_sum_update(fps.drop_last(), q, fp2);
        assert(updated.drop_last() =~= fps.drop_last().update(q, fp2));
        assert(updated.last() == fps.last());
    }
}

/// The sum of per-file counters is at least any one of them.
pub proof fn lemma_progress_sum_ge_element(fps: Seq<FileProgress>, q: int)
    requires
        0 <= q < fps.len(),
    ensures
        spec_progress_sum(fps) >= fps[q].transferred,
    decreases fps.len(),
{
    if q < fps.len() - 1 {
        lemma_progress_sum_ge_element(fps.drop_last(), q);
    }
}

/// The first position whose progress entry carries `path`, if any.
pub open spec fn is_first_fp(fps: Seq<FileProgress>, path: Seq<char>, q: int) -> bool {
    &&& 0 <= q < fps.len()
    &&& fps[q].path@ == path
    &&& forall|k: int| 0 <= k < q ==> (#[trigger] fps[k]).path@ != path
}

/// Whether any progress entry carries `path`.
pub open spec fn has_fp(fps: Seq<FileProgress>, path: Seq<char>) -> bool {
    exists|q: int| 0 <= q < fps.len() && (#[trigger] fps[q]).path@ == path
}

impl TransferStatus {
    /// Counters are sane: no file claims more than its total.
    pub open spec fn wf(&self) -> bool {
        forall|q: int|
            0 <= q < self.file_progress@.len() ==> (#[trigger] self.file_progress@[q]).transferred
                <= self.file_progress@[q].total
    }

    /// A fresh status for a starting session: state `Pending`, nothing
    /// transferred, one zeroed progress entry per file in file-set order,
    /// started at the wall clock now.
    pub fn new(session_id: String, files: &Vec<FileEntry>) -> (r: TransferStatus)
        ensures
            r.wf(),
            r.session_id@ == session_id@,
            r.total_bytes == spec_saturate_u64(spec_total_size(files@)),
            r.transferred_bytes == 0,
            r.rate == 0,
            r.eta_seconds is None,
            r.state == TransferState::Pending,
            r.file_progress@.len() == files@.len(),
            forall|q: int|
                0 <= q < files@.len() ==> {
                    &&& (#[trigger] r.file_progress@[q]).path@ == files@[q].path@
                    &&& r.file_progress@[q].transferred == 0
                    &&& r.file_progress@[q].total == files@[q].size
                    &&& r.file_progress@[q].done == false
                },
    {
        let mut total: u64 = 0;
        let mut fps: Vec<FileProgress> = Vec::new();
        let mut i: usize = 0;
        while i < files.len()
            invariant
                i <= files@.len(),
                total == spec_saturate_u64(spec_total_size(files@.take(i as int))),
                fps@.len() == i,
                forall|q: int|
                    0 <= q < i ==> {
                        &&& (#[trigger] fps@[q]).path@ == files@[q].path@
                        &&& fps@[q].transferred == 0
                        &&& fps@[q].total == files@[q].size
                        &&& fps@[q].done == false
                    },
            decreases files@.len() - i,
        {
            proof {
                assert(files@.take(i + 1 as int).drop_last() =~= files@.take(i as int));
            }
            let f = &files[i];
            if total <= u64::MAX - f.size {
                total = total + f.size;
            } else {
                total = u64::MAX;
            }
            fps.push(
                FileProgress { path: f.path.clone(), transferred: 0, total: f.size, done: false },
            );
            i = i + 1;
        }
        proof {
            assert(files@.take(files@.len() as int) =~= files@);
        }
        TransferStatus {
            session_id,
            total_bytes: total,
            transferred_bytes: 0,
            file_progress: fps,
            rate: 0,
            eta_seconds: None,
            state: TransferState::Pending,
            started_at_ms: instant_now(),
        }
    }
}

/// Whether position `p` holds the status of session `sid`.
pub open spec fn is_status_at(statuses: Seq<TransferStatus>, sid: Seq<char>, p: int) -> bool {
    0 <= p < statuses.len() && statuses[p].session_id@ == sid
}

/// Whether any status belongs to session `sid`.
pub open spec fn has_status(statuses: Seq<TransferStatus>, sid: Seq<char>) -> bool {
    exists|p: int| is_status_at(statuses, sid, p)
}

/// The registry of live transfer statuses, keyed by session id.
pub struct TransferManager {
    pub(crate) statuses: Vec<TransferStatus>,
}

impl View for TransferManager {
    type V = Seq<TransferStatus>;

    closed spec fn view(&self) -> Seq<TransferStatus> {
        self.statuses@
    }
}

impl TransferManager {
    /// Session ids are unique, so a session denotes one status, and every
    /// status has sane counters.
    pub open spec fn wf(&self) -> bool {
        &&& forall|i: int, j: int|
            0 <= i < j < self@.len() ==> (#[trigger] self@[i]).session_id@ != (
            #[trigger] self@[j]).session_id@
        &&& forall|i: int| 0 <= i < self@.len() ==> (#[trigger] self@[i]).wf()
    }

    /// An empty registry.
    pub fn new() -> (r: TransferManager)
        ensures
            r.wf(),
            r@.len() == 0,
    {
        TransferManager { statuses: Vec::new() }
    }

    /// The position of the session's status, if any.
    pub(crate) fn find_status(&self, session_id: &String) -> (r: Option<usize>)
        ensures
            match r {
                Some(p) => is_status_at(self@, session_id@, p as int),
                None => !has_status(self@, session_id@),
            },
    {
        let mut i: usize = 0;
        while i < self.statuses.len()
            invariant
                i <= self.statuses@.len(),
                forall|k: int|
                    0 <= k < i ==> (#[trigger] self.statuses@[k]).session_id@ != session_id@,
            decreases self.statuses@.len() - i,
        {
            if self.statuses[i].session_id == *session_id {
                return Some(i);
            }
            i = i + 1;
        }
        None
    }

    /// Registers a session's status, overwriting any prior entry.
    pub fn set_status(&mut self, session_id: String, status: TransferStatus)
        requires
            old(self).wf(),
            status.wf(),
            status.session_id@ == session_id@,
        ensures
            final(self).wf(),
            forall|p: int|
                is_status_at(old(self)@, session_id@, p) ==> final(self)@ == old(self)@.update(
                    p,
                    status,
                ),
            !has_status(old(self)@, session_id@) ==> final(self)@ == old(self)@.push(status),
    {
        match self.find_status(&session_id) {
            Some(p) => {
                let ghost before = self.statuses@;
                self.statuses[p] = status;
                proof {
                    assert(self.statuses@ == before.update(p as int, status));
                    assert forall|i: int, j: int|
                        0 <= i < j < self.statuses@.len() implies (
                    #[trigger] self.statuses@[i]).session_id@ != (
                    #[trigger] self.statuses@[j]).session_id@ by {
                        assert(before[i].session_id@ != before[j].session_id@);
                    }
                }
            },
            None => {
                let ghost before = self.statuses@;
                self.statuses.push(status);
                proof {
                    assert forall|i: int, j: int|
                        0 <= i < j < self.statuses@.len() implies (
                    #[trigger] self.statuses@[i]).session_id@ != (
                    #[trigger] self.statuses@[j]).session_id@ by {
                        if j == self.statuses@.len() - 1 {
                            assert(!is_status_at(before, session_id@, i));
                            assert(before[i].session_id@ != self.statuses@[j].session_id@);
                        } else {
                            assert(before[i].session_id@ != before[j].session_id@);
                        }
                    }
                }
            },
        }
    }

    /// A read-only view of the session's status.
    pub fn get_status(&self, session_id: &String) -> (r: Option<&TransferStatus>)
        requires
            self.wf(),
        ensures
            match r {
                Some(st) => is_status_at(self@, session_id@, spec_status_pos(self@, session_id@))
                    && *st == self@[spec_status_pos(self@, session_id@)],
                None => !has_status(self@, session_id@),
            },
    {
        match self.find_status(session_id) {
            Some(p) => {
                proof {
                    lemma_status_pos(self.statuses@, session_id@, p as int);
                }
                Some(&self.statuses[p])
            },
            None => None,
        }
    }
}

/// The position `has_status` promises, as a named value.
pub open spec fn spec_status_pos(statuses: Seq<TransferStatus>, sid: Seq<char>) -> int {
    choose|p: int| is_status_at(statuses, sid, p)
}

/// If `p` holds the session and ids are unique up to `p`, the chosen
/// position is `p` itself.
proof fn lemma_status_pos(statuses: Seq<TransferStatus>, sid: Seq<char>, p: int)
    requires
        is_status_at(statuses, sid, p),
        forall|i: int, j: int|
            0 <= i < j < statuses.len() ==> (#[trigger] statuses[i]).session_id@ != (
            #[trigger] statuses[j]).session_id@,
    ensures
        spec_status_pos(statuses, sid) == p,
{
    let q = spec_status_pos(statuses, sid);
    assert(is_status_at(statuses, sid, q));
    if q != p {
        if q < p {
            assert(statuses[q].session_id@ != statuses[p].session_id@);
        } else {
            assert(statuses[p].session_id@ != statuses[q].session_id@);
        }
    }
}

/// A first match is unique.
proof fn lemma_first_fp_unique(fps: Seq<FileProgress>, path: Seq<char>, a: int, b: int)
    requires
        is_first_fp(fps, path, a),
        is_first_fp(fps, path, b),
    ensures
        a == b,
{
    if a < b {
        assert(fps[a].path@ != path);
    }
    if b < a {
        assert(fps[b].path@ != path);
    }
}

/// A file's counter set to pre-existing progress: `reused` bytes, clamped
/// to the file's total.
pub open spec fn spec_fp_resumed(fp: FileProgress, reused: u64) -> FileProgress {
    FileProgress {
        transferred: if reused <= fp.total {
            reused
        } else {
            fp.total
        },
        ..fp
    }
}

/// A file's counter once the file is finished: done, fully transferred.
pub open spec fn spec_fp_done(fp: FileProgress) -> FileProgress {
    FileProgress { transferred: fp.total, done: true, ..fp }
}

/// The remaining bytes over the rate (at least one byte per second): the
/// estimated seconds to completion.
pub open spec fn spec_eta(total: u64, transferred: u64, rate: u64) -> u64 {
    (if total >= transferred {
        (total - transferred) as u64
    } else {
        0
    }) / (if rate == 0 {
        1
    } else {
        rate
    })
}

/// How recording one chunk rewrites a session's status: the file's counter
/// is bumped by the chunk (clamped to its total), the session counter
/// moves by exactly the same amount — so it stays the sum of the per-file
/// counters — and the rate is recomputed over the elapsed wall time since
/// the transfer started.
pub open spec fn spec_chunk_update(
    st: TransferStatus,
    st2: TransferStatus,
    path: Seq<char>,
    chunk: u64,
    now_ms: u64,
) -> bool {
    &&& st2.session_id == st.session_id
    &&& st2.total_bytes == st.total_bytes
    &&& st2.started_at_ms == st.started_at_ms
    &&& st2.state == st.state
    &&& st2.eta_seconds == st.eta_seconds
    &&& forall|q: int|
        is_first_fp(st.file_progress@, path, q) ==> st2.file_progress@ == st.file_progress@.update(
            q,
            spec_fp_bumped(st.file_progress@[q], chunk),
        ) && st2.transferred_bytes == spec_rebalanced(
            st.transferred_bytes,
            st.file_progress@[q].transferred,
            spec_fp_bumped(st.file_progress@[q], chunk).transferred,
        )
    &&& !has_fp(st.file_progress@, path) ==> st2.file_progress@ == st.file_progress@
        && st2.transferred_bytes == st.transferred_bytes
    &&& st2.rate == spec_rate(st2.transferred_bytes, spec_elapsed_ms(st.started_at_ms, now_ms))
}

/// How entering the resuming phase rewrites a session's status: state
/// `Resuming`, the file's counter set to its pre-existing progress, and
/// the session counter credited (or debited) by the same change, so the
/// pre-existing bytes count at the session level too.
pub open spec fn spec_resume_update(
    st: TransferStatus,
    st2: TransferStatus,
    path: Seq<char>,
    reused: u64,
) -> bool {
    &&& st2.session_id == st.session_id
    &&& st2.total_bytes == st.total_bytes
    &&& st2.started_at_ms == st.started_at_ms
    &&& st2.state == TransferState::Resuming
    &&& st2.eta_seconds == st.eta_seconds
    &&& st2.rate == st.rate
    &&& forall|q: int|
        is_first_fp(st.file_progress@, path, q) ==> st2.file_progress@ == st.file_progress@.update(
            q,
            spec_fp_resumed(st.file_progress@[q], reused),
        ) && st2.transferred_bytes == spec_rebalanced(
            st.transferred_bytes,
            st.file_progress@[q].transferred,
            spec_fp_resumed(st.file_progress@[q], reused).transferred,
        )
    &&& !has_fp(st.file_progress@, path) ==> st2.file_progress@ == st.file_progress@
        && st2.transferred_bytes == st.transferred_bytes
}

/// How finishing a file rewrites a session's status: the file's progress
/// ends done with `transferred` equal to its total, and the session
/// counter absorbs the final top-up.
pub open spec fn spec_done_update(st: TransferStatus, st2: TransferStatus, path: Seq<char>) -> bool {
    &&& st2.session_id == st.session_id
    &&& st2.total_bytes == st.total_bytes
    &&& st2.started_at_ms == st.started_at_ms
    &&& st2.state == st.state
    &&& st2.eta_seconds == st.eta_seconds
    &&& st2.rate == st.rate
    &&& forall|q: int|
        is_first_fp(st.file_progress@, path, q) ==> st2.file_progress@ == st.file_progress@.update(
            q,
            spec_fp_done(st.file_progress@[q]),
        ) && st2.transferred_bytes == spec_rebalanced(
            st.transferred_bytes,
            st.file_progress@[q].transferred,
            st.file_progress@[q].total,
        )
    &&& !has_fp(st.file_progress@, path) ==> st2.file_progress@ == st.file_progress@
        && st2.transferred_bytes == st.transferred_bytes
}

/// How a roughly once-a-second tick rewrites a session's status: the rate
/// is recomputed from the bytes moved since the last tick, and (when the
/// session has a byte total) the estimated seconds left are derived from
/// that short-window rate.
pub open spec fn spec_tick_update(
    st: TransferStatus,
    st2: TransferStatus,
    delta_bytes: u64,
    tick_ms: u64,
) -> bool {
    &&& st2.session_id == st.session_id
    &&& st2.total_bytes == st.total_bytes
    &&& st2.started_at_ms == st.started_at_ms
    &&& st2.state == st.state
    &&& st2.transferred_bytes == st.transferred_bytes
    &&& st2.file_progress@ == st.file_progress@
    &&& st2.rate == spec_rate(delta_bytes, tick_ms)
    &&& st2.eta_seconds == (if st.total_bytes > 0 {
        Some(spec_eta(st.total_bytes, st.transferred_bytes, spec_rate(delta_bytes, tick_ms)))
    } else {
        st.eta_seconds
    })
}

/// How completion rewrites a session's status: state `Completed`, the
/// session counter equal to its total, rate zero, nothing left to wait
/// for.
pub open spec fn spec_complete_update(st: TransferStatus, st2: TransferStatus) -> bool {
    &&& st2.session_id == st.session_id
    &&& st2.total_bytes == st.total_bytes
    &&& st2.started_at_ms == st.started_at_ms
    &&& st2.state == TransferState::Completed
    &&& st2.transferred_bytes == st.total_bytes
    &&& st2.file_progress@ == st.file_progress@
    &&& st2.rate == 0
    &&& st2.eta_seconds == Some(0u64)
}

impl TransferStatus {
    /// The first position of the progress entry for `path`, if any.
    fn find_fp(&self, path: &String) -> (r: Option<usize>)
        ensures
            match r {
                Some(q) => is_first_fp(self.file_progress@, path@, q as int),
                None => !has_fp(self.file_progress@, path@),
            },
    {
        let mut i: usize = 0;
        while i < self.file_progress.len()
            invariant
                i <= self.file_progress@.len(),
                forall|k: int| 0 <= k < i ==> (#[trigger] self.file_progress@[k]).path@ != path@,
            decreases self.file_progress@.len() - i,
        {
            if self.file_progress[i].path == *path {
                return Some(i);
            }
            i = i + 1;
        }
        None
    }

    /// Applies one chunk's progress to this status: the file's counter is
    /// bumped (clamped to its total) and the session counter moves by the
    /// same amount.
    pub(crate) fn apply_chunk(&mut self, path: &String, chunk: u64, now_ms: u64)
        requires
            old(self).wf(),
        ensures
            final(self).wf(),
            spec_chunk_update(*old(self), *final(self), path@, chunk, now_ms),
    {
        let ghost st = *self;
        if let Some(q) = self.find_fp(path) {
            let fp = &self.file_progress[q];
            let before = fp.transferred;
            let bumped: u64 = if chunk <= fp.total - fp.transferred {
                fp.transferred + chunk
            } else {
                fp.total
            };
            self.file_progress[q].transferred = bumped;
            self.transferred_bytes = rebalanced(self.transferred_bytes, before, bumped);
            proof {
                assert(self.file_progress@ == st.file_progress@.update(
                    q as int,
                    spec_fp_bumped(st.file_progress@[q as int], chunk),
                ));
                assert forall|q2: int|
                    is_first_fp(st.file_progress@, path@, q2) implies self.file_progress@
                    == st.file_progress@.update(
                    q2,
                    spec_fp_bumped(st.file_progress@[q2], chunk),
                ) && self.transferred_bytes == spec_rebalanced(
                    st.transferred_bytes,
                    st.file_progress@[q2].transferred,
                    spec_fp_bumped(st.file_progress@[q2], chunk).transferred,
                ) by {
                    lemma_first_fp_unique(st.file_progress@, path@, q as int, q2);
                }
            }
        } else {
            proof {
                assert forall|q2: int|
                    is_first_fp(st.file_progress@, path@, q2) implies self.file_progress@
                    == st.file_progress@.update(
                    q2,
                    spec_fp_bumped(st.file_progress@[q2], chunk),
                ) && self.transferred_bytes == spec_rebalanced(
                    st.transferred_bytes,
                    st.file_progress@[q2].transferred,
                    spec_fp_bumped(st.file_progress@[q2], chunk).transferred,
                ) by {
                    assert(has_fp(st.file_progress@, path@));
                }
            }
        }
        let elapsed: u64 = if now_ms >= self.started_at_ms {
            now_ms - self.started_at_ms
        } else {
            0
        };
        self.rate = compute_rate(self.transferred_bytes, elapsed);
    }

    /// Marks the resuming phase and reports `reused` pre-existing bytes
    /// for `path`, crediting the session counter with the same change.
    pub(crate) fn apply_resume(&mut self, path: &String, reused: u64)
        requires
            old(self).wf(),
        ensures
            final(self).wf(),
            spec_resume_update(*old(self), *final(self), path@, reused),
    {
        let ghost st = *self;
        self.state = TransferState::Resuming;
        if let Some(q) = self.find_fp(path) {
            let fp = &self.file_progress[q];
            let before = fp.transferred;
            let clamped: u64 = if reused <= fp.total {
                reused
            } else {
                fp.total
            };
            self.file_progress[q].transferred = clamped;
            self.transferred_bytes = rebalanced(self.transferred_bytes, before, clamped);
            proof {
                assert(self.file_progress@ == st.file_progress@.update(
                    q as int,
                    spec_fp_resumed(st.file_progress@[q as int], reused),
                ));
                assert forall|q2: int|
                    is_first_fp(st.file_progress@, path@, q2) implies self.file_progress@
                    == st.file_progress@.update(
                    q2,
                    spec_fp_resumed(st.file_progress@[q2], reused),
                ) && self.transferred_bytes == spec_rebalanced(
                    st.transferred_bytes,
                    st.file_progress@[q2].transferred,
                    spec_fp_resumed(st.file_progress@[q2], reused).transferred,
                ) by {
                    lemma_first_fp_unique(st.file_progress@, path@, q as int, q2);
                }
            }
        } else {
            proof {
                assert forall|q2: int|
                    is_first_fp(st.file_progress@, path@, q2) implies self.file_progress@
                    == st.file_progress@.update(
                    q2,
                    spec_fp_resumed(st.file_progress@[q2], reused),
                ) && self.transferred_bytes == spec_rebalanced(
                    st.transferred_bytes,
                    st.file_progress@[q2].transferred,
                    spec_fp_resumed(st.file_progress@[q2], reused).transferred,
                ) by {
                    assert(has_fp(st.file_progress@, path@));
                }
            }
        }
    }

    /// Marks the file at `path` finished, topping the session counter up
    /// by the file's remaining bytes.
    pub(crate) fn apply_done(&mut self, path: &String)
        requires
            old(self).wf(),
        ensures
            final(self).wf(),
            spec_done_update(*old(self), *final(self), path@),
    {
        let ghost st = *self;
        if let Some(q) = self.find_fp(path) {
            let before = self.file_progress[q].transferred;
            let total = self.file_progress[q].total;
            self.file_progress[q].transferred = total;
            self.file_progress[q].done = true;
            self.transferred_bytes = rebalanced(self.transferred_bytes, before, total);
            proof {
                assert(self.file_progress@ == st.file_progress@.update(
                    q as int,
                    spec_fp_done(st.file_progress@[q as int]),
                ));
                assert forall|q2: int|
                    is_first_fp(st.file_progress@, path@, q2) implies self.file_progress@
                    == st.file_progress@.update(q2, spec_fp_done(st.file_progress@[q2]))
                    && self.transferred_bytes == spec_rebalanced(
                    st.transferred_bytes,
                    st.file_progress@[q2].transferred,
                    st.file_progress@[q2].total,
                ) by {
                    lemma_first_fp_unique(st.file_progress@, path@, q as int, q2);
                }
            }
        } else {
            proof {
                assert forall|q2: int|
                    is_first_fp(st.file_progress@, path@, q2) implies self.file_progress@
                    == st.file_progress@.update(q2, spec_fp_done(st.file_progress@[q2]))
                    && self.transferred_bytes == spec_rebalanced(
                    st.transferred_bytes,
                    st.file_progress@[q2].transferred,
                    st.file_progress@[q2].total,
                ) by {
                    assert(has_fp(st.file_progress@, path@));
                }
            }
        }
    }

    /// Applies a short-window rate tick.
    pub(crate) fn apply_tick(&mut self, delta_bytes: u64, tick_ms: u64)
        requires
            old(self).wf(),
        ensures
            final(self).wf(),
            spec_tick_update(*old(self), *final(self), delta_bytes, tick_ms),
    {
        let rate = compute_rate(delta_bytes, tick_ms);
        self.rate = rate;
        if self.total_bytes > 0 {
            let remaining: u64 = if self.total_bytes >= self.transferred_bytes {
                self.total_bytes - self.transferred_bytes
            } else {
                0
            };
            let divisor: u64 = if rate == 0 {
                1
            } else {
                rate
            };
            self.eta_seconds = Some(remaining / divisor);
        }
    }

    /// Marks the session completed.
    pub(crate) fn apply_complete(&mut self)
        requires
            old(self).wf(),
        ensures
            final(self).wf(),
            spec_complete_update(*old(self), *final(self)),
    {
        self.state = TransferState::Completed;
        self.transferred_bytes = self.total_bytes;
        self.rate = 0;
        self.eta_seconds = Some(0);
    }
}


/// Under unique session ids, a session's position is unique.
proof fn lemma_status_unique(statuses: Seq<TransferStatus>, sid: Seq<char>, a: int, b: int)
    requires
        forall|i: int, j: int|
            0 <= i < j < statuses.len() ==> (#[trigger] statuses[i]).session_id@ != (
            #[trigger] statuses[j]).session_id@,
        is_status_at(statuses, sid, a),
        is_status_at(statuses, sid, b),
    ensures
        a == b,
{
    if a < b {
        assert(statuses[a].session_id@ != statuses[b].session_id@);
    }
    if b < a {
        assert(statuses[b].session_id@ != statuses[a].session_id@);
    }
}

impl TransferManager {
    /// Sets the session's lifecycle state; a session the registry does not
    /// know is left alone.
    pub fn set_state(&mut self, session_id: &String, state: TransferState)
        requires
            old(self).wf(),
        ensures
            final(self).wf(),
            forall|p: int|
                is_status_at(old(self)@, session_id@, p) ==> final(self)@ == old(self)@.update(
                    p,
                    TransferStatus { state, ..old(self)@[p] },
                ),
            !has_status(old(self)@, session_id@) ==> final(self)@ == old(self)@,
    {
        let ghost before = self@;
        if let Some(p) = self.find_status(session_id) {
            self.statuses[p].state = state;
            proof {
                lemma_manager_step(before, self@, session_id@, p as int);
            }
        }
    }

    /// Records one chunk's progress for a session and file. The durability
    /// order is "produce chunk, persist manifest, advance counters", so
    /// this is called only after the chunk's manifest write.
    pub fn update_progress(
        &mut self,
        session_id: &String,
        file_path: &String,
        chunk_bytes: u64,
        now_ms: u64,
    )
        requires
            old(self).wf(),
        ensures
            final(self).wf(),
            forall|p: int|
                is_status_at(old(self)@, session_id@, p) ==> final(self)@ == old(self)@.update(
                    p,
                    final(self)@[p],
                ) && spec_chunk_update(
                    old(self)@[p],
                    final(self)@[p],
                    file_path@,
                    chunk_bytes,
                    now_ms,
                ),
            !has_status(old(self)@, session_id@) ==> final(self)@ == old(self)@,
    {
        let ghost before = self@;
        if let Some(p) = self.find_status(session_id) {
            let st = &mut self.statuses[p];
            st.apply_chunk(file_path, chunk_bytes, now_ms);
            proof {
                lemma_manager_step(before, self@, session_id@, p as int);
            }
        }
    }

    /// Publishes the resuming phase for a session, reporting `reused`
    /// pre-existing bytes for a file before any I/O occurs.
    pub fn begin_resume(&mut self, session_id: &String, file_path: &String, reused: u64)
        requires
            old(self).wf(),
        ensures
            final(self).wf(),
            forall|p: int|
                is_status_at(old(self)@, session_id@, p) ==> final(self)@ == old(self)@.update(
                    p,
                    final(self)@[p],
                ) && spec_resume_update(old(self)@[p], final(self)@[p], file_path@, reused),
            !has_status(old(self)@, session_id@) ==> final(self)@ == old(self)@,
    {
        let ghost before = self@;
        if let Some(p) = self.find_status(session_id) {
            let st = &mut self.statuses[p];
            st.apply_resume(file_path, reused);
            proof {
                lemma_manager_step(before, self@, session_id@, p as int);
            }
        }
    }

    /// Marks a session's file finished.
    pub fn mark_file_done(&mut self, session_id: &String, file_path: &String)
        requires
            old(self).wf(),
        ensures
            final(self).wf(),
            forall|p: int|
                is_status_at(old(self)@, session_id@, p) ==> final(self)@ == old(self)@.update(
                    p,
                    final(self)@[p],
                ) && spec_done_update(old(self)@[p], final(self)@[p], file_path@),
            !has_status(old(self)@, session_id@) ==> final(self)@ == old(self)@,
    {
        let ghost before = self@;
        if let Some(p) = self.find_status(session_id) {
            let st = &mut self.statuses[p];
            st.apply_done(file_path);
            proof {
                lemma_manager_step(before, self@, session_id@, p as int);
            }
        }
    }

    /// Applies a short-window rate and estimated-time tick to a session.
    pub fn update_rate_eta(&mut self, session_id: &String, delta_bytes: u64, tick_ms: u64)
        requires
            old(self).wf(),
        ensures
            final(self).wf(),
            forall|p: int|
                is_status_at(old(self)@, session_id@, p) ==> final(self)@ == old(self)@.update(
                    p,
                    final(self)@[p],
                ) && spec_tick_update(old(self)@[p], final(self)@[p], delta_bytes, tick_ms),
            !has_status(old(self)@, session_id@) ==> final(self)@ == old(self)@,
    {
        let ghost before = self@;
        if let Some(p) = self.find_status(session_id) {
            let st = &mut self.statuses[p];
            st.apply_tick(delta_bytes, tick_ms);
            proof {
                lemma_manager_step(before, self@, session_id@, p as int);
            }
        }
    }

    /// Marks a session completed.
    pub fn complete(&mut self, session_id: &String)
        requires
            old(self).wf(),
        ensures
            final(self).wf(),
            forall|p: int|
                is_status_at(old(self)@, session_id@, p) ==> final(self)@ == old(self)@.update(
                    p,
                    final(self)@[p],
                ) && spec_complete_update(old(self)@[p], final(self)@[p]),
            !has_status(old(self)@, session_id@) ==> final(self)@ == old(self)@,
    {
        let ghost before = self@;
        if let Some(p) = self.find_status(session_id) {
            let st = &mut self.statuses[p];
            st.apply_complete();
            proof {
                lemma_manager_step(before, self@, session_id@, p as int);
            }
        }
    }
}

/// One keyed update touches exactly the session's position.
proof fn lemma_manager_step(
    before: Seq<TransferStatus>,
    after: Seq<TransferStatus>,
    sid: Seq<char>,
    p: int,
)
    requires
        forall|i: int, j: int|
            0 <= i < j < before.len() ==> (#[trigger] before[i]).session_id@ != (
            #[trigger] before[j]).session_id@,
        is_status_at(before, sid, p),
        after == before.update(p, after[p]),
        after[p].session_id == before[p].session_id,
    ensures
        forall|p2: int| is_status_at(before, sid, p2) ==> after == before.update(p2, after[p2]),
        forall|i: int, j: int|
            0 <= i < j < after.len() ==> (#[trigger] after[i]).session_id@ != (
            #[trigger] after[j]).session_id@,
{
    assert forall|p2: int| is_status_at(before, sid, p2) implies after == before.update(
        p2,
        after[p2],
    ) by {
        lemma_status_unique(before, sid, p, p2);
    }
    assert forall|i: int, j: int|
        0 <= i < j < after.len() implies (#[trigger] after[i]).session_id@ != (
    #[trigger] after[j]).session_id@ by {
        assert(before[i].session_id@ != before[j].session_id@);
        assert(after[i].session_id == if i == p {
            before[p].session_id
        } else {
            before[i].session_id
        });
        assert(after[j].session_id == if j == p {
            before[p].session_id
        } else {
            before[j].session_id
        });
    }
}


/// The session counter stays the sum of the per-file counters across one
/// chunk update: both sides move by exactly the file counter's change.
/// With `spec_resume_update` and `spec_done_update` sharing the same
/// rebalance, the accounting holds at every observation point of a run
/// that starts from a fresh status; completion then pins the counter to
/// the session's byte total.
pub proof fn lemma_accounting_chunk(
    st: TransferStatus,
    st2: TransferStatus,
    path: Seq<char>,
    chunk: u64,
    now_ms: u64,
    q: int,
)
    requires
        st.wf(),
        st.transferred_bytes == spec_progress_sum(st.file_progress@),
        is_first_fp(st.file_progress@, path, q),
        spec_chunk_update(st, st2, path, chunk, now_ms),
        spec_progress_sum(st.file_progress@) + chunk <= u64::MAX,
    ensures
        st2.transferred_bytes == spec_progress_sum(st2.file_progress@),
{
    let fp2 = spec_fp_bumped(st.file_progress@[q], chunk);
    lemma_progress_sum_update(st.file_progress@, q, fp2);
    lemma_progress_sum_ge_element(st.file_progress@, q);
}

/// The resume credit keeps the accounting: the session counter moves by
/// exactly the file counter's change when pre-existing bytes are reported.
pub proof fn lemma_accounting_resume(
    st: TransferStatus,
    st2: TransferStatus,
    path: Seq<char>,
    reused: u64,
    q: int,
)
    requires
        st.wf(),
        st.transferred_bytes == spec_progress_sum(st.file_progress@),
        is_first_fp(st.file_progress@, path, q),
        spec_resume_update(st, st2, path, reused),
        spec_progress_sum(st.file_progress@) + spec_fp_resumed(
            st.file_progress@[q],
            reused,
        ).transferred <= u64::MAX,
    ensures
        st2.transferred_bytes == spec_progress_sum(st2.file_progress@),
{
    let fp2 = spec_fp_resumed(st.file_progress@[q], reused);
    lemma_progress_sum_update(st.file_progress@, q, fp2);
    lemma_progress_sum_ge_element(st.file_progress@, q);
}

/// Finishing a file keeps the accounting: the top-up to the file's total
/// lands in the session counter too.
pub proof fn lemma_accounting_done(
    st: TransferStatus,
    st2: TransferStatus,
    path: Seq<char>,
    q: int,
)
    requires
        st.wf(),
        st.transferred_bytes == spec_progress_sum(st.file_progress@),
        is_first_fp(st.file_progress@, path, q),
        spec_done_update(st, st2, path),
        spec_progress_sum(st.file_progress@) + st.file_progress@[q].total <= u64::MAX,
    ensures
        st2.transferred_bytes == spec_progress_sum(st2.file_progress@),
{
    let fp2 = spec_fp_done(st.file_progress@[q]);
    lemma_progress_sum_update(st.file_progress@, q, fp2);
    lemma_progress_sum_ge_element(st.file_progress@, q);
}

} // verus!
