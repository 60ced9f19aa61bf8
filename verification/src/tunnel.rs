//! The tunnel supervisor's state machine.
//!
//! One tunnel process at most exists per supervisor. Starting is
//! idempotent: a live process with a known public URL is returned
//! unchanged. Every teardown path — an explicit stop, a monitor-detected
//! exit, a failed start — runs the same cleanup, so the state always
//! converges back to idle and no reader worker, child process or listener
//! task is leaked. The surrounding binary owns the actual process and
//! thread handles and performs what each returned plan asks.

use vstd::prelude::*;

use crate::hosting::{HostedFile, HostedFileSummary, summarize_files};

verus! {

/// The supervisor's whole mutable state, held under one lock by the
/// caller: whether a tunnel process and the local HTTP listener live, the
/// detected public URL, how many log-reader workers and whether an exit
/// monitor are attached, the bound port, and the hosted-file list with its
/// id counter.
pub struct TunnelState {
    pub child_running: bool,
    pub url: Option<String>,
    pub log_readers: u64,
    pub server_running: bool,
    pub server_port: Option<u16>,
    pub exit_monitor: bool,
    pub files: Vec<HostedFile>,
    pub next_file_id: u64,
}

/// The public URL of a running tunnel.
#[derive(Clone, Debug)]
pub struct TunnelInfo {
    pub public_url: String,
}

/// What the status call reports.
#[derive(Clone, Debug)]
pub struct TunnelStatus {
    pub running: bool,
    pub url: Option<String>,
    pub local_port: Option<u16>,
    pub hosted_files: Vec<HostedFileSummary>,
}

/// What a host call answers: the local listener URL, the public URL if a
/// tunnel runs, and the hosted files.
#[derive(Clone, Debug)]
pub struct HostSessionInfo {
    pub local_url: String,
    pub public_url: Option<String>,
    pub files: Vec<HostedFileSummary>,
}

/// The outside work one teardown asks of the caller: kill the child if one
/// was live, join that many reader workers, signal the listener to shut
/// down and join it, and join the exit monitor.
pub struct StopPlan {
    pub kill_child: bool,
    pub join_readers: u64,
    pub shutdown_server: bool,
    pub join_monitor: bool,
}

/// The idle state every teardown converges on: no process, no URL, no
/// port, no workers, no monitor, no listener, no hosted files.
pub open spec fn spec_is_idle(s: TunnelState) -> bool {
    &&& !s.child_running
    &&& s.url is None
    &&& s.server_port is None
    &&& s.log_readers == 0
    &&& !s.exit_monitor
    &&& !s.server_running
    &&& s.files@.len() == 0
    &&& s.next_file_id == 0
}

/// The exit code published when a tunnel stops: the process's own code, or
/// the sentinel where none is known.
pub open spec fn spec_resolved_exit_code(code: Option<i32>) -> i32 {
    match code {
        Some(c) => c,
        None => -1i32,
    }
}

/// Resolves the exit code carried by a stopped notification: a stop with
/// no known process exit code still reports the sentinel `-1`.
pub fn resolve_exit_code(code: Option<i32>) -> (r: i32)
    ensures
        r == spec_resolved_exit_code(code),
{
    match code {
        Some(c) => c,
        None => -1,
    }
}

impl TunnelState {
    /// A supervisor starts idle.
    pub fn new() -> (r: TunnelState)
        ensures
            spec_is_idle(r),
    {
        TunnelState {
            child_running: false,
            url: None,
            log_readers: 0,
            server_running: false,
            server_port: None,
            exit_monitor: false,
            files: Vec::new(),
            next_file_id: 0,
        }
    }

    /// Reaps an already-exited process: the caller reports whether the
    /// child it owns has exited, and a child seen exited is forgotten
    /// together with its URL. Returns how many reader workers the caller
    /// must join, which is all of them exactly when no child remains.
    pub fn cleanup_finished(&mut self, child_exited: bool) -> (join_readers: u64)
        ensures
            final(self).child_running == (old(self).child_running && !child_exited),
            final(self).url == (if old(self).child_running && child_exited {
                None::<String>
            } else {
                old(self).url
            }),
            final(self).log_readers == (if final(self).child_running {
                old(self).log_readers
            } else {
                0
            }),
            join_readers == (if final(self).child_running {
                0
            } else {
                old(self).log_readers
            }),
            final(self).server_running == old(self).server_running,
            final(self).server_port == old(self).server_port,
            final(self).exit_monitor == old(self).exit_monitor,
            final(self).files == old(self).files,
            final(self).next_file_id == old(self).next_file_id,
    {
        if self.child_running && child_exited {
            self.child_running = false;
            self.url = None;
        }
        if !self.child_running {
            let n = self.log_readers;
            self.log_readers = 0;
            n
        } else {
            0
        }
    }

    /// Whether a start call may return at once: a live process whose
    /// public URL is already known is reused — no second process is ever
    /// spawned. Tunnel idempotency rests here.
    pub fn running_url(&self) -> (r: Option<&String>)
        ensures
            match r {
                Some(u) => self.child_running && (self.url matches Some(su) && *u == su),
                None => !(self.child_running && self.url is Some),
            },
    {
        if self.child_running {
            match &self.url {
                Some(u) => Some(u),
                None => None,
            }
        } else {
            None
        }
    }

    /// Records a URL a log reader scraped from the tunnel's output.
    pub fn record_url(&mut self, url: String)
        ensures
            final(self).url matches Some(u) && u@ == url@,
            final(self).child_running == old(self).child_running,
            final(self).log_readers == old(self).log_readers,
            final(self).server_running == old(self).server_running,
            final(self).server_port == old(self).server_port,
            final(self).exit_monitor == old(self).exit_monitor,
            final(self).files == old(self).files,
            final(self).next_file_id == old(self).next_file_id,
    {
        self.url = Some(url);
    }

    /// Records a spawned tunnel process with its detected URL and the
    /// reader workers attached to its output streams.
    pub fn record_started(&mut self, url: String, readers: u64)
        requires
            old(self).log_readers + readers <= u64::MAX,
        ensures
            final(self).child_running,
            final(self).url matches Some(u) && u@ == url@,
            final(self).log_readers == old(self).log_readers + readers,
            final(self).server_running == old(self).server_running,
            final(self).server_port == old(self).server_port,
            final(self).exit_monitor == old(self).exit_monitor,
            final(self).files == old(self).files,
            final(self).next_file_id == old(self).next_file_id,
    {
        self.child_running = true;
        self.url = Some(url);
        self.log_readers = self.log_readers + readers;
    }

    /// Records that the exit monitor was attached.
    pub fn record_monitor(&mut self)
        ensures
            *final(self) == (TunnelState { exit_monitor: true, ..*old(self) }),
    {
        self.exit_monitor = true;
    }

    /// Records the lazily bound local listener: once listening it persists
    /// across hosted-file changes, so a known port is simply kept.
    pub fn record_server(&mut self, port: u16)
        ensures
            final(self).server_running,
            final(self).server_port == Some(port),
            final(self).child_running == old(self).child_running,
            final(self).url == old(self).url,
            final(self).log_readers == old(self).log_readers,
            final(self).exit_monitor == old(self).exit_monitor,
            final(self).files == old(self).files,
            final(self).next_file_id == old(self).next_file_id,
    {
        self.server_running = true;
        self.server_port = Some(port);
    }

    /// Whether the listener must be started: an already bound port is
    /// reused as it stands.
    pub fn server_port_if_running(&self) -> (r: Option<u16>)
        ensures
            match r {
                Some(p) => self.server_running && self.server_port == Some(p),
                None => !(self.server_running && self.server_port is Some),
            },
    {
        if self.server_running {
            match self.server_port {
                Some(p) => Some(p),
                None => None,
            }
        } else {
            None
        }
    }

    /// Replaces the hosted-file list: ids restart at zero and count up in
    /// the given order, and the id counter ends one past the last id.
    pub fn host_files(&mut self, prepared: Vec<HostedFile>)
        requires
            prepared@.len() <= u64::MAX,
        ensures
            final(self).files@.len() == prepared@.len(),
            forall|i: int|
                0 <= i < prepared@.len() ==> {
                    &&& (#[trigger] final(self).files@[i]).id == i
                    &&& final(self).files@[i].path@ == prepared@[i].path@
                    &&& final(self).files@[i].name@ == prepared@[i].name@
                    &&& final(self).files@[i].size == prepared@[i].size
                },
            final(self).next_file_id == prepared@.len(),
            final(self).child_running == old(self).child_running,
            final(self).url == old(self).url,
            final(self).log_readers == old(self).log_readers,
            final(self).server_running == old(self).server_running,
            final(self).server_port == old(self).server_port,
            final(self).exit_monitor == old(self).exit_monitor,
    {
        self.files = Vec::new();
        self.next_file_id = 0;
        let mut i: usize = 0;
        while i < prepared.len()
            invariant
                i <= prepared@.len(),
                prepared@.len() <= u64::MAX,
                self.files@.len() == i,
                self.next_file_id == i,
                forall|k: int|
                    0 <= k < i ==> {
                        &&& (#[trigger] self.files@[k]).id == k
                        &&& self.files@[k].path@ == prepared@[k].path@
                        &&& self.files@[k].name@ == prepared@[k].name@
                        &&& self.files@[k].size == prepared@[k].size
                    },
                self.child_running == old(self).child_running,
                self.url == old(self).url,
                self.log_readers == old(self).log_readers,
                self.server_running == old(self).server_running,
                self.server_port == old(self).server_port,
                self.exit_monitor == old(self).exit_monitor,
            decreases prepared@.len() - i,
        {
            let f = &prepared[i];
            let id = self.next_file_id;
            self.next_file_id = self.next_file_id + 1;
            self.files.push(
                HostedFile { id, path: f.path.clone(), name: f.name.clone(), size: f.size },
            );
            i = i + 1;
        }
    }

    /// The one teardown every exit path runs — explicit stop, detected
    /// crash or failed start: the state converges to idle and the plan
    /// tells the caller exactly what to release. A stop while nothing runs
    /// is a no-op on the state but still a full (empty) plan, and the
    /// stopped notification then carries the sentinel exit code.
    pub fn teardown(&mut self) -> (plan: StopPlan)
        ensures
            spec_is_idle(*final(self)),
            plan.kill_child == old(self).child_running,
            plan.join_readers == old(self).log_readers,
            plan.shutdown_server == old(self).server_running,
            plan.join_monitor == old(self).exit_monitor,
    {
        let plan = StopPlan {
            kill_child: self.child_running,
            join_readers: self.log_readers,
            shutdown_server: self.server_running,
            join_monitor: self.exit_monitor,
        };
        self.child_running = false;
        self.url = None;
        self.log_readers = 0;
        self.server_running = false;
        self.server_port = None;
        self.exit_monitor = false;
        self.files = Vec::new();
        self.next_file_id = 0;
        plan
    }

    /// What the exit monitor does on one poll: nothing while the child
    /// lives, the shared teardown once it exited, and it unregisters
    /// itself if the child is already gone.
    pub fn monitor_sees_exit(&mut self, child_exited: bool) -> (finalize: bool)
        ensures
            finalize == (old(self).child_running && child_exited),
            !old(self).child_running ==> *final(self) == (TunnelState {
                exit_monitor: false,
                ..*old(self)
            }),
            old(self).child_running ==> *final(self) == *old(self),
    {
        if !self.child_running {
            self.exit_monitor = false;
            return false;
        }
        child_exited
    }

    /// A status snapshot: reaps an exited child first, then reports
    /// liveness, the detected URL, the bound port and the hosted files.
    pub fn status_snapshot(&mut self, child_exited: bool) -> (r: TunnelStatus)
        ensures
            r.running == (old(self).child_running && !child_exited),
            r.running ==> match (r.url, old(self).url) {
                (Some(u), Some(su)) => u@ == su@,
                (None, None) => true,
                _ => false,
            },
            !r.running ==> r.url is None && final(self).url is None && !final(self).child_running,
            r.local_port == old(self).server_port,
            r.hosted_files@.len() == old(self).files@.len(),
            forall|i: int|
                0 <= i < old(self).files@.len() ==> {
                    &&& (#[trigger] r.hosted_files@[i]).id == old(self).files@[i].id
                    &&& r.hosted_files@[i].name@ == old(self).files@[i].name@
                    &&& r.hosted_files@[i].size == old(self).files@[i].size
                },
            final(self).files == old(self).files,
            final(self).server_port == old(self).server_port,
            final(self).server_running == old(self).server_running,
    {
        self.cleanup_finished(child_exited);
        let running = self.child_running;
        if !running {
            self.child_running = false;
            self.url = None;
        }
        let url: Option<String> = match &self.url {
            Some(u) => Some(u.clone()),
            None => None,
        };
        let files = summarize_files(&self.files);
        TunnelStatus { running, url, local_port: self.server_port, hosted_files: files }
    }
}

/// Where a public-URL marker occurs in a log line.
pub open spec fn spec_has_marker_at(line: Seq<char>, i: int) -> bool {
    0 <= i && i + 17 <= line.len() && line.subrange(i, i + 17) == "trycloudflare.com"@
}

/// The first occurrence of the marker.
pub open spec fn spec_is_first_marker(line: Seq<char>, i: int) -> bool {
    spec_has_marker_at(line, i) && forall|k: int| 0 <= k < i ==> !spec_has_marker_at(line, k)
}

/// The start of the whitespace-delimited token around position `i`.
pub open spec fn spec_token_start(line: Seq<char>, i: int) -> int
    decreases i,
{
    if i <= 0 || crate::range::spec_is_whitespace(line[i - 1]) {
        i
    } else {
        spec_token_start(line, i - 1)
    }
}

/// The end of the whitespace-delimited token from position `i` on.
pub open spec fn spec_token_end(line: Seq<char>, i: int) -> int
    decreases line.len() - i,
{
    if i < 0 || i >= line.len() || crate::range::spec_is_whitespace(line[i]) {
        i
    } else {
        spec_token_end(line, i + 1)
    }
}

/// A token with leading double quotes removed.
pub open spec fn spec_quotes_start(s: Seq<char>) -> Seq<char>
    decreases s.len(),
{
    if s.len() == 0 {
        s
    } else if s[0] == '"' {
        spec_quotes_start(s.drop_first())
    } else {
        s
    }
}

/// A token with trailing double quotes removed.
pub open spec fn spec_quotes_end(s: Seq<char>) -> Seq<char>
    decreases s.len(),
{
    if s.len() == 0 {
        s
    } else if s.last() == '"' {
        spec_quotes_end(s.drop_last())
    } else {
        s
    }
}

/// What `str::trim_matches('"')` leaves of a token.
pub open spec fn spec_trim_quotes(s: Seq<char>) -> Seq<char> {
    spec_quotes_end(spec_quotes_start(s))
}

/// The URL a log line carries at its first marker: the surrounding
/// whitespace-delimited token, quotes stripped.
pub open spec fn spec_url_at(line: Seq<char>, i: int) -> Seq<char> {
    spec_trim_quotes(
        line.subrange(spec_token_start(line, i), spec_token_end(line, i)),
    )
}

/// Walking left over non-whitespace to a boundary computes the token
/// start.
proof fn lemma_token_start_at(line: Seq<char>, i: int, a: int)
    requires
        0 <= a <= i <= line.len(),
        a == 0 || crate::range::spec_is_whitespace(line[a - 1]),
        forall|k: int| a <= k < i ==> !crate::range::spec_is_whitespace(#[trigger] line[k]),
    ensures
        spec_token_start(line, i) == a,
    decreases i - a,
{
    if i > a {
        assert(!crate::range::spec_is_whitespace(line[i - 1]));
        lemma_token_start_at(line, i - 1, a);
    }
}

/// Walking right over non-whitespace to a boundary computes the token
/// end.
proof fn lemma_token_end_at(line: Seq<char>, i: int, b: int)
    requires
        0 <= i <= b <= line.len(),
        b == line.len() || crate::range::spec_is_whitespace(line[b]),
        forall|k: int| i <= k < b ==> !crate::range::spec_is_whitespace(#[trigger] line[k]),
    ensures
        spec_token_end(line, i) == b,
    decreases b - i,
{
    if i < b {
        assert(!crate::range::spec_is_whitespace(line[i]));
        lemma_token_end_at(line, i + 1, b);
    }
}

/// Skipping leading quotes computes `spec_quotes_start`.
proof fn lemma_quotes_start_skip(s: Seq<char>, j: int)
    requires
        0 <= j <= s.len(),
        forall|k: int| 0 <= k < j ==> (#[trigger] s[k]) == '"',
        j == s.len() || s[j] != '"',
    ensures
        spec_quotes_start(s) == s.skip(j),
    decreases j,
{
    if j == 0 {
        assert(s.skip(0) =~= s);
    } else {
        assert(s[0] == '"');
        lemma_quotes_start_skip(s.drop_first(), j - 1);
        assert(s.drop_first().skip(j - 1) =~= s.skip(j));
    }
}

/// Dropping trailing quotes computes `spec_quotes_end`.
proof fn lemma_quotes_end_take(s: Seq<char>, j: int)
    requires
        0 <= j <= s.len(),
        forall|k: int| j <= k < s.len() ==> (#[trigger] s[k]) == '"',
        j == 0 || s[j - 1] != '"',
    ensures
        spec_quotes_end(s) == s.take(j),
    decreases s.len(),
{
    if j == s.len() {
        assert(s.take(j) =~= s);
    } else {
        assert(s.last() == '"');
        lemma_quotes_end_take(s.drop_last(), j);
        assert(s.drop_last().take(j) =~= s.take(j));
    }
}

/// A first marker is unique.
proof fn lemma_first_marker_unique(line: Seq<char>, a: int, b: int)
    requires
        spec_is_first_marker(line, a),
        spec_is_first_marker(line, b),
    ensures
        a == b,
{
    if a < b {
        assert(!spec_has_marker_at(line, a));
    }
    if b < a {
        assert(!spec_has_marker_at(line, b));
    }
}

/// Scans one line of tunnel output for the public URL: the first
/// whitespace-delimited token containing the tunnel service's host name,
/// surrounding double quotes stripped. `None` when no token carries the
/// marker.
#[verifier::rlimit(50)]
pub fn extract_url(line: &str) -> (r: Option<String>)
    ensures
        (r is None) <==> (forall|i: int| !spec_has_marker_at(line@, i)),
        forall|i: int|
            spec_is_first_marker(line@, i) ==> (r matches Some(u) && u@ == spec_url_at(line@, i)),
{
    let len = line.unicode_len();
    let pat: &str = "trycloudflare.com";
    let plen = pat.unicode_len();
    proof {
        reveal_strlit("trycloudflare.com");
    }
    if len < plen {
        proof {
            assert forall|i: int| !spec_has_marker_at(line@, i) by {}
        }
        return None;
    }
    let mut fi: usize = 0;
    let mut found = false;
    while !found && fi <= len - plen
        invariant
            plen == 17,
            pat@ == "trycloudflare.com"@,
            len == line@.len(),
            plen <= len,
            fi <= len - plen + 1,
            !found ==> forall|k: int| 0 <= k < fi ==> !spec_has_marker_at(line@, k),
            found ==> spec_is_first_marker(line@, fi as int),
        decreases len - fi, (if found { 0int } else { 1int }),
    {
        proof {
            reveal_strlit("trycloudflare.com");
        }
        let mut j: usize = 0;
        let mut all_eq = true;
        while j < plen
            invariant
                j <= plen,
                plen == 17,
                pat@ == "trycloudflare.com"@,
                pat@.len() == 17,
                fi + plen <= len,
                len == line@.len(),
                all_eq ==> forall|k: int|
                    0 <= k < j ==> line@[fi + k] == #[trigger] "trycloudflare.com"@[k],
                !all_eq ==> line@.subrange(fi as int, fi + 17) != "trycloudflare.com"@,
            decreases plen - j,
        {
            proof {
                reveal_strlit("trycloudflare.com");
            }
            if line.get_char(fi + j) != pat.get_char(j) {
                proof {
                    assert(line@.subrange(fi as int, fi + 17)[j as int] == line@[fi + j]);
                }
                all_eq = false;
            }
            j = j + 1;
        }
        if all_eq {
            proof {
                assert(line@.subrange(fi as int, fi + 17) =~= "trycloudflare.com"@);
                assert(spec_has_marker_at(line@, fi as int));
            }
            found = true;
        } else {
            fi = fi + 1;
        }
    }
    if !found {
        proof {
            assert forall|i: int| !spec_has_marker_at(line@, i) by {
                if spec_has_marker_at(line@, i) {
                    assert(0 <= i < fi);
                }
            }
        }
        return None;
    }
    let mut a: usize = fi;
    while a > 0 && !crate::range::is_whitespace_char(line.get_char(a - 1))
        invariant
            a <= fi,
            len == line@.len(),
            fi + 17 <= len,
            forall|k: int| a <= k < fi ==> !crate::range::spec_is_whitespace(#[trigger] line@[k]),
        decreases a,
    {
        a = a - 1;
    }
    let mut b: usize = fi;
    while b < len && !crate::range::is_whitespace_char(line.get_char(b))
        invariant
            fi <= b <= len,
            len == line@.len(),
            forall|k: int| fi <= k < b ==> !crate::range::spec_is_whitespace(#[trigger] line@[k]),
        decreases len - b,
    {
        b = b + 1;
    }
    proof {
        lemma_token_start_at(line@, fi as int, a as int);
        lemma_token_end_at(line@, fi as int, b as int);
    }
    let mut qa: usize = a;
    while qa < b && line.get_char(qa) == '"'
        invariant
            a <= qa <= b <= len,
            len == line@.len(),
            forall|k: int| a <= k < qa ==> (#[trigger] line@[k]) == '"',
        decreases b - qa,
    {
        qa = qa + 1;
    }
    let mut qb: usize = b;
    while qb > qa && line.get_char(qb - 1) == '"'
        invariant
            qa <= qb <= b <= len,
            len == line@.len(),
            forall|k: int| qb <= k < b ==> (#[trigger] line@[k]) == '"',
        decreases qb,
    {
        qb = qb - 1;
    }
    let token = line.substring_char(qa, qb);
    let url = token.to_owned();
    proof {
        let tok = line@.subrange(a as int, b as int);
        if qa == b {
            lemma_quotes_start_skip(tok, (b - a) as int);
            assert(tok.skip((b - a) as int) =~= Seq::<char>::empty());
            assert(spec_trim_quotes(tok).len() == 0);
            assert(url@ =~= spec_trim_quotes(tok));
        } else {
            lemma_quotes_start_skip(tok, (qa - a) as int);
            assert(tok.skip((qa - a) as int) =~= line@.subrange(qa as int, b as int));
            let inner = line@.subrange(qa as int, b as int);
            lemma_quotes_end_take(inner, (qb - qa) as int);
            assert(inner.take((qb - qa) as int) =~= line@.subrange(qa as int, qb as int));
            assert(url@ =~= spec_trim_quotes(tok));
        }
        assert forall|i: int| spec_is_first_marker(line@, i) implies url@ == spec_url_at(
            line@,
            i,
        ) by {
            lemma_first_marker_unique(line@, i, fi as int);
        }
        assert(spec_has_marker_at(line@, fi as int));
    }
    Some(url)
}

} // verus!
