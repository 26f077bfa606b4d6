//! Running a command inside a leased worktree.
//!
//! The worktree is leased for a limited time, so that a runner that dies
//! leaves a reservation that ends by itself. When the command ends, however
//! it ends, the lease is released, but only if it is still the same one.

use vstd::prelude::*;
use vstd::string::*;

use crate::pool::{AcquireOptions, LeaseAcquireOptions, ReleasePreconditions};
use crate::text::{decimal, decimal_text, opt_str_view, opt_view};
use crate::time::Span;

verus! {

/// How many seconds the lease of a run lasts by default: a day.
pub const DEFAULT_RUN_SECS: u64 = 86_400;

/// How many milliseconds the processes of a worktree get to end.
pub const RUN_GRACE_MS: u64 = 2000;

/// Options of a run.
#[derive(Clone, Debug, PartialEq, Eq)]
pub struct RunOptions {
    /// The command and its arguments.
    pub command: Vec<String>,
    /// How long the lease lasts.
    pub ttl: Span,
    /// Who holds the lease.
    pub holder: String,
}

/// The holder of a lease that a run takes without being told another.
pub open spec fn run_holder(pid: u32) -> Seq<char> {
    "run:"@ + decimal(pid as nat)
}

fn default_holder(pid: u32) -> (r: String)
    ensures
        r@ == run_holder(pid),
{
    let mut s = "run:".to_owned();
    s.append(&decimal_text(pid as u64));
    s
}

impl RunOptions {
    /// The options of a run by this process: no command yet, a day, and a
    /// holder that names the process.
    pub fn for_process(pid: u32) -> (r: RunOptions)
        ensures
            r.command@.len() == 0,
            r.ttl == (Span { secs: DEFAULT_RUN_SECS, nanos: 0 }),
            r.holder@ == run_holder(pid),
    {
        RunOptions {
            command: Vec::new(),
            ttl: Span::from_secs(DEFAULT_RUN_SECS),
            holder: default_holder(pid),
        }
    }
}

/// The options of a run: what was said on the command line, else by the
/// environment (`env_holder`) or the configuration (`lease_secs`, which is
/// none where it is zero), else the default.
pub fn run_options(
    command: Vec<String>,
    ttl: Option<Span>,
    lease_secs: Option<u64>,
    holder: Option<String>,
    env_holder: Option<String>,
    pid: u32,
) -> (r: RunOptions)
    ensures
        r.command == command,
        r.ttl == match ttl {
            Some(span) => span,
            None => Span {
                secs: match lease_secs {
                    Some(secs) => if secs > 0 {
                        secs
                    } else {
                        DEFAULT_RUN_SECS
                    },
                    None => DEFAULT_RUN_SECS,
                },
                nanos: 0,
            },
        },
        r.holder@ == match holder {
            Some(h) => h@,
            None => match env_holder {
                Some(h) => h@,
                None => run_holder(pid),
            },
        },
{
    let ttl = match ttl {
        Some(span) => span,
        None => match lease_secs {
            Some(secs) => if secs > 0 {
                Span::from_secs(secs)
            } else {
                Span::from_secs(DEFAULT_RUN_SECS)
            },
            None => Span::from_secs(DEFAULT_RUN_SECS),
        },
    };
    let holder = match holder {
        Some(h) => h,
        None => match env_holder {
            Some(h) => h,
            None => default_holder(pid),
        },
    };
    RunOptions { command, ttl, holder }
}

/// A span that counts as the length of a lease: at most the largest number of
/// milliseconds in 63 bits.
pub open spec fn lease_span_fits(span: Span) -> bool {
    span.value() <= i64::MAX * 1_000_000
}

/// Whether a span can be the length of a lease.
pub fn is_lease_span(span: Span) -> (r: bool)
    requires
        span.wf(),
    ensures
        r == lease_span_fits(span),
{
    let max_secs: u64 = 9_223_372_036_854_775;
    let max_nanos: u32 = 807_000_000;
    span.secs < max_secs || (span.secs == max_secs && span.nanos <= max_nanos)
}

/// The length of the lease of a run: what the options say, or a day where
/// that is too long for a lease.
pub open spec fn run_ttl(ttl: Span) -> Span {
    if lease_span_fits(ttl) {
        ttl
    } else {
        Span { secs: DEFAULT_RUN_SECS, nanos: 0 }
    }
}

/// How a run acquires its worktree: leased, for a limited time.
pub fn run_acquire(opts: &RunOptions) -> (r: AcquireOptions)
    requires
        opts.ttl.wf(),
    ensures
        r.branch is None,
        r.lease matches Some(l) && l.holder@ == opts.holder@ && l.ttl == Some(run_ttl(opts.ttl)),
{
    let ttl = if is_lease_span(opts.ttl) {
        opts.ttl
    } else {
        Span::from_secs(DEFAULT_RUN_SECS)
    };
    AcquireOptions {
        branch: None,
        lease: Some(LeaseAcquireOptions { holder: opts.holder.clone(), ttl: Some(ttl) }),
    }
}

/// The variables that the command of a run sees, beside those of the runner:
/// where it runs, and the lease it runs under.
pub fn child_env(worktree: &str, lease_id: &str) -> (r: Vec<(String, String)>)
    ensures
        r@.len() == 2,
        r@[0].0@ == "TREEHOUSE_DIR"@,
        r@[0].1@ == worktree@,
        r@[1].0@ == "TREEHOUSE_LEASE_ID"@,
        r@[1].1@ == lease_id@,
{
    let mut v: Vec<(String, String)> = Vec::new();
    v.push(("TREEHOUSE_DIR".to_owned(), worktree.to_owned()));
    v.push(("TREEHOUSE_LEASE_ID".to_owned(), lease_id.to_owned()));
    v
}

/// What became of the worktree after the command.
#[derive(Clone, Debug, PartialEq, Eq)]
pub enum CleanupOutcome {
    Cleaned,
    CleanupFailed(String),
}

/// The result of a run.
#[derive(Clone, Debug, PartialEq, Eq)]
pub struct RunResult {
    pub worktree_path: String,
    pub lease_id: String,
    pub lease_holder: String,
    pub child_exit_code: Option<i32>,
    pub child_signal: Option<i32>,
    pub cleanup: CleanupOutcome,
}

/// How the command of a run ended: by a signal, or with an exit code, which
/// is zero where it is not known.
pub fn child_status(signal: Option<i32>, code: Option<i32>) -> (r: (Option<i32>, Option<i32>))
    ensures
        match signal {
            Some(s) => r.0 is None && r.1 == Some(s),
            None => r.1 is None && r.0 == Some(
                match code {
                    Some(c) => c,
                    None => 0,
                },
            ),
        },
{
    match signal {
        Some(s) => (None, Some(s)),
        None => match code {
            Some(c) => (Some(c), None),
            None => (Some(0), None),
        },
    }
}

/// What the cleanup of a run expects of the worktree: the lease that the run
/// took, whoever holds it.
pub fn cleanup_preconditions(lease_id: &str) -> (r: ReleasePreconditions)
    ensures
        opt_view(r.expected_lease_id) == Some(lease_id@),
        r.expected_lease_holder is None,
{
    ReleasePreconditions {
        expected_lease_id: Some(lease_id.to_owned()),
        expected_lease_holder: None,
    }
}

/// What became of the worktree, by the error of its release.
pub fn cleanup_outcome(error: Option<&str>) -> (r: CleanupOutcome)
    ensures
        match error {
            None => r is Cleaned,
            Some(e) => r matches CleanupOutcome::CleanupFailed(text) && text@ == e@,
        },
{
    match error {
        None => CleanupOutcome::Cleaned,
        Some(e) => CleanupOutcome::CleanupFailed(e.to_owned()),
    }
}

/// The result of a run, by how its command ended and what became of the
/// worktree. A command that failed is no reason to leave out the cleanup.
pub fn finish_run(
    worktree_path: &str,
    lease_id: &str,
    lease_holder: &str,
    signal: Option<i32>,
    code: Option<i32>,
    release_error: Option<&str>,
) -> (r: RunResult)
    ensures
        r.worktree_path@ == worktree_path@,
        r.lease_id@ == lease_id@,
        r.lease_holder@ == lease_holder@,
        match signal {
            Some(s) => r.child_exit_code is None && r.child_signal == Some(s),
            None => r.child_signal is None && r.child_exit_code == Some(
                match code {
                    Some(c) => c,
                    None => 0,
                },
            ),
        },
        r.cleanup is Cleaned <==> release_error is None,
        r.cleanup matches CleanupOutcome::CleanupFailed(text) ==> Some(text@) == opt_str_view(
            release_error,
        ),
{
    let (exit_code, sig) = child_status(signal, code);
    RunResult {
        worktree_path: worktree_path.to_owned(),
        lease_id: lease_id.to_owned(),
        lease_holder: lease_holder.to_owned(),
        child_exit_code: exit_code,
        child_signal: sig,
        cleanup: cleanup_outcome(release_error),
    }
}

/// The exit code of the runner: that of the command, or 128 and the number of
/// the signal that ended it.
pub fn exit_code(r: &RunResult) -> (code: i32)
    requires
        r.child_signal matches Some(s) ==> s <= i32::MAX - 128,
    ensures
        code == match r.child_exit_code {
            Some(c) => c,
            None => match r.child_signal {
                Some(s) => (128 + s) as i32,
                None => 0,
            },
        },
{
    match r.child_exit_code {
        Some(c) => c,
        None => match r.child_signal {
            Some(s) => 128 + s,
            None => 0,
        },
    }
}

// ---------- laws ----------

/// The lease of a run lasts as long as was asked for, unless that is longer
/// than a lease can be: then it lasts a day. Either way it has an end.
pub proof fn law_run_lease_always_ends(ttl: Span)
    requires
        ttl.wf(),
    ensures
        ttl.secs * 1_000_000_000 + ttl.nanos <= i64::MAX * 1_000_000 ==> run_ttl(ttl) == ttl,
        ttl.secs * 1_000_000_000 + ttl.nanos > i64::MAX * 1_000_000 ==> run_ttl(ttl) == (Span {
            secs: 86_400,
            nanos: 0,
        }),
        lease_span_fits(run_ttl(ttl)),
{
}

} // verus!
