//! The state lock: how long to wait for it, and how often to try.
//!
//! Every command that reads and writes the state of a pool does so while it
//! holds the lock of the pool, exclusively. A holder that never lets go makes
//! the others give up after a while, rather than wait for ever.

use vstd::prelude::*;
use vstd::string::*;

use crate::pool::PoolError;

verus! {

/// How long a command waits for the lock of a pool by default.
pub const DEFAULT_LOCK_TIMEOUT_SECS: u64 = 10;

/// The first pause between two tries, in milliseconds.
pub const RETRY_BASE_MS: u64 = 10;

/// The longest pause between two tries, in milliseconds.
pub const RETRY_MAX_MS: u64 = 500;

/// What to do after a try that did not get the lock.
#[derive(Clone, Copy, Debug, PartialEq, Eq, Structural)]
pub enum LockStep {
    /// The time is up.
    GiveUp,
    /// Try again after this many milliseconds.
    RetryAfter(u64),
}

/// The pause after `tries` tries that did not get the lock: it doubles each
/// time, up to the longest.
pub open spec fn pause(tries: nat) -> nat
    decreases tries,
{
    if tries == 0 {
        RETRY_BASE_MS as nat
    } else {
        let twice = 2 * pause((tries - 1) as nat);
        if twice < RETRY_MAX_MS {
            twice
        } else {
            RETRY_MAX_MS as nat
        }
    }
}

/// The pause that follows on `backoff`.
pub fn next_backoff(backoff: u64) -> (r: u64)
    requires
        backoff <= RETRY_MAX_MS,
    ensures
        r == if 2 * backoff < RETRY_MAX_MS {
            2 * backoff
        } else {
            RETRY_MAX_MS as int
        },
        r <= RETRY_MAX_MS,
        forall|tries: nat| backoff == pause(tries) ==> r == #[trigger] pause(tries + 1),
{
    if backoff * 2 < RETRY_MAX_MS {
        backoff * 2
    } else {
        RETRY_MAX_MS
    }
}

/// What to do after a try that did not get the lock, `elapsed_ms` after the
/// first one.
pub fn lock_step(elapsed_ms: u64, timeout_ms: u64, backoff: u64) -> (r: LockStep)
    ensures
        r == if elapsed_ms >= timeout_ms {
            LockStep::GiveUp
        } else {
            LockStep::RetryAfter(backoff)
        },
{
    if elapsed_ms >= timeout_ms {
        LockStep::GiveUp
    } else {
        LockStep::RetryAfter(backoff)
    }
}

/// An error that can be told in words.
pub trait Message {
    /// The error in words.
    spec fn words(&self) -> Seq<char>;

    /// The error in words.
    fn in_words(&self) -> (r: String)
        ensures
            r@ == self.words(),
    ;
}

impl Message for PoolError {
    open spec fn words(&self) -> Seq<char> {
        self.message_spec()
    }

    fn in_words(&self) -> (r: String) {
        self.message()
    }
}

impl Message for String {
    open spec fn words(&self) -> Seq<char> {
        self@
    }

    fn in_words(&self) -> (r: String) {
        self.clone()
    }
}

/// Errors from the state lock.
#[derive(Clone, Debug, PartialEq, Eq)]
pub enum LockError<E> {
    Timeout,
    Io(String, String),
    /// What was done under the lock failed, with its own error.
    Callback(E),
}

impl<E: Message> LockError<E> {
    /// The message of the error.
    pub open spec fn message_spec(self) -> Seq<char> {
        match self {
            LockError::Timeout =>
                "lock is held by another process; gave up after the lock timeout"@,
            LockError::Io(path, e) => "failed to open lock file "@ + path@ + ": "@ + e@,
            LockError::Callback(e) => "state operation under lock failed: "@ + e.words(),
        }
    }

    /// The message of the error.
    pub fn message(&self) -> (r: String)
        ensures
            r@ == self.message_spec(),
    {
        match self {
            LockError::Timeout =>
                "lock is held by another process; gave up after the lock timeout".to_owned(),
            LockError::Io(path, e) => {
                let mut s = "failed to open lock file ".to_owned();
                s.append(path);
                s.append(": ");
                s.append(e);
                s
            },
            LockError::Callback(e) => {
                let mut s = "state operation under lock failed: ".to_owned();
                s.append(&e.in_words());
                s
            },
        }
    }
}

/// The error of a pool operation that was to run under the lock: its own
/// error where it ran and failed, else why the lock was not had.
pub fn lock_error(e: LockError<PoolError>) -> (r: PoolError)
    ensures
        match e {
            LockError::Callback(inner) => r == inner,
            _ => r matches PoolError::Lock(text) && text@ == e.message_spec(),
        },
{
    match e {
        LockError::Callback(inner) => inner,
        other => PoolError::Lock(other.message()),
    }
}

/// The pause never shrinks from one try to the next and never exceeds the
/// longest.
pub proof fn law_pause_is_bounded(tries: nat)
    ensures
        RETRY_BASE_MS <= pause(tries) <= RETRY_MAX_MS,
        pause(tries) <= pause(tries + 1),
    decreases tries,
{
    if tries > 0 {
        law_pause_is_bounded((tries - 1) as nat);
    }
}

/// The first pause is the shortest; each later one is twice the one before, or
/// the longest where that would be too much.
pub proof fn law_pause_doubles_up_to_the_longest(tries: nat)
    ensures
        pause(0) == RETRY_BASE_MS,
        2 * pause(tries) < RETRY_MAX_MS ==> pause(tries + 1) == 2 * pause(tries),
        2 * pause(tries) >= RETRY_MAX_MS ==> pause(tries + 1) == RETRY_MAX_MS,
{
}

} // verus!
