use vstd::prelude::*;
use vstd::string::*;

use crate::error::{FFError, Severity};
use crate::text::{decimal_digits, push_decimal};

pub mod test_suite;

verus! {

/// How many attempts a database call gets on a connection not known to be
/// lost.
pub const MAX_TRIES: usize = 5;

/// Milliseconds to wait after the first failed attempt; each later wait is
/// twice the one before.
pub const RETRY_DELAY_BASE_MS: u64 = 250;

/// The message of the error under a connection failure that only says the
/// server could not be reached.
pub open spec fn unreachable_msg() -> Seq<char> {
    "Error occurred while creating a new object: error connecting to server"@
}

/// `2` to the power `n`.
pub open spec fn doubling(n: nat) -> nat
    decreases n,
{
    if n == 0 {
        1
    } else {
        2 * doubling((n - 1) as nat)
    }
}

/// Milliseconds to wait after failed attempt number `attempt` (from 1).
pub open spec fn retry_delay(attempt: nat) -> nat {
    (RETRY_DELAY_BASE_MS as nat) * doubling((attempt - 1) as nat)
}

/// How many attempts a call gets: one when the connection was already found
/// lost, else `MAX_TRIES`.
pub open spec fn tries_for(was_disconnected: bool) -> nat {
    if was_disconnected {
        1
    } else {
        MAX_TRIES as nat
    }
}

/// Reports a failure to connect to the database. Where the cause under
/// `parent_error` only says that the server could not be reached, a short
/// warning stands alone; any other failure is a warning that keeps
/// `parent_error` as its cause.
pub fn format_db_conn_error(parent_error: FFError) -> (e: FFError)
    ensures
        e.severity() == Severity::Warning,
        if parent_error.parent() matches Some(pp) && pp.msg() == unreachable_msg() {
            &&& e.msg() == "Failed to connect to database"@
            &&& e.parent() is None
        } else {
            &&& e.msg() == "Unexpected error while connecting to database"@
            &&& e.parent() == Some(parent_error)
        },
{
    let expected_error_message = "Error occurred while creating a new object: error connecting to server";
    let concise = match parent_error.get_parent() {
        Some(parent_parent) => crate::text::str_eq(parent_parent.get_msg(), expected_error_message),
        None => false,
    };
    if concise {
        return FFError::build(Severity::Warning, String::from_str("Failed to connect to database"));
    }
    FFError::build(Severity::Warning, String::from_str("Unexpected error while connecting to database")).with_parent(
        parent_error,
    )
}

/// The error a call reports when its attempts on a connection that seemed
/// good all failed: the connection is lost.
pub fn connection_lost_error(tries: usize, severity: Severity, last_err: FFError) -> (e: FFError)
    ensures
        e.severity() == severity,
        e.msg() == "Database connection lost ("@ + decimal_digits(tries as nat) + " failed attempts)"@,
        e.parent() == Some(last_err),
{
    let mut msg = String::from_str("Database connection lost (");
    push_decimal(&mut msg, tries);
    msg.append(" failed attempts)");
    FFError::build(severity, msg).with_parent(last_err)
}

/// What the caller does after an attempt of a database call.
#[derive(Debug, Clone, Copy, PartialEq, Eq, Structural)]
pub enum DbCallStep {
    /// The attempt succeeded: the connection is good, and the result is
    /// returned.
    Done,
    /// Wait this many milliseconds, then make the next attempt.
    Retry(u64),
    /// The last attempt failed. When `connection_lost`, the connection is
    /// now marked lost and the error is reported as a lost connection;
    /// otherwise the last error is returned as it is.
    Fail { connection_lost: bool },
}

/// One database call, followed through its attempts.
pub struct DbCall {
    was_disconnected: bool,
    tries: usize,
    attempt: usize,
}

impl DbCall {
    /// Whether the connection was known to be lost when the call began.
    pub closed spec fn was_disconnected(&self) -> bool {
        self.was_disconnected
    }

    /// How many attempts the call gets.
    pub closed spec fn tries(&self) -> nat {
        self.tries as nat
    }

    /// The number (from 1) of the attempt being made.
    pub closed spec fn attempt(&self) -> nat {
        self.attempt as nat
    }

    /// The attempt being made is one the call gets.
    pub open spec fn wf(&self) -> bool {
        &&& self.tries() == tries_for(self.was_disconnected())
        &&& 1 <= self.attempt() <= self.tries()
    }

    /// A call that begins at its first attempt.
    pub fn start(was_disconnected: bool) -> (c: DbCall)
        ensures
            c.wf(),
            c.was_disconnected() == was_disconnected,
            c.attempt() == 1,
    {
        let tries = if was_disconnected {
            1
        } else {
            MAX_TRIES
        };
        DbCall { was_disconnected, tries, attempt: 1 }
    }

    /// The number of the attempt being made.
    pub fn attempt_number(&self) -> (n: usize)
        ensures
            n == self.attempt(),
    {
        self.attempt
    }

    /// How many attempts the call gets.
    pub fn max_tries(&self) -> (n: usize)
        ensures
            n == self.tries(),
    {
        self.tries
    }

    /// Decides what follows the attempt being made, which `succeeded` or
    /// not: done on success; after a failure, a wait of
    /// `retry_delay(attempt)` and the next attempt while attempts are left,
    /// else failure, reported as a lost connection if it was not known lost.
    pub fn step(&mut self, succeeded: bool) -> (s: DbCallStep)
        requires
            old(self).wf(),
        ensures
            final(self).wf(),
            final(self).was_disconnected() == old(self).was_disconnected(),
            succeeded ==> s is Done && final(self).attempt() == old(self).attempt(),
            !succeeded && old(self).attempt() < old(self).tries() ==> {
                &&& s matches DbCallStep::Retry(ms) && ms == retry_delay(old(self).attempt())
                &&& final(self).attempt() == old(self).attempt() + 1
            },
            !succeeded && old(self).attempt() == old(self).tries() ==> {
                &&& s == (DbCallStep::Fail { connection_lost: !old(self).was_disconnected() })
                &&& final(self).attempt() == old(self).attempt()
            },
    {
        if succeeded {
            return DbCallStep::Done;
        }
        if self.attempt == self.tries {
            return DbCallStep::Fail { connection_lost: !self.was_disconnected };
        }
        let mut delay: u64 = RETRY_DELAY_BASE_MS;
        let mut k: usize = 1;
        while k < self.attempt
            invariant
                1 <= k <= self.attempt,
                self.attempt < MAX_TRIES,
                delay == RETRY_DELAY_BASE_MS * doubling((k - 1) as nat),
            decreases self.attempt - k,
        {
            proof {
                lemma_doubling_bound((k - 1) as nat);
            }
            delay = delay * 2;
            k = k + 1;
        }
        let ms = delay;
        self.attempt = self.attempt + 1;
        DbCallStep::Retry(ms)
    }
}

/// Doublings stay small for the few retries a call gets.
proof fn lemma_doubling_bound(n: nat)
    requires
        n < MAX_TRIES,
    ensures
        doubling(n) <= 16,
        doubling(n + 1) == 2 * doubling(n),
{
    assert(doubling(0) == 1);
    assert(doubling(1) == 2);
    assert(doubling(2) == 4);
    assert(doubling(3) == 8);
    assert(doubling(4) == 16);
}

/// Each wait between attempts is twice the one before.
pub proof fn lemma_retry_delays_double(attempt: nat)
    requires
        attempt >= 1,
    ensures
        retry_delay(attempt + 1) == 2 * retry_delay(attempt),
{
    assert(doubling(attempt) == 2 * doubling((attempt - 1) as nat));
}

} // verus!
