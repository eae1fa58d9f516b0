//! Reading the errors that the service answers with, and what to do after them.

use vstd::prelude::*;

use crate::text::{
    all_ascii, ascii_lower, ascii_upper, contains_text, decimal, has_text,
    lemma_number_behind_a_pattern, lower_text, number_after, number_after_text, occurs_at,
    upper_text,
};

verus! {

/// The seconds that a "flood wait" error asks to wait.
pub open spec fn flood_wait(err: Seq<char>) -> Option<nat> {
    match number_after_text(err, "FLOOD_WAIT_"@, u64::MAX as nat) {
        Some(secs) => Some(secs),
        None => number_after_text(err, "FLOOD_PREMIUM_WAIT_"@, u64::MAX as nat),
    }
}

/// Reads the seconds out of a "flood wait" error.
pub fn parse_flood_wait(err: &str) -> (r: Option<u64>)
    ensures
        match flood_wait(err@) {
            Some(secs) => r == Some(secs as u64) && secs <= u64::MAX,
            None => r is None,
        },
{
    match number_after(err, "FLOOD_WAIT_", u64::MAX) {
        Some(secs) => Some(secs),
        None => number_after(err, "FLOOD_PREMIUM_WAIT_", u64::MAX),
    }
}

/// The data center that a "migrate" error points to.
pub open spec fn dc_migrate(msg: Seq<char>) -> Option<nat> {
    let max = i32::MAX as nat;
    if number_after_text(msg, "FILE_MIGRATE_"@, max) is Some {
        number_after_text(msg, "FILE_MIGRATE_"@, max)
    } else if number_after_text(msg, "PHONE_MIGRATE_"@, max) is Some {
        number_after_text(msg, "PHONE_MIGRATE_"@, max)
    } else if number_after_text(msg, "USER_MIGRATE_"@, max) is Some {
        number_after_text(msg, "USER_MIGRATE_"@, max)
    } else {
        number_after_text(msg, "NETWORK_MIGRATE_"@, max)
    }
}

/// Reads the data center out of a "migrate" error.
pub fn parse_dc_migrate_error(msg: &str) -> (r: Option<i32>)
    ensures
        match dc_migrate(msg@) {
            Some(dc) => r == Some(dc as i32) && dc <= i32::MAX,
            None => r is None,
        },
{
    let max: u64 = 2_147_483_647;
    if let Some(dc) = number_after(msg, "FILE_MIGRATE_", max) {
        return Some(dc as i32);
    }
    if let Some(dc) = number_after(msg, "PHONE_MIGRATE_", max) {
        return Some(dc as i32);
    }
    if let Some(dc) = number_after(msg, "USER_MIGRATE_", max) {
        return Some(dc as i32);
    }
    match number_after(msg, "NETWORK_MIGRATE_", max) {
        Some(dc) => Some(dc as i32),
        None => None,
    }
}

/// An error that may pass if the request is made again, told by the message and
/// by its upper-case and lower-case forms.
pub open spec fn retryable(msg: Seq<char>, upper: Seq<char>, lower: Seq<char>) -> bool {
    &&& flood_wait(msg) is None
    &&& {
        ||| has_text(upper, "TIMEDOUT"@)
        ||| has_text(upper, "RPC_CALL_FAIL"@)
        ||| has_text(upper, "WORKER_BUSY_TOO_LONG_RETRY"@)
        ||| has_text(upper, "MEMORY LIMIT EXIT"@)
        ||| has_text(lower, "connection reset"@)
        ||| has_text(lower, "timed out"@)
        ||| has_text(lower, "connection refused"@)
        ||| has_text(lower, "broken pipe"@)
        ||| has_text(lower, "unexpected eof"@)
        ||| has_text(lower, "internal server error"@)
        ||| has_text(lower, "temporarily unavailable"@)
        ||| has_text(lower, "transport error"@)
        ||| has_text(lower, "network"@)
        ||| has_text(lower, "rpc error"@)
    }
}

/// Whether an error may pass, given the two case forms of its message.
pub fn is_retryable_in(msg: &str, upper: &str, lower: &str) -> (r: bool)
    ensures
        r == retryable(msg@, upper@, lower@),
{
    if parse_flood_wait(msg).is_some() {
        return false;
    }
    contains_text(upper, "TIMEDOUT") || contains_text(upper, "RPC_CALL_FAIL") || contains_text(
        upper,
        "WORKER_BUSY_TOO_LONG_RETRY",
    ) || contains_text(upper, "MEMORY LIMIT EXIT") || contains_text(lower, "connection reset")
        || contains_text(lower, "timed out") || contains_text(lower, "connection refused")
        || contains_text(lower, "broken pipe") || contains_text(lower, "unexpected eof")
        || contains_text(lower, "internal server error") || contains_text(
        lower,
        "temporarily unavailable",
    ) || contains_text(lower, "transport error") || contains_text(lower, "network")
        || contains_text(lower, "rpc error")
}

/// The upper-case form of an ASCII text.
pub open spec fn ascii_upper_text(s: Seq<char>) -> Seq<char> {
    s.map_values(|c: char| ascii_upper(c))
}

/// The lower-case form of an ASCII text.
pub open spec fn ascii_lower_text(s: Seq<char>) -> Seq<char> {
    s.map_values(|c: char| ascii_lower(c))
}

/// Whether an error may pass if the request is made again. A flood wait is not
/// such an error: it says itself how long to wait.
pub fn is_retryable_error(msg: &str) -> (r: bool)
    ensures
        r == retryable(msg@, upper_text(msg@), lower_text(msg@)),
        all_ascii(msg@) ==> r == retryable(msg@, ascii_upper_text(msg@), ascii_lower_text(msg@)),
{
    let upper = msg.to_uppercase();
    let lower = msg.to_lowercase();
    is_retryable_in(msg, upper.as_str(), lower.as_str())
}

/// An error that says the channel cannot be reached with the hash in use, told by
/// the upper-case form of its message.
pub open spec fn channel_invalid(upper: Seq<char>) -> bool {
    ||| has_text(upper, "CHANNEL_INVALID"@)
    ||| has_text(upper, "CHANNEL_PRIVATE"@)
    ||| has_text(upper, "PEER_ID_INVALID"@)
    ||| has_text(upper, "ACCESS_HASH_INVALID"@)
    ||| has_text(upper, "CHAT_FORBIDDEN"@)
}

/// Whether an error's upper-case form says that the channel cannot be reached.
pub fn is_channel_invalid_in(upper: &str) -> (r: bool)
    ensures
        r == channel_invalid(upper@),
{
    contains_text(upper, "CHANNEL_INVALID") || contains_text(upper, "CHANNEL_PRIVATE")
        || contains_text(upper, "PEER_ID_INVALID") || contains_text(upper, "ACCESS_HASH_INVALID")
        || contains_text(upper, "CHAT_FORBIDDEN")
}

/// Whether an error says that the channel cannot be reached with the hash in use.
pub fn is_channel_invalid_error(msg: &str) -> (r: bool)
    ensures
        r == channel_invalid(upper_text(msg@)),
        all_ascii(msg@) ==> r == channel_invalid(ascii_upper_text(msg@)),
{
    let upper = msg.to_uppercase();
    is_channel_invalid_in(upper.as_str())
}

/// A message that carries a wait is never retried as a passing failure.
pub proof fn lemma_flood_wait_is_not_retryable(msg: Seq<char>, upper: Seq<char>, lower: Seq<char>)
    requires
        flood_wait(msg) is Some,
    ensures
        !retryable(msg, upper, lower),
{
}

// ------------------------------------------------------------ invoking again

/// How many times a request is made before the last, undecided one.
pub const MAX_RETRY_ATTEMPTS: u32 = 3;

/// How long one request may take.
pub const RPC_TIMEOUT_SECS: u64 = 20;

/// What came of making a request.
pub enum InvokeOutcome {
    Reply,
    Failed(String),
    TimedOut,
}

/// How long to wait before the next try.
pub enum Wait {
    No,
    Seconds(u64),
    /// The backoff that belongs to this attempt.
    Backoff(u32),
}

/// What to do after a try.
pub enum InvokeDecision {
    /// Return the reply.
    Return,
    /// Return the error.
    GiveUp,
    /// Report the request as dropped.
    Dropped,
    /// Copy the authorization to this data center and make the request there, once.
    Migrate { dc: i32 },
    /// Wait, then try once more.
    Again { wait: Wait },
}

/// What an outcome calls for on a given attempt. `may_pass` says whether the
/// failure is one that may pass.
pub open spec fn invoke_rule(attempt: u32, outcome: InvokeOutcome, may_pass: bool) -> InvokeDecision {
    match outcome {
        InvokeOutcome::Reply => InvokeDecision::Return,
        InvokeOutcome::TimedOut => if attempt + 1 < MAX_RETRY_ATTEMPTS {
            InvokeDecision::Again { wait: Wait::No }
        } else {
            InvokeDecision::Dropped
        },
        InvokeOutcome::Failed(err) => if attempt >= MAX_RETRY_ATTEMPTS {
            InvokeDecision::GiveUp
        } else if flood_wait(err@) is Some {
            InvokeDecision::Again { wait: Wait::Seconds((flood_wait(err@)->0 + 1) as u64) }
        } else if dc_migrate(err@) is Some {
            InvokeDecision::Migrate { dc: dc_migrate(err@)->0 as i32 }
        } else if may_pass && attempt + 1 < MAX_RETRY_ATTEMPTS {
            InvokeDecision::Again { wait: Wait::Backoff(attempt) }
        } else {
            InvokeDecision::GiveUp
        },
    }
}

/// The message of a failed try.
pub open spec fn failure_text(outcome: InvokeOutcome) -> Seq<char> {
    match outcome {
        InvokeOutcome::Failed(err) => err@,
        _ => Seq::empty(),
    }
}

/// Decides what follows a try, given whether the failure is one that may pass.
pub fn decide_invoke(attempt: u32, outcome: &InvokeOutcome, may_pass: bool) -> (r: InvokeDecision)
    requires
        attempt <= MAX_RETRY_ATTEMPTS,
        flood_wait(failure_text(*outcome)) != Some(u64::MAX as nat),
    ensures
        r == invoke_rule(attempt, *outcome, may_pass),
{
    match outcome {
        InvokeOutcome::Reply => InvokeDecision::Return,
        InvokeOutcome::TimedOut => if attempt + 1 < MAX_RETRY_ATTEMPTS {
            InvokeDecision::Again { wait: Wait::No }
        } else {
            InvokeDecision::Dropped
        },
        InvokeOutcome::Failed(err) => {
            if attempt >= MAX_RETRY_ATTEMPTS {
                return InvokeDecision::GiveUp;
            }
            if let Some(secs) = parse_flood_wait(err.as_str()) {
                return InvokeDecision::Again { wait: Wait::Seconds(secs + 1) };
            }
            if let Some(dc) = parse_dc_migrate_error(err.as_str()) {
                return InvokeDecision::Migrate { dc };
            }
            if may_pass && attempt + 1 < MAX_RETRY_ATTEMPTS {
                return InvokeDecision::Again { wait: Wait::Backoff(attempt) };
            }
            InvokeDecision::GiveUp
        },
    }
}

/// Decides what follows a try of a request. Attempts count from zero; the attempt
/// after the last counted one is final.
pub fn invoke_with_flood_wait(attempt: u32, outcome: &InvokeOutcome) -> (r: InvokeDecision)
    requires
        attempt <= MAX_RETRY_ATTEMPTS,
        flood_wait(failure_text(*outcome)) != Some(u64::MAX as nat),
    ensures
        ({
            let msg = failure_text(*outcome);
            r == invoke_rule(
                attempt,
                *outcome,
                retryable(msg, upper_text(msg), lower_text(msg)),
            )
        }),
{
    let may_pass = match outcome {
        InvokeOutcome::Failed(err) => is_retryable_error(err.as_str()),
        _ => false,
    };
    decide_invoke(attempt, outcome, may_pass)
}

/// What a request that was sent on to another data center ends with.
pub enum MigrateEnd {
    /// The reply from there.
    Return,
    /// The error that sent the request on: the authorization was not copied.
    FirstError,
    /// The error from there.
    SecondError,
    /// The request is reported as dropped.
    Dropped,
}

/// Decides what a request that was sent on ends with. It is not tried again.
pub fn after_migrate(authorized: bool, outcome: &InvokeOutcome) -> (r: MigrateEnd)
    ensures
        r == (if !authorized {
            MigrateEnd::FirstError
        } else {
            match *outcome {
                InvokeOutcome::Reply => MigrateEnd::Return,
                InvokeOutcome::Failed(_) => MigrateEnd::SecondError,
                InvokeOutcome::TimedOut => MigrateEnd::Dropped,
            }
        }),
{
    if !authorized {
        return MigrateEnd::FirstError;
    }
    match outcome {
        InvokeOutcome::Reply => MigrateEnd::Return,
        InvokeOutcome::Failed(_) => MigrateEnd::SecondError,
        InvokeOutcome::TimedOut => MigrateEnd::Dropped,
    }
}

/// A request is tried again only before its final attempt, so it is made at most
/// `MAX_RETRY_ATTEMPTS + 1` times.
pub proof fn lemma_tries_are_bounded(attempt: u32, outcome: InvokeOutcome, may_pass: bool)
    requires
        attempt <= MAX_RETRY_ATTEMPTS,
        invoke_rule(attempt, outcome, may_pass) is Again,
    ensures
        attempt < MAX_RETRY_ATTEMPTS,
{
}

/// The seconds that an error names behind its name are read, however many they are.
pub proof fn lemma_flood_wait_is_read(before: Seq<char>, secs: nat, rest: Seq<char>)
    requires
        secs <= u64::MAX,
        rest.len() == 0 || !('0' <= rest[0] <= '9'),
        forall|i: int|
            0 <= i < before.len() ==> !#[trigger] occurs_at(
                before + "FLOOD_WAIT_"@ + decimal(secs) + rest,
                "FLOOD_WAIT_"@,
                i,
            ),
    ensures
        flood_wait(before + "FLOOD_WAIT_"@ + decimal(secs) + rest) == Some(secs),
{
    lemma_number_behind_a_pattern(before, "FLOOD_WAIT_"@, secs, rest, u64::MAX as nat);
}

/// An error that names neither wait asks for none.
pub proof fn lemma_no_flood_wait(err: Seq<char>)
    ensures
        !has_text(err, "FLOOD_WAIT_"@) && !has_text(err, "FLOOD_PREMIUM_WAIT_"@) ==> flood_wait(err)
            is None,
        number_after_text(err, "FLOOD_WAIT_"@, u64::MAX as nat) is None ==> flood_wait(err)
            == number_after_text(err, "FLOOD_PREMIUM_WAIT_"@, u64::MAX as nat),
        number_after_text(err, "FLOOD_WAIT_"@, u64::MAX as nat) is Some ==> flood_wait(err)
            == number_after_text(err, "FLOOD_WAIT_"@, u64::MAX as nat),
{
}

/// The data center that an error names is read, for files, phones, users and networks.
pub proof fn lemma_migration_is_read(msg: Seq<char>)
    ensures
        ({
            let max = 2147483647nat;
            let file = number_after_text(msg, "FILE_MIGRATE_"@, max);
            let phone = number_after_text(msg, "PHONE_MIGRATE_"@, max);
            let user = number_after_text(msg, "USER_MIGRATE_"@, max);
            let network = number_after_text(msg, "NETWORK_MIGRATE_"@, max);
            &&& file is Some ==> dc_migrate(msg) == file
            &&& file is None && phone is Some ==> dc_migrate(msg) == phone
            &&& file is None && phone is None && user is Some ==> dc_migrate(msg) == user
            &&& file is None && phone is None && user is None ==> dc_migrate(msg) == network
        }),
{
}

/// Failures of the connection and of a busy service may pass, unless a wait is asked for.
pub proof fn lemma_failures_that_pass(msg: Seq<char>, upper: Seq<char>, lower: Seq<char>)
    requires
        flood_wait(msg) is None,
    ensures
        has_text(upper, "TIMEDOUT"@) || has_text(upper, "RPC_CALL_FAIL"@) || has_text(
            upper,
            "WORKER_BUSY_TOO_LONG_RETRY"@,
        ) || has_text(upper, "MEMORY LIMIT EXIT"@) ==> retryable(msg, upper, lower),
        has_text(lower, "connection reset"@) || has_text(lower, "timed out"@) || has_text(
            lower,
            "connection refused"@,
        ) || has_text(lower, "broken pipe"@) || has_text(lower, "unexpected eof"@) ==> retryable(
            msg,
            upper,
            lower,
        ),
        has_text(lower, "internal server error"@) || has_text(lower, "temporarily unavailable"@)
            || has_text(lower, "transport error"@) || has_text(lower, "network"@) || has_text(
            lower,
            "rpc error"@,
        ) ==> retryable(msg, upper, lower),
        upper.len() < 8 && lower.len() < 7 ==> !retryable(msg, upper, lower),
{
    reveal_strlit("TIMEDOUT");
    reveal_strlit("RPC_CALL_FAIL");
    reveal_strlit("WORKER_BUSY_TOO_LONG_RETRY");
    reveal_strlit("MEMORY LIMIT EXIT");
    reveal_strlit("connection reset");
    reveal_strlit("timed out");
    reveal_strlit("connection refused");
    reveal_strlit("broken pipe");
    reveal_strlit("unexpected eof");
    reveal_strlit("internal server error");
    reveal_strlit("temporarily unavailable");
    reveal_strlit("transport error");
    reveal_strlit("network");
    reveal_strlit("rpc error");
}

/// The failures by which a channel that cannot be reached is told.
pub proof fn lemma_lost_channels(upper: Seq<char>)
    ensures
        channel_invalid(upper) <==> (has_text(upper, "CHANNEL_INVALID"@) || has_text(
            upper,
            "CHANNEL_PRIVATE"@,
        ) || has_text(upper, "PEER_ID_INVALID"@) || has_text(upper, "ACCESS_HASH_INVALID"@)
            || has_text(upper, "CHAT_FORBIDDEN"@)),
{
}

/// What follows a try: a reply is returned; a wait that is asked for is waited out, with one
/// second more; a failure that may pass is tried again twice, and a request without an
/// answer, too; all other failures are returned.
pub proof fn lemma_what_follows_a_try(attempt: u32, outcome: InvokeOutcome, may_pass: bool)
    requires
        attempt <= 3,
    ensures
        outcome is Reply <==> invoke_rule(attempt, outcome, may_pass) is Return,
        outcome is TimedOut ==> match invoke_rule(attempt, outcome, may_pass) {
            InvokeDecision::Again { wait } => attempt < 2 && wait is No,
            InvokeDecision::Dropped => attempt >= 2,
            _ => false,
        },
        outcome matches InvokeOutcome::Failed(err) ==> {
            let wait = flood_wait(err@);
            let dc = dc_migrate(err@);
            let next = invoke_rule(attempt, outcome, may_pass);
            &&& attempt == 3 ==> next is GiveUp
            &&& attempt < 3 && wait is Some && wait->0 < u64::MAX ==> (
            next matches InvokeDecision::Again { wait: Wait::Seconds(s) } && s == wait->0 + 1)
            &&& attempt < 3 && wait is None && dc is Some && dc->0 <= i32::MAX ==> (
            next matches InvokeDecision::Migrate { dc: to } && to == dc->0)
            &&& attempt < 2 && wait is None && dc is None && may_pass ==> (
            next matches InvokeDecision::Again { wait: Wait::Backoff(n) } && n == attempt)
            &&& wait is None && dc is None && (attempt == 2 || !may_pass) ==> next is GiveUp
        },
{
}

} // verus!
