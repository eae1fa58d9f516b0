//! Downloading the media of a message: expired references and failures that may pass.

use vstd::prelude::*;

use super::requests::{channel_like, is_channel_like};
use super::rpc::{flood_wait, is_retryable_error, parse_flood_wait, retryable};
use super::session::{ApiError, Session};
use crate::text::{contains_text, has_text, joined, lower_text, upper_text};

verus! {

/// Which message to download.
#[derive(Debug, Clone, Copy, PartialEq, Eq, Structural)]
pub struct DownloadTarget {
    pub chat_id: i64,
    pub access_hash: i64,
    /// The message is asked for through the channel requests.
    pub is_channel: bool,
    pub message_id: i32,
}

/// The message to download, once signed in.
pub fn download_media(session: &Session, chat_id: i64, chat_type: &str, message_id: i32) -> (r: Result<
    DownloadTarget,
    ApiError,
>)
    ensures
        r == (if session.authenticated {
            Ok(
                DownloadTarget {
                    chat_id,
                    access_hash: session.hash(chat_id),
                    is_channel: is_channel_like(chat_type@, session.hash(chat_id)),
                    message_id,
                },
            )
        } else {
            Err(ApiError::NotAuthenticated)
        }),
{
    if !session.authenticated {
        return Err(ApiError::NotAuthenticated);
    }
    let access_hash = session.peer_hashes.get_or_zero(chat_id);
    Ok(
        DownloadTarget {
            chat_id,
            access_hash,
            is_channel: channel_like(chat_type, access_hash),
            message_id,
        },
    )
}

/// The file that a download is written to before it is complete.
pub fn partial_path(path: &str) -> (r: String)
    ensures
        r@ == path@ + ".tmp"@,
{
    joined(path, ".tmp")
}

/// The time that the downloaded file is given: the message's, where it has one.
pub fn file_time(message_date: i32) -> (r: Option<i64>)
    ensures
        r == (if message_date > 0 {
            Some(message_date as i64)
        } else {
            None
        }),
{
    if message_date > 0 {
        Some(message_date as i64)
    } else {
        None
    }
}

/// How many times a message is fetched again because its file reference expired.
pub const MAX_REF_RETRIES: u32 = 2;

/// Whether a failed download is tried with a fresh file reference, given the
/// lower-case form of the failure.
pub fn refetch_given(attempt: u32, err_lower: &str) -> (r: bool)
    ensures
        r == (attempt < MAX_REF_RETRIES && has_text(err_lower@, "file_reference"@)),
        r <==> attempt < 2 && has_text(err_lower@, "file_reference"@),
{
    contains_text(err_lower, "file_reference") && attempt < MAX_REF_RETRIES
}

/// Whether a failed download is tried with a fresh file reference.
pub fn refetch_reference(attempt: u32, err: &str) -> (r: bool)
    ensures
        r == (attempt < MAX_REF_RETRIES && has_text(lower_text(err@), "file_reference"@)),
        r <==> attempt < 2 && has_text(lower_text(err@), "file_reference"@),
{
    let lower = err.to_lowercase();
    refetch_given(attempt, lower.as_str())
}

/// How many times a download is tried.
pub const MAX_RETRIES: u32 = 5;

pub const BASE_DELAY_SECS: u64 = 2;

/// The delay after a failed try, in seconds: it doubles from try to try.
pub open spec fn retry_delay(attempt: nat) -> nat
    decreases attempt,
{
    if attempt == 0 {
        BASE_DELAY_SECS as nat
    } else {
        2 * retry_delay((attempt - 1) as nat)
    }
}

/// The delay before the next try, or nothing where the failure stands.
pub open spec fn retry_rule(attempt: u32, err: Seq<char>, may_pass: bool) -> Option<nat> {
    if flood_wait(err) is None && !may_pass {
        None
    } else if attempt + 1 < MAX_RETRIES {
        Some(retry_delay(attempt as nat))
    } else {
        None
    }
}

/// The delay before a failed download is tried again, given whether the failure is
/// one that may pass.
pub fn retry_given(attempt: u32, err: &str, may_pass: bool) -> (r: Option<u64>)
    ensures
        match retry_rule(attempt, err@, may_pass) {
            Some(secs) => r == Some(secs as u64) && secs <= u64::MAX,
            None => r is None,
        },
{
    if parse_flood_wait(err).is_none() && !may_pass {
        return None;
    }
    if attempt >= MAX_RETRIES - 1 {
        return None;
    }
    let mut delay: u64 = BASE_DELAY_SECS;
    let mut i: u32 = 0;
    while i < attempt
        invariant
            i <= attempt < MAX_RETRIES - 1,
            delay == retry_delay(i as nat),
            i == 0 ==> delay == 2,
            i == 1 ==> delay == 4,
            i == 2 ==> delay == 8,
            i == 3 ==> delay == 16,
        decreases attempt - i,
    {
        delay = delay * 2;
        i = i + 1;
    }
    Some(delay)
}

/// The delay in seconds before a failed download is tried again, or nothing where the
/// failure stands.
pub fn download_media_with_retry(attempt: u32, err: &str) -> (r: Option<u64>)
    ensures
        match retry_rule(attempt, err@, retryable(err@, upper_text(err@), lower_text(err@))) {
            Some(secs) => r == Some(secs as u64) && secs <= u64::MAX,
            None => r is None,
        },
{
    let may_pass = is_retryable_error(err);
    retry_given(attempt, err, may_pass)
}

/// A download is tried at most `MAX_RETRIES` times.
pub proof fn lemma_downloads_are_bounded(attempt: u32, err: Seq<char>, may_pass: bool)
    requires
        attempt + 1 >= MAX_RETRIES,
    ensures
        retry_rule(attempt, err, may_pass) is None,
{
}

/// The first wait is two seconds, and each one is twice the one before.
pub proof fn lemma_delays_double(attempt: nat)
    ensures
        retry_delay(0) == 2,
        retry_delay(attempt + 1) == 2 * retry_delay(attempt),
{
}

/// A download is tried five times where its failure may pass or asks to wait, and once
/// where it does neither.
pub proof fn lemma_downloads_are_tried_again(attempt: u32, err: Seq<char>, may_pass: bool)
    ensures
        retry_rule(attempt, err, may_pass) is Some <==> attempt < 4 && (may_pass || flood_wait(err)
            is Some),
        retry_rule(attempt, err, may_pass) matches Some(secs) ==> secs == retry_delay(
            attempt as nat,
        ),
{
}

} // verus!
