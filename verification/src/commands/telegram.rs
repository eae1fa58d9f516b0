//! Downloads that are running, batches of downloads, and what is said of a sign-in.

use std::collections::HashMap;

use vstd::prelude::*;
use vstd::std_specs::iter::IteratorSpec;

use crate::platforms::telegram::auth::{QrLoginResult, QrPollStatus, VerifyError};
use crate::platforms::telegram::resume::{is_completed, ResumeState};
use crate::text::{
    begins_with, contains_text, decimal, decimal_text, has_text, joined, joined3,
    lemma_decimal_reads_back, lemma_numbers_in_front, lemma_signed_decimals_differ, opt_text,
    same_text, signed_decimal, signed_text, starts_with_text, upper_text,
};

verus! {

// ------------------------------------------------------------ signing in

/// A code to be scanned, as it is answered.
#[derive(Debug)]
pub struct QrStartResponse {
    pub svg: String,
    pub expires: i32,
}

/// The answer to a request for a code.
pub fn telegram_qr_start(result: QrLoginResult) -> (r: QrStartResponse)
    ensures
        r.svg == result.qr_svg,
        r.expires == result.expires,
{
    QrStartResponse { svg: result.qr_svg, expires: result.expires }
}

/// What is said of a code that is shown.
pub open spec fn poll_text(status: QrPollStatus) -> Seq<char> {
    match status {
        QrPollStatus::Waiting => "waiting"@,
        QrPollStatus::Success { phone } => "success:"@ + phone@,
        QrPollStatus::PasswordRequired { hint } => if hint@.len() == 0 {
            "password_required"@
        } else {
            "password_required:"@ + hint@
        },
    }
}

/// The answer to the question whether a code was scanned.
pub fn telegram_qr_poll(status: &QrPollStatus) -> (r: String)
    ensures
        r@ == poll_text(*status),
{
    match status {
        QrPollStatus::Waiting => "waiting".to_owned(),
        QrPollStatus::Success { phone } => joined("success:", phone.as_str()),
        QrPollStatus::PasswordRequired { hint } => {
            proof {
                reveal_strlit("");
            }
            if same_text(hint.as_str(), "") {
                "password_required".to_owned()
            } else {
                proof {
                    if hint@.len() == 0 {
                        assert(hint@ =~= ""@);
                    }
                }
                joined("password_required:", hint.as_str())
            }
        },
    }
}

/// What is said of a code that was not accepted.
pub open spec fn verify_error_text(error: VerifyError) -> Seq<char> {
    match error {
        VerifyError::InvalidCode => "invalid_code"@,
        VerifyError::PasswordRequired { hint } => "password_required:"@ + hint@,
        VerifyError::NoSession => "no_session"@,
        VerifyError::Other(msg) => msg@,
    }
}

/// The answer to a code that was typed in.
pub fn telegram_verify_code(outcome: Result<String, VerifyError>) -> (r: Result<String, String>)
    ensures
        match outcome {
            Ok(phone) => r == Ok::<String, String>(phone),
            Err(e) => r matches Err(text) && text@ == verify_error_text(e),
        },
{
    match outcome {
        Ok(phone) => Ok(phone),
        Err(VerifyError::InvalidCode) => Err("invalid_code".to_owned()),
        Err(VerifyError::PasswordRequired { hint }) => Err(
            joined("password_required:", hint.as_str()),
        ),
        Err(VerifyError::NoSession) => Err("no_session".to_owned()),
        Err(VerifyError::Other(msg)) => Err(msg),
    }
}

// ------------------------------------------------------------ running downloads

/// The keys of the downloads that are running, by their numbers.
#[derive(Debug)]
pub struct ActiveDownloads {
    map: HashMap<u64, String>,
}

impl View for ActiveDownloads {
    type V = Map<u64, Seq<char>>;

    closed spec fn view(&self) -> Map<u64, Seq<char>> {
        self.map@.map_values(|key: String| key@)
    }
}

/// Some download with this key is running.
pub open spec fn is_running(active: Map<u64, Seq<char>>, key: Seq<char>) -> bool {
    exists|id: u64| #[trigger] active.contains_key(id) && active[id] == key
}

/// A batch with this number is running.
pub open spec fn batch_is_running(active: Map<u64, Seq<char>>, id: u64) -> bool {
    active.contains_key(id) && begins_with(active[id], "tg-batch:"@)
}

/// The key of one download.
pub open spec fn media_key(chat_id: i64, message_id: i32) -> Seq<char> {
    "tg:"@ + signed_decimal(chat_id as int) + ":"@ + signed_decimal(message_id as int)
}

/// The key of a batch.
pub open spec fn batch_key(id: u64) -> Seq<char> {
    "tg-batch:"@ + decimal(id as nat)
}

impl ActiveDownloads {
    /// Nothing is running.
    pub fn new() -> (r: ActiveDownloads)
        ensures
            r@ == Map::<u64, Seq<char>>::empty(),
    {
        broadcast use vstd::std_specs::hash::group_hash_axioms;

        let r = ActiveDownloads { map: HashMap::new() };
        proof {
            assert(r@ =~= Map::empty());
        }
        r
    }

    fn runs(&self, key: &str) -> (r: bool)
        ensures
            r == is_running(self@, key@),
    {
        broadcast use vstd::std_specs::hash::group_hash_axioms;

        let mut found = false;
        let ghost all = vstd::std_specs::hash::spec_hash_map_iter(&self.map).remaining();
        for entry in it: self.map.iter()
            invariant
                it.seq() == all,
                found == exists|j: int| 0 <= j < it.index() && (#[trigger] all[j]).1@ == key@,
        {
            let ghost at = it.index() as int;
            if same_text(entry.1.as_str(), key) {
                assert(all[at].1@ == key@);
                found = true;
            }
        }
        proof {
            if found {
                let j = choose|j: int| 0 <= j < all.len() && (#[trigger] all[j]).1@ == key@;
                assert(self.map@.contains_key(*all[j].0));
                assert(self@.contains_key(*all[j].0));
            }
            if is_running(self@, key@) {
                let id = choose|id: u64| #[trigger] self@.contains_key(id) && self@[id] == key@;
                assert(self.map@.contains_key(id));
                assert(all.contains((&id, &self.map@[id])));
            }
        }
        found
    }

    fn put(&mut self, id: u64, key: String)
        ensures
            final(self)@ == old(self)@.insert(id, key@),
    {
        broadcast use vstd::std_specs::hash::group_hash_axioms;

        let _ = self.map.insert(id, key);
        proof {
            assert(self@ =~= old(self)@.insert(id, key@));
        }
    }

    /// A download has ended.
    pub fn finish(&mut self, id: u64)
        ensures
            final(self)@ == old(self)@.remove(id),
    {
        broadcast use vstd::std_specs::hash::group_hash_axioms;

        let _ = self.map.remove(&id);
        proof {
            assert(self@ =~= old(self)@.remove(id));
        }
    }
}

/// A download that has begun, as it is answered.
#[derive(Debug)]
pub struct TelegramDownloadStarted {
    pub id: u64,
    pub file_name: String,
}

/// Begins the download of one file, unless it is running.
pub fn telegram_download_media(
    active: &mut ActiveDownloads,
    id: u64,
    chat_id: i64,
    message_id: i32,
    file_name: &str,
) -> (r: Result<TelegramDownloadStarted, String>)
    ensures
        if is_running(old(active)@, media_key(chat_id, message_id)) {
            &&& r matches Err(text) && text@ == "Download already in progress"@
            &&& final(active)@ == old(active)@
        } else {
            &&& r matches Ok(started) && started.id == id && started.file_name@ == file_name@
            &&& final(active)@ == old(active)@.insert(id, media_key(chat_id, message_id))
        },
{
    let head = joined3("tg:", signed_text(chat_id).as_str(), ":");
    let key = joined(head.as_str(), signed_text(message_id as i64).as_str());
    if active.runs(key.as_str()) {
        return Err("Download already in progress".to_owned());
    }
    active.put(id, key);
    Ok(TelegramDownloadStarted { id, file_name: file_name.to_owned() })
}

/// Begins a batch.
pub fn telegram_download_batch(active: &mut ActiveDownloads, id: u64)
    ensures
        final(active)@ == old(active)@.insert(id, batch_key(id)),
{
    active.put(id, joined("tg-batch:", decimal_text(id).as_str()));
}

/// Whether there is a batch with this number to be cancelled.
pub fn telegram_cancel_batch(active: &ActiveDownloads, id: u64) -> (r: Result<(), String>)
    ensures
        match r {
            Ok(_) => batch_is_running(active@, id),
            Err(text) => !batch_is_running(active@, id) && text@ == "Batch not found"@,
        },
{
    broadcast use vstd::std_specs::hash::group_hash_axioms;

    match active.map.get(&id) {
        Some(key) if starts_with_text(key.as_str(), "tg-batch:") => Ok(()),
        _ => Err("Batch not found".to_owned()),
    }
}

/// A download that has begun is refused a second time, whatever else begins, until it has
/// ended; and then no other way.
pub proof fn lemma_one_download_at_a_time(
    active: Map<u64, Seq<char>>,
    id: u64,
    other: u64,
    key: Seq<char>,
    other_key: Seq<char>,
)
    requires
        !is_running(active, key),
        other != id,
        other_key != key,
    ensures
        is_running(active.insert(id, key), key),
        is_running(active.insert(id, key).insert(other, other_key), key),
        !is_running(active.insert(id, key).remove(id), key),
{
    let one = active.insert(id, key);
    assert(one.contains_key(id));
    assert(one.insert(other, other_key).contains_key(id));
    let ended = one.remove(id);
    if is_running(ended, key) {
        let i = choose|i: u64| #[trigger] ended.contains_key(i) && ended[i] == key;
        assert(active.contains_key(i));
    }
}

/// A batch can be cancelled once it has begun and until it has ended, and a single download
/// never can as a batch.
pub proof fn lemma_only_batches_are_cancelled(
    active: Map<u64, Seq<char>>,
    id: u64,
    chat_id: i64,
    message_id: i32,
)
    ensures
        batch_is_running(active.insert(id, batch_key(id)), id),
        !batch_is_running(active.remove(id), id),
        !batch_is_running(active.insert(id, media_key(chat_id, message_id)), id),
{
    reveal_strlit("tg-batch:");
    reveal_strlit("tg:");
    assert(batch_key(id).subrange(0, 9) =~= "tg-batch:"@);
    let key = media_key(chat_id, message_id);
    if begins_with(key, "tg-batch:"@) {
        assert(key[2] == ':');
        assert("tg-batch:"@[2] == '-');
    }
}

// ------------------------------------------------------------ batches

/// A file of a batch.
#[derive(Debug)]
pub struct BatchItem {
    pub message_id: i32,
    pub file_name: String,
    pub file_size: u64,
}

/// What is done about a file of a batch.
#[derive(Debug, Clone, Copy, PartialEq, Eq, Structural)]
pub enum ItemPlan {
    /// Nothing: the batch was cancelled.
    Stop,
    /// Nothing: the file was downloaded in an earlier run.
    Resumed,
    /// Nothing: there is a file with its name.
    Skip,
    Download,
}

/// Decides about a file of a batch. `resume` is what is known of earlier runs, where they
/// count; `existing` is the size of the file with its name, if there is one.
pub fn plan_item(
    cancelled: bool,
    resume: Option<&ResumeState>,
    message_id: i32,
    existing: Option<u64>,
) -> (r: ItemPlan)
    ensures
        r == (if cancelled {
            ItemPlan::Stop
        } else if resume is Some && resume->0.completed@.contains(message_id) {
            ItemPlan::Resumed
        } else if existing is Some && existing->0 > 0 {
            ItemPlan::Skip
        } else {
            ItemPlan::Download
        }),
{
    if cancelled {
        return ItemPlan::Stop;
    }
    if let Some(state) = resume {
        if is_completed(state, message_id) {
            return ItemPlan::Resumed;
        }
    }
    match existing {
        Some(size) => if size > 0 {
            ItemPlan::Skip
        } else {
            ItemPlan::Download
        },
        None => ItemPlan::Download,
    }
}

/// The size that is announced of a file.
pub fn announced_size(item: &BatchItem) -> (r: Option<u64>)
    ensures
        r == (if item.file_size > 0 {
            Some(item.file_size)
        } else {
            None
        }),
{
    if item.file_size > 0 {
        Some(item.file_size)
    } else {
        None
    }
}

/// What became of a file of a batch.
#[derive(Debug, Clone, Copy, PartialEq, Eq, Structural)]
pub enum ItemEnd {
    Resumed,
    Skipped,
    Done,
    Cancelled,
    /// The message is gone.
    Deleted,
    Failed,
}

/// An error, in upper case, says that a message is gone.
pub open spec fn tells_deleted(upper: Seq<char>) -> bool {
    has_text(upper, "MESSAGE_ID_INVALID"@) || has_text(upper, "MESSAGEDELETED"@) || has_text(
        upper,
        "MESSAGE_DELETED"@,
    )
}

/// What became of a file whose download failed with an error.
pub open spec fn failure_of(err: Seq<char>, upper: Seq<char>) -> ItemEnd {
    if has_text(err, "cancelled"@) {
        ItemEnd::Cancelled
    } else if tells_deleted(upper) {
        ItemEnd::Deleted
    } else {
        ItemEnd::Failed
    }
}

/// Decides what became of a file, from the error and the error in upper case.
pub fn item_failed_given(err: &str, upper: &str) -> (r: ItemEnd)
    ensures
        r == failure_of(err@, upper@),
{
    if contains_text(err, "cancelled") {
        ItemEnd::Cancelled
    } else if contains_text(upper, "MESSAGE_ID_INVALID") || contains_text(upper, "MESSAGEDELETED")
        || contains_text(upper, "MESSAGE_DELETED") {
        ItemEnd::Deleted
    } else {
        ItemEnd::Failed
    }
}

/// Decides what became of a file whose download failed.
pub fn item_failed(err: &str) -> (r: ItemEnd)
    ensures
        r == failure_of(err@, upper_text(err@)),
{
    let upper = err.to_uppercase();
    item_failed_given(err, upper.as_str())
}

/// How the end of a file is called, and whether the file counts as whole. Nothing is
/// reported of a file that was broken off.
pub open spec fn status_of(end: ItemEnd) -> Option<(Seq<char>, bool)> {
    match end {
        ItemEnd::Resumed => Some(("resumed_skip"@, true)),
        ItemEnd::Skipped => Some(("skipped"@, true)),
        ItemEnd::Done => Some(("done"@, true)),
        ItemEnd::Cancelled => None,
        ItemEnd::Deleted => Some(("skipped_deleted"@, true)),
        ItemEnd::Failed => Some(("error"@, false)),
    }
}

/// What is reported of the end of a file: how it is called, and whether the file counts as
/// whole.
pub fn item_status(end: ItemEnd) -> (r: Option<(&'static str, bool)>)
    ensures
        match r {
            Some((status, whole)) => status_of(end) == Some((status@, whole)),
            None => status_of(end) is None,
        },
{
    match end {
        ItemEnd::Resumed => Some(("resumed_skip", true)),
        ItemEnd::Skipped => Some(("skipped", true)),
        ItemEnd::Done => Some(("done", true)),
        ItemEnd::Cancelled => None,
        ItemEnd::Deleted => Some(("skipped_deleted", true)),
        ItemEnd::Failed => Some(("error", false)),
    }
}

/// What the queue is told of a file whose download failed: nothing of one that was broken
/// off.
pub fn queue_error(end: ItemEnd, err: &str) -> (r: Option<String>)
    ensures
        match end {
            ItemEnd::Deleted => r matches Some(text) && text@ == "skipped (deleted): "@ + err@,
            ItemEnd::Failed => r matches Some(text) && text@ == err@,
            _ => r is None,
        },
{
    match end {
        ItemEnd::Deleted => Some(joined("skipped (deleted): ", err)),
        ItemEnd::Failed => Some(err.to_owned()),
        _ => None,
    }
}

/// How many files of a batch have come to which end.
#[derive(Debug, Clone, Copy, PartialEq, Eq, Structural)]
pub struct BatchCounts {
    pub completed: u32,
    pub failed: u32,
    pub skipped: u32,
    pub deleted: u32,
    pub resumed: u32,
}

impl BatchCounts {
    /// All files that have come to an end.
    pub open spec fn all(self) -> int {
        self.completed + self.failed + self.skipped + self.deleted + self.resumed
    }

    pub fn new() -> (r: BatchCounts)
        ensures
            r == (BatchCounts { completed: 0, failed: 0, skipped: 0, deleted: 0, resumed: 0 }),
    {
        BatchCounts { completed: 0, failed: 0, skipped: 0, deleted: 0, resumed: 0 }
    }

    /// The counts once another file has come to an end.
    pub open spec fn with(self, end: ItemEnd) -> BatchCounts {
        match end {
            ItemEnd::Resumed => BatchCounts { resumed: (self.resumed + 1) as u32, ..self },
            ItemEnd::Skipped => BatchCounts { skipped: (self.skipped + 1) as u32, ..self },
            ItemEnd::Done => BatchCounts { completed: (self.completed + 1) as u32, ..self },
            ItemEnd::Cancelled => self,
            ItemEnd::Deleted => BatchCounts { deleted: (self.deleted + 1) as u32, ..self },
            ItemEnd::Failed => BatchCounts { failed: (self.failed + 1) as u32, ..self },
        }
    }

    /// Counts a file that has come to an end, and says how many are reported as done: all of
    /// them, but without those of earlier runs where a file was skipped. Nothing is reported
    /// of a file that was broken off.
    pub fn note(&mut self, end: ItemEnd) -> (r: Option<u32>)
        requires
            old(self).all() < u32::MAX,
        ensures
            *final(self) == old(self).with(end),
            r == (match end {
                ItemEnd::Cancelled => None,
                ItemEnd::Skipped => Some((final(self).all() - final(self).resumed) as u32),
                _ => Some(final(self).all() as u32),
            }),
    {
        match end {
            ItemEnd::Resumed => {
                self.resumed = self.resumed + 1;
            },
            ItemEnd::Skipped => {
                self.skipped = self.skipped + 1;
                return Some(self.completed + self.failed + self.skipped + self.deleted);
            },
            ItemEnd::Done => {
                self.completed = self.completed + 1;
            },
            ItemEnd::Cancelled => {
                return None;
            },
            ItemEnd::Deleted => {
                self.deleted = self.deleted + 1;
            },
            ItemEnd::Failed => {
                self.failed = self.failed + 1;
            },
        }
        Some(self.completed + self.failed + self.skipped + self.deleted + self.resumed)
    }
}

/// What is reported of a batch that has ended.
#[derive(Debug)]
pub struct BatchSummary {
    pub success: bool,
    pub error: Option<String>,
    pub file_count: u32,
    pub deleted_count: Option<u32>,
}

/// What is said of files that failed.
pub open spec fn failed_text(n: u32) -> Seq<char> {
    decimal(n as nat) + " files failed"@
}

/// What is said of messages that are gone.
pub open spec fn deleted_text(n: u32) -> Seq<char> {
    decimal(n as nat) + " messages deleted/invalid (skipped)"@
}

/// What is said of a batch that did not go as wished.
pub open spec fn batch_error(counts: BatchCounts, cancelled: bool) -> Option<Seq<char>> {
    if cancelled {
        Some("Batch cancelled"@)
    } else if counts.failed > 0 && counts.deleted > 0 {
        Some(failed_text(counts.failed) + "; "@ + deleted_text(counts.deleted))
    } else if counts.failed > 0 {
        Some(failed_text(counts.failed))
    } else if counts.deleted > 0 {
        Some(deleted_text(counts.deleted))
    } else {
        None
    }
}

/// Sums a batch up.
pub fn batch_summary(counts: &BatchCounts, cancelled: bool) -> (r: BatchSummary)
    requires
        counts.all() <= u32::MAX,
    ensures
        r.success == (counts.failed == 0 && !cancelled),
        opt_text(r.error) == batch_error(*counts, cancelled),
        r.file_count == counts.completed + counts.skipped + counts.resumed,
        r.deleted_count == (if counts.deleted > 0 {
            Some(counts.deleted)
        } else {
            None
        }),
{
    let failed = joined(decimal_text(counts.failed as u64).as_str(), " files failed");
    let gone = joined(
        decimal_text(counts.deleted as u64).as_str(),
        " messages deleted/invalid (skipped)",
    );
    let error = if cancelled {
        Some("Batch cancelled".to_owned())
    } else if counts.failed > 0 && counts.deleted > 0 {
        Some(joined3(failed.as_str(), "; ", gone.as_str()))
    } else if counts.failed > 0 {
        Some(failed)
    } else if counts.deleted > 0 {
        Some(gone)
    } else {
        None
    };
    BatchSummary {
        success: counts.failed == 0 && !cancelled,
        error,
        file_count: counts.completed + counts.skipped + counts.resumed,
        deleted_count: if counts.deleted > 0 {
            Some(counts.deleted)
        } else {
            None
        },
    }
}

/// The counts once files have come to these ends, one after the other.
pub open spec fn counts_after(ends: Seq<ItemEnd>) -> BatchCounts
    decreases ends.len(),
{
    if ends.len() == 0 {
        BatchCounts { completed: 0, failed: 0, skipped: 0, deleted: 0, resumed: 0 }
    } else {
        counts_after(ends.drop_last()).with(ends.last())
    }
}

/// How many of the ends are not that a file was broken off.
pub open spec fn ended(ends: Seq<ItemEnd>) -> nat
    decreases ends.len(),
{
    if ends.len() == 0 {
        0
    } else {
        ended(ends.drop_last()) + if ends.last() is Cancelled {
            0nat
        } else {
            1
        }
    }
}

/// Every file that was not broken off is counted once, and none failed exactly where the
/// count of failures is nought.
pub proof fn lemma_every_file_is_counted(ends: Seq<ItemEnd>)
    requires
        ends.len() <= u32::MAX,
    ensures
        counts_after(ends).all() == ended(ends) <= ends.len(),
        counts_after(ends).failed == 0 <==> !ends.contains(ItemEnd::Failed),
    decreases ends.len(),
{
    if ends.len() > 0 {
        let before = ends.drop_last();
        lemma_every_file_is_counted(before);
        assert(ends =~= before.push(ends.last()));
        assert(ends.contains(ItemEnd::Failed) <==> before.contains(ItemEnd::Failed) || ends.last()
            == ItemEnd::Failed) by {
            if before.contains(ItemEnd::Failed) {
                let i = choose|i: int| 0 <= i < before.len() && before[i] == ItemEnd::Failed;
                assert(ends[i] == ItemEnd::Failed);
            }
            if ends.last() == ItemEnd::Failed {
                assert(ends[ends.len() - 1] == ItemEnd::Failed);
            }
            if ends.contains(ItemEnd::Failed) && ends.last() != ItemEnd::Failed {
                let i = choose|i: int| 0 <= i < ends.len() && ends[i] == ItemEnd::Failed;
                assert(before[i] == ItemEnd::Failed);
            }
        }
    }
}

/// Different files have different keys, so that each can be downloaded while another one
/// is, and so have different batches.
pub proof fn lemma_keys_differ(
    chat_id: i64,
    message_id: i32,
    other_chat: i64,
    other_message: i32,
    id: u64,
    other_id: u64,
)
    ensures
        media_key(chat_id, message_id) == media_key(other_chat, other_message) ==> chat_id
            == other_chat && message_id == other_message,
        batch_key(id) == batch_key(other_id) ==> id == other_id,
        batch_key(id) != media_key(chat_id, message_id),
{
    reveal_strlit("tg:");
    reveal_strlit(":");
    reveal_strlit("tg-batch:");
    let a = media_key(chat_id, message_id);
    let b = media_key(other_chat, other_message);
    let x = signed_decimal(message_id as int);
    let y = signed_decimal(other_message as int);
    assert(a.skip(3) =~= signed_decimal(chat_id as int).push(':') + x);
    assert(b.skip(3) =~= signed_decimal(other_chat as int).push(':') + y);
    if a == b {
        lemma_numbers_in_front(chat_id as int, other_chat as int, ':', x, y);
        lemma_signed_decimals_differ(message_id as int, other_message as int);
    }
    assert(batch_key(id).skip(9) =~= decimal(id as nat));
    assert(batch_key(other_id).skip(9) =~= decimal(other_id as nat));
    lemma_decimal_reads_back(id as nat);
    lemma_decimal_reads_back(other_id as nat);
    assert(batch_key(id)[2] == '-');
    assert(a[2] == ':');
}

/// A download is refused exactly while one with its key is at hand.
pub proof fn lemma_what_is_running(active: Map<u64, Seq<char>>, key: Seq<char>, id: u64)
    ensures
        active.contains_key(id) && active[id] == key ==> is_running(active, key),
        (forall|i: u64| #[trigger] active.contains_key(i) ==> active[i] != key) ==> !is_running(
            active,
            key,
        ),
{
}

/// The end of each file raises one count by one: that of its end. A file that was broken off
/// raises none.
pub proof fn lemma_ends_are_counted(ends: Seq<ItemEnd>, end: ItemEnd)
    requires
        ends.len() < u32::MAX,
    ensures
        ({
            let before = counts_after(ends);
            let after = counts_after(ends.push(end));
            &&& after.completed == before.completed + (if end is Done {
                1int
            } else {
                0
            })
            &&& after.failed == before.failed + (if end is Failed {
                1int
            } else {
                0
            })
            &&& after.skipped == before.skipped + (if end is Skipped {
                1int
            } else {
                0
            })
            &&& after.deleted == before.deleted + (if end is Deleted {
                1int
            } else {
                0
            })
            &&& after.resumed == before.resumed + (if end is Resumed {
                1int
            } else {
                0
            })
        }),
{
    lemma_every_file_is_counted(ends);
    assert(ends.push(end).drop_last() =~= ends);
}

/// What a failure is taken for: a break where it says so, a message that is gone where the
/// service says so, and else a failure.
pub proof fn lemma_failures(err: Seq<char>, upper: Seq<char>)
    ensures
        failure_of(err, upper) is Cancelled <==> has_text(err, "cancelled"@),
        failure_of(err, upper) is Deleted <==> !has_text(err, "cancelled"@) && (has_text(
            upper,
            "MESSAGE_ID_INVALID"@,
        ) || has_text(upper, "MESSAGEDELETED"@) || has_text(upper, "MESSAGE_DELETED"@)),
        failure_of(err, upper) is Cancelled || failure_of(err, upper) is Deleted || failure_of(
            err,
            upper,
        ) is Failed,
{
}

/// Every end is reported but that of a file that was broken off, and only a failure counts
/// as one.
pub proof fn lemma_reported_ends(end: ItemEnd)
    ensures
        status_of(end) is None <==> end is Cancelled,
        status_of(end) matches Some((name, whole)) ==> (whole <==> !(end is Failed)),
        end is Done ==> (status_of(end) matches Some((name, _)) && name == "done"@),
        end is Failed ==> (status_of(end) matches Some((name, _)) && name == "error"@),
        end is Skipped ==> (status_of(end) matches Some((name, _)) && name == "skipped"@),
        end is Resumed ==> (status_of(end) matches Some((name, _)) && name == "resumed_skip"@),
        end is Deleted ==> (status_of(end) matches Some((name, _)) && name == "skipped_deleted"@),
{
}

/// A batch without failures and lost messages is not complained of, unless it was cancelled;
/// a complaint names how many files failed and how many messages are gone.
pub proof fn lemma_complaints(counts: BatchCounts, cancelled: bool)
    ensures
        batch_error(counts, cancelled) is None <==> !cancelled && counts.failed == 0
            && counts.deleted == 0,
        !cancelled && counts.failed > 0 ==> {
            let n = decimal(counts.failed as nat);
            batch_error(counts, cancelled)->0.take(n.len() as int) == n
        },
        !cancelled && counts.failed == 0 && counts.deleted > 0 ==> {
            let n = decimal(counts.deleted as nat);
            batch_error(counts, cancelled)->0.take(n.len() as int) == n
        },
        cancelled ==> batch_error(counts, cancelled) == Some("Batch cancelled"@),
{
    if !cancelled && counts.failed > 0 {
        let n = decimal(counts.failed as nat);
        assert(batch_error(counts, cancelled)->0.take(n.len() as int) =~= n);
    } else if !cancelled && counts.deleted > 0 {
        let n = decimal(counts.deleted as nat);
        assert(batch_error(counts, cancelled)->0.take(n.len() as int) =~= n);
    }
}

/// A sign-in that waits, succeeds or asks for a password is told by what its answer begins
/// with, and the phone number or the hint follows.
pub proof fn lemma_poll_texts(text: String)
    ensures
        poll_text(QrPollStatus::Waiting) == "waiting"@,
        poll_text(QrPollStatus::Success { phone: text }) == "success:"@ + text@,
        text@.len() == 0 ==> poll_text(QrPollStatus::PasswordRequired { hint: text })
            == "password_required"@,
        text@.len() > 0 ==> poll_text(QrPollStatus::PasswordRequired { hint: text })
            == "password_required:"@ + text@,
        verify_error_text(VerifyError::PasswordRequired { hint: text }) == "password_required:"@
            + text@,
        verify_error_text(VerifyError::Other(text)) == text@,
        verify_error_text(VerifyError::InvalidCode) == "invalid_code"@,
        verify_error_text(VerifyError::NoSession) == "no_session"@,
{
}

} // verus!
