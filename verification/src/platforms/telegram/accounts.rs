//! Saved sign-ins and backups of the current one.

use vstd::prelude::*;

use super::bandwidth::{
    day_number, is_date, is_day, lemma_two_digits, unix_days_to_ymd_pub, SECS_PER_DAY,
};
use crate::json::low_i32;
use crate::paths::RelPath;
use crate::sort::{lemma_sorted_order, sort_descending, sorted, SortBy};
use crate::text::{
    blank_text, chars_of, copy_opt, is_blank, is_digit, joined, joined3, lemma_blank_trims_to_nothing, lemma_padding_keeps_the_value, opt_str, opt_text, padded,
    padded_signed, padded_signed_text, padded_text, same_text, signed_decimal, signed_text, text_of,
    trim_text, trimmed,
};

verus! {

/// A saved sign-in.
#[derive(Debug, Clone)]
pub struct AccountProfile {
    pub id: String,
    pub label: String,
    pub phone_redacted: Option<String>,
    pub user_id: Option<i64>,
    pub created_at: i64,
    pub updated_at: i64,
}

/// All saved sign-ins.
#[derive(Debug, Clone)]
pub struct AccountsManifest {
    pub profiles: Vec<AccountProfile>,
}

impl Default for AccountsManifest {
    fn default() -> (r: AccountsManifest)
        ensures
            r.profiles@.len() == 0,
    {
        AccountsManifest { profiles: Vec::new() }
    }
}

/// Why a profile or a backup could not be had.
pub enum AccountError {
    NothingToSave,
    NothingToBackUp,
    UnknownProfile { id: String },
}

pub open spec fn account_error_text(e: AccountError) -> Seq<char> {
    match e {
        AccountError::NothingToSave => "Nenhuma sessão ativa para salvar"@,
        AccountError::NothingToBackUp => "Nenhuma sessão ativa para backup"@,
        AccountError::UnknownProfile { id } => "Perfil '"@ + id@ + "' não encontrado"@,
    }
}

impl AccountError {
    pub fn message(&self) -> (r: String)
        ensures
            r@ == account_error_text(*self),
    {
        match self {
            AccountError::NothingToSave => "Nenhuma sessão ativa para salvar".to_owned(),
            AccountError::NothingToBackUp => "Nenhuma sessão ativa para backup".to_owned(),
            AccountError::UnknownProfile { id } => joined3(
                "Perfil '",
                id.as_str(),
                "' não encontrado",
            ),
        }
    }
}

// ------------------------------------------------------------ files

/// The list of profiles.
pub fn manifest_path() -> (r: RelPath)
    ensures
        r@ == seq!["accounts.json"@],
{
    RelPath::one("accounts.json")
}

/// The directory of a profile.
pub fn profile_dir(id: &str) -> (r: RelPath)
    ensures
        r@ == seq!["accounts"@, id@],
{
    let r = RelPath::one("accounts").join(id);
    proof {
        assert(r@ =~= seq!["accounts"@, id@]);
    }
    r
}

/// The session of a profile.
pub fn profile_session_path(id: &str) -> (r: RelPath)
    ensures
        r@ == seq!["accounts"@, id@, "telegram.session"@],
{
    let r = profile_dir(id).join("telegram.session");
    proof {
        assert(r@ =~= seq!["accounts"@, id@, "telegram.session"@]);
    }
    r
}

/// Where the current session is kept when a profile replaces it at the moment `now`.
pub fn pre_restore_path(now: i64) -> (r: RelPath)
    ensures
        r@ == seq!["backups"@, "session-pre-restore-"@ + signed_decimal(now as int) + ".bak"@],
{
    let moment = signed_text(now);
    let name = joined3("session-pre-restore-", moment.as_str(), ".bak");
    let r = RelPath::one("backups").join(name.as_str());
    proof {
        assert(r@ =~= seq![
            "backups"@,
            "session-pre-restore-"@ + signed_decimal(now as int) + ".bak"@,
        ]);
    }
    r
}

/// `text` is a moment as date and time of day, in digits.
pub open spec fn is_timestamp(secs: i64, text: Seq<char>) -> bool {
    let rem = secs as int % (SECS_PER_DAY as int);
    exists|y: int, m: int, d: int| #[trigger]
        is_date(y, m, d) && day_number(y, m, d) == secs as int / (SECS_PER_DAY as int) && text
            == padded_signed(low_i32(y), 4) + padded(m as nat, 2) + padded(d as nat, 2) + "-"@
            + padded((rem / 3600) as nat, 2) + padded(((rem % 3600) / 60) as nat, 2) + padded(
            (rem % 60) as nat,
            2,
        )
}

/// A moment since the first of January 1970 as date and time of day, in digits.
pub fn chrono_like_timestamp(secs: i64) -> (r: String)
    requires
        0 <= secs,
    ensures
        is_timestamp(secs, r@),
{
    let moment: u64 = secs as u64;
    let days: u64 = moment / SECS_PER_DAY;
    let rem: u64 = moment % SECS_PER_DAY;
    let (y, m, d) = unix_days_to_ymd_pub(days as i64);
    let ghost year = choose|year: int| #[trigger]
        is_day(days as i64, year, m as int, d as int) && y == low_i32(year);
    let date = joined3(
        padded_signed_text(y, 4).as_str(),
        padded_text(m as u64, 2).as_str(),
        padded_text(d as u64, 2).as_str(),
    );
    let hour = padded_text(rem / 3600, 2);
    let minute = padded_text((rem % 3600) / 60, 2);
    let second = padded_text(rem % 60, 2);
    let head = joined3(date.as_str(), "-", hour.as_str());
    let text = joined3(head.as_str(), minute.as_str(), second.as_str());
    proof {
        let r = secs as int % (SECS_PER_DAY as int);
        assert(is_date(year, m as int, d as int));
        assert(text@ =~= padded_signed(low_i32(year), 4) + padded(m as nat, 2) + padded(
            d as nat,
            2,
        ) + "-"@ + padded((r / 3600) as nat, 2) + padded(((r % 3600) / 60) as nat, 2) + padded(
            (r % 60) as nat,
            2,
        ));
    }
    text
}

/// Where a backup of the current session goes, if there is a session.
pub fn backup_current_session(has_session: bool, secs: i64) -> (r: Result<RelPath, AccountError>)
    requires
        0 <= secs,
    ensures
        match r {
            Ok(path) => has_session && exists|stamp: Seq<char>| #[trigger]
                is_timestamp(secs, stamp) && path@ == seq![
                    "backups"@,
                    "session-"@ + stamp + ".bak"@,
                ],
            Err(e) => !has_session && e == AccountError::NothingToBackUp,
        },
{
    if !has_session {
        return Err(AccountError::NothingToBackUp);
    }
    let stamp = chrono_like_timestamp(secs);
    let name = joined3("session-", stamp.as_str(), ".bak");
    let r = RelPath::one("backups").join(name.as_str());
    proof {
        assert(is_timestamp(secs, stamp@));
        assert(r@ =~= seq!["backups"@, "session-"@ + stamp@ + ".bak"@]);
    }
    Ok(r)
}

/// Newest backups first.
pub struct NewestBackup;

impl SortBy<(String, i64)> for NewestBackup {
    open spec fn key(x: &(String, i64)) -> int {
        x.1 as int
    }

    fn key_of(x: &(String, i64)) -> (r: i128) {
        x.1 as i128
    }
}

/// Backups with the moments of their last change, newest first.
pub fn list_backups(found: Vec<(String, i64)>) -> (r: Vec<(String, i64)>)
    ensures
        r@ == sorted::<(String, i64), NewestBackup>(found@),
{
    sort_descending::<(String, i64), NewestBackup>(found)
}

// ------------------------------------------------------------ phone numbers

/// The digits and plus signs of a text.
pub open spec fn phone_chars(s: Seq<char>) -> Seq<char> {
    s.filter(|c: char| is_digit(c) || c == '+')
}

/// A phone number of which only the last four characters are shown, and none of a
/// shorter one.
pub open spec fn redacted(phone: Seq<char>) -> Seq<char> {
    let kept = phone_chars(phone);
    if kept.len() <= 4 {
        "***"@
    } else {
        "***"@ + kept.skip(kept.len() - 4)
    }
}

pub fn redact_phone(phone: &str) -> (r: String)
    ensures
        r@ == redacted(phone@),
{
    let cs = chars_of(phone);
    let ghost p = |c: char| is_digit(c) || c == '+';
    let mut kept: Vec<char> = Vec::new();
    let mut i: usize = 0;
    while i < cs.len()
        invariant
            i <= cs@.len(),
            p == (|c: char| is_digit(c) || c == '+'),
            kept@ == cs@.take(i as int).filter(p),
        decreases cs@.len() - i,
    {
        proof {
            reveal(Seq::filter);
            assert(cs@.take(i + 1).drop_last() =~= cs@.take(i as int));
        }
        let c = cs[i];
        if ('0' <= c && c <= '9') || c == '+' {
            kept.push(c);
        }
        i = i + 1;
    }
    proof {
        assert(cs@.take(i as int) =~= cs@);
    }
    let n = kept.len();
    if n <= 4 {
        return "***".to_owned();
    }
    let tail = text_of(&kept, n - 4, n);
    proof {
        assert(tail@ =~= kept@.skip(n - 4));
    }
    joined("***", tail.as_str())
}

/// A redacted number shows at most four characters of the number.
pub proof fn lemma_redacted_shows_four(phone: Seq<char>)
    ensures
        redacted(phone).len() <= 7,
        redacted(phone).take(3) == "***"@,
{
    reveal_strlit("***");
    assert(redacted(phone).take(3) =~= "***"@);
}

// ------------------------------------------------------------ profiles

/// Profiles that were used last come first.
pub struct LastUsed;

impl SortBy<AccountProfile> for LastUsed {
    open spec fn key(x: &AccountProfile) -> int {
        x.updated_at as int
    }

    fn key_of(x: &AccountProfile) -> (r: i128) {
        x.updated_at as i128
    }
}

/// The profiles, those used last first.
pub fn list_profiles(manifest: AccountsManifest) -> (r: Vec<AccountProfile>)
    ensures
        r@ == sorted::<AccountProfile, LastUsed>(manifest.profiles@),
{
    sort_descending::<AccountProfile, LastUsed>(manifest.profiles)
}

/// The label of a profile: the one given, else the redacted number, else a fixed one.
pub open spec fn profile_label(label: Seq<char>, phone: Option<Seq<char>>) -> Seq<char> {
    if !is_blank(label) {
        trimmed(label)
    } else {
        match phone {
            Some(p) => redacted(p),
            None => "Sem nome"@,
        }
    }
}

fn copy_profile(p: &AccountProfile) -> (r: AccountProfile)
    ensures
        r == *p,
{
    AccountProfile {
        id: p.id.clone(),
        label: p.label.clone(),
        phone_redacted: copy_opt(&p.phone_redacted),
        user_id: p.user_id,
        created_at: p.created_at,
        updated_at: p.updated_at,
    }
}

/// Adds a profile for the current session, if there is one.
pub fn save_current_as_profile(
    manifest: &mut AccountsManifest,
    has_session: bool,
    label: &str,
    phone: Option<&str>,
    user_id: Option<i64>,
    now: i64,
) -> (r: Result<AccountProfile, AccountError>)
    ensures
        match r {
            Ok(p) => {
                &&& has_session
                &&& final(manifest).profiles@ == old(manifest).profiles@.push(p)
                &&& p.id@ == "acct-"@ + signed_decimal(now as int)
                &&& p.label@ == profile_label(label@, opt_str(phone))
                &&& opt_text(p.phone_redacted) == (match phone {
                    Some(n) => Some(redacted(n@)),
                    None => None,
                })
                &&& p.user_id == user_id
                &&& p.created_at == now
                &&& p.updated_at == now
            },
            Err(e) => {
                &&& !has_session
                &&& e == AccountError::NothingToSave
                &&& final(manifest).profiles@ == old(manifest).profiles@
            },
        },
{
    if !has_session {
        return Err(AccountError::NothingToSave);
    }
    let moment = signed_text(now);
    let chosen = if blank_text(label) {
        match phone {
            Some(p) => redact_phone(p),
            None => "Sem nome".to_owned(),
        }
    } else {
        trim_text(label)
    };
    let phone_redacted = match phone {
        Some(p) => Some(redact_phone(p)),
        None => None,
    };
    let profile = AccountProfile {
        id: joined("acct-", moment.as_str()),
        label: chosen,
        phone_redacted,
        user_id,
        created_at: now,
        updated_at: now,
    };
    manifest.profiles.push(copy_profile(&profile));
    Ok(profile)
}

/// The place of the first profile with an id, or the number of profiles.
pub open spec fn profile_at(profiles: Seq<AccountProfile>, id: Seq<char>) -> int
    decreases profiles.len(),
{
    if profiles.len() == 0 || profiles[0].id@ == id {
        0
    } else {
        1 + profile_at(profiles.drop_first(), id)
    }
}

fn find_profile(profiles: &Vec<AccountProfile>, id: &str) -> (r: usize)
    ensures
        r == profile_at(profiles@, id@),
        r <= profiles@.len(),
        r < profiles@.len() ==> profiles@[r as int].id@ == id@,
{
    let mut i: usize = 0;
    proof {
        assert(profiles@.skip(0) =~= profiles@);
    }
    while i < profiles.len()
        invariant
            i <= profiles@.len(),
            profile_at(profiles@, id@) == i + profile_at(profiles@.skip(i as int), id@),
        decreases profiles@.len() - i,
    {
        proof {
            assert(profiles@.skip(i as int).drop_first() =~= profiles@.skip(i + 1));
        }
        if same_text(profiles[i].id.as_str(), id) {
            return i;
        }
        i = i + 1;
    }
    i
}

/// Gives the first profile with an id a new label.
pub fn rename_profile(manifest: &mut AccountsManifest, id: &str, label: &str, now: i64) -> (r: Result<
    AccountProfile,
    AccountError,
>)
    ensures
        ({
            let before = old(manifest).profiles@;
            let at = profile_at(before, id@);
            if at < before.len() {
                &&& r matches Ok(p) && p.label@ == trimmed(label@) && p == (AccountProfile {
                    label: p.label,
                    updated_at: now,
                    ..before[at]
                })
                &&& final(manifest).profiles@ == before.update(at, r->Ok_0)
            } else {
                &&& r matches Err(AccountError::UnknownProfile { id: i }) && i@ == id@
                &&& final(manifest).profiles@ == before
            }
        }),
{
    let at = find_profile(&manifest.profiles, id);
    if at >= manifest.profiles.len() {
        return Err(AccountError::UnknownProfile { id: id.to_owned() });
    }
    let mut profile = copy_profile(&manifest.profiles[at]);
    profile.label = trim_text(label);
    profile.updated_at = now;
    manifest.profiles.set(at, copy_profile(&profile));
    Ok(profile)
}

/// Drops the profiles with an id.
pub fn remove_profile(manifest: &mut AccountsManifest, id: &str)
    ensures
        final(manifest).profiles@ == old(manifest).profiles@.filter(
            |p: AccountProfile| p.id@ != id@,
        ),
{
    let ghost p = |x: AccountProfile| x.id@ != id@;
    let ghost all = manifest.profiles@;
    let mut kept: Vec<AccountProfile> = Vec::new();
    let mut i: usize = 0;
    while i < manifest.profiles.len()
        invariant
            i <= manifest.profiles@.len(),
            manifest.profiles@ == all,
            p == (|x: AccountProfile| x.id@ != id@),
            kept@ == all.take(i as int).filter(p),
        decreases manifest.profiles@.len() - i,
    {
        proof {
            reveal(Seq::filter);
            assert(all.take(i + 1).drop_last() =~= all.take(i as int));
        }
        let profile = &manifest.profiles[i];
        if !same_text(profile.id.as_str(), id) {
            kept.push(copy_profile(profile));
        }
        i = i + 1;
    }
    proof {
        assert(all.take(i as int) =~= all);
    }
    manifest.profiles = kept;
}

/// Records that a profile was restored, if its session is there.
pub fn restore_profile(manifest: &mut AccountsManifest, has_profile: bool, id: &str, now: i64) -> (r:
    Result<(), AccountError>)
    ensures
        ({
            let before = old(manifest).profiles@;
            let at = profile_at(before, id@);
            if !has_profile {
                &&& r matches Err(AccountError::UnknownProfile { id: i }) && i@ == id@
                &&& final(manifest).profiles@ == before
            } else {
                &&& r is Ok
                &&& final(manifest).profiles@ == (if at < before.len() {
                    before.update(at, (AccountProfile { updated_at: now, ..before[at] }))
                } else {
                    before
                })
            }
        }),
{
    if !has_profile {
        return Err(AccountError::UnknownProfile { id: id.to_owned() });
    }
    let at = find_profile(&manifest.profiles, id);
    if at < manifest.profiles.len() {
        let mut profile = copy_profile(&manifest.profiles[at]);
        profile.updated_at = now;
        manifest.profiles.set(at, profile);
    }
    Ok(())
}

/// A removed profile is gone, and no other is.
pub proof fn lemma_removed_profiles_are_gone(profiles: Seq<AccountProfile>, id: Seq<char>)
    ensures
        ({
            let after = profiles.filter(|p: AccountProfile| p.id@ != id);
            &&& profile_at(after, id) == after.len()
            &&& forall|i: int|
                0 <= i < profiles.len() && (#[trigger] profiles[i]).id@ != id ==> after.contains(
                    profiles[i],
                )
        }),
{
    let p = |x: AccountProfile| x.id@ != id;
    let after = profiles.filter(p);
    broadcast use vstd::seq_lib::group_filter_ensures;

    assert forall|i: int| 0 <= i < profiles.len() && (#[trigger] profiles[i]).id@
        != id implies after.contains(profiles[i]) by {
        assert(p(profiles[i]));
    }
    assert forall|i: int| 0 <= i < after.len() implies (#[trigger] after[i]).id@ != id by {
        assert(p(after[i]));
    }
    lemma_profile_absent(after, id);
}

proof fn lemma_profile_absent(profiles: Seq<AccountProfile>, id: Seq<char>)
    requires
        forall|i: int| 0 <= i < profiles.len() ==> (#[trigger] profiles[i]).id@ != id,
    ensures
        profile_at(profiles, id) == profiles.len(),
    decreases profiles.len(),
{
    if profiles.len() > 0 {
        let rest = profiles.drop_first();
        assert(profiles[0].id@ != id);
        assert forall|i: int| 0 <= i < rest.len() implies (#[trigger] rest[i]).id@ != id by {
            assert(rest[i] == profiles[i + 1]);
        }
        lemma_profile_absent(rest, id);
    }
}

/// A redacted number ends in the last four digits of a longer one, and a shorter one is not
/// shown at all. Digits count whatever stands between them.
pub proof fn lemma_redacted_shows_the_end(phone: Seq<char>, more: Seq<char>)
    requires
        more.len() == 4,
        forall|i: int| 0 <= i < more.len() ==> '0' <= #[trigger] more[i] <= '9',
    ensures
        phone_chars(phone + more) == phone_chars(phone) + more,
        phone_chars(phone).len() > 0 ==> redacted(phone + more) == "***"@ + more,
        phone_chars(phone).len() <= 4 ==> redacted(phone) == "***"@,
{
    let p = |c: char| is_digit(c) || c == '+';
    Seq::filter_distributes_over_add(phone, more, p);
    lemma_all_kept(more, p);
    let kept = phone_chars(phone + more);
    assert(kept =~= phone_chars(phone) + more);
    assert(kept.skip(kept.len() - 4) =~= more);
}

proof fn lemma_all_kept(s: Seq<char>, p: spec_fn(char) -> bool)
    requires
        forall|i: int| 0 <= i < s.len() ==> p(#[trigger] s[i]),
    ensures
        s.filter(p) == s,
    decreases s.len(),
{
    reveal(Seq::filter);
    if s.len() > 0 {
        let t = s.drop_last();
        assert forall|i: int| 0 <= i < t.len() implies p(#[trigger] t[i]) by {
            assert(t[i] == s[i]);
        }
        lemma_all_kept(t, p);
        assert(p(s[s.len() - 1]));
        assert(t.push(s.last()) =~= s);
    }
}

/// Only digits and plus signs of a phone number count.
pub proof fn lemma_phone_chars(a: Seq<char>, b: Seq<char>, c: char)
    ensures
        phone_chars(a + b) == phone_chars(a) + phone_chars(b),
        phone_chars(seq![c]) == (if '0' <= c <= '9' || c == '+' {
            seq![c]
        } else {
            Seq::empty()
        }),
{
    let p = |c: char| is_digit(c) || c == '+';
    Seq::filter_distributes_over_add(a, b, p);
    reveal(Seq::filter);
    assert(seq![c].drop_last() =~= Seq::<char>::empty());
    assert(Seq::<char>::empty().filter(p) =~= Seq::<char>::empty());
    if p(c) {
        assert(phone_chars(seq![c]) =~= seq![c]);
    }
}

/// A profile goes by the label that it was given, without blanks around it, and else by its
/// phone number.
pub proof fn lemma_profile_labels(label: Seq<char>, phone: Option<Seq<char>>)
    ensures
        trimmed(label).len() > 0 ==> profile_label(label, phone) == trimmed(label),
        trimmed(label).len() == 0 ==> match phone {
            Some(p) => profile_label(label, phone) == redacted(p),
            None => profile_label(label, phone) == "Sem nome"@,
        },
{
    lemma_blank_trims_to_nothing(label);
}

/// The profile that is meant is the first one with the id.
pub proof fn lemma_profile_place(profiles: Seq<AccountProfile>, id: Seq<char>)
    ensures
        0 <= profile_at(profiles, id) <= profiles.len(),
        profile_at(profiles, id) < profiles.len() ==> profiles[profile_at(profiles, id)].id@ == id,
        forall|i: int| 0 <= i < profile_at(profiles, id) ==> (#[trigger] profiles[i]).id@ != id,
    decreases profiles.len(),
{
    if profiles.len() > 0 && profiles[0].id@ != id {
        let rest = profiles.drop_first();
        lemma_profile_place(rest, id);
        assert forall|i: int| 0 <= i < profile_at(profiles, id) implies (
        #[trigger] profiles[i]).id@ != id by {
            if i > 0 {
                assert(rest[i - 1] == profiles[i]);
            }
        }
    }
}

/// Backups and profiles are listed newest first, and all of them.
pub proof fn lemma_newest_are_listed_first(
    backups: Seq<(String, i64)>,
    profiles: Seq<AccountProfile>,
)
    ensures
        sorted::<(String, i64), NewestBackup>(backups).to_multiset() == backups.to_multiset(),
        forall|i: int, j: int|
            0 <= i < j < backups.len() ==> (#[trigger] sorted::<(String, i64), NewestBackup>(
                backups,
            )[i]).1 >= (#[trigger] sorted::<(String, i64), NewestBackup>(backups)[j]).1,
        sorted::<AccountProfile, LastUsed>(profiles).to_multiset() == profiles.to_multiset(),
        forall|i: int, j: int|
            0 <= i < j < profiles.len() ==> (#[trigger] sorted::<AccountProfile, LastUsed>(
                profiles,
            )[i]).updated_at >= (#[trigger] sorted::<AccountProfile, LastUsed>(
                profiles,
            )[j]).updated_at,
{
    lemma_sorted_order::<(String, i64), NewestBackup>(backups);
    lemma_sorted_order::<AccountProfile, LastUsed>(profiles);
    let b = sorted::<(String, i64), NewestBackup>(backups);
    let q = sorted::<AccountProfile, LastUsed>(profiles);
    assert forall|i: int, j: int| 0 <= i < j < backups.len() implies (#[trigger] b[i]).1 >= (
    #[trigger] b[j]).1 by {
        assert(NewestBackup::key(&b[i]) >= NewestBackup::key(&b[j]));
    }
    assert forall|i: int, j: int| 0 <= i < j < profiles.len() implies (#[trigger] q[i]).updated_at
        >= (#[trigger] q[j]).updated_at by {
        assert(LastUsed::key(&q[i]) >= LastUsed::key(&q[j]));
    }
}

/// The text of a moment names its day, and behind a hyphen its hour, minute and second.
pub proof fn lemma_timestamp(secs: i64, text: Seq<char>)
    requires
        is_timestamp(secs, text),
    ensures
        ({
            let rem = secs as int % 86_400;
            let n = text.len() as int;
            &&& n >= 7
            &&& text[n - 7] == '-'
            &&& text.subrange(n - 6, n - 4) == padded((rem / 3600) as nat, 2)
            &&& text.subrange(n - 4, n - 2) == padded((rem / 60 % 60) as nat, 2)
            &&& text.skip(n - 2) == padded((rem % 60) as nat, 2)
        }),
        exists|y: int, m: int, d: int|
            {
                &&& #[trigger] is_date(y, m, d)
                &&& day_number(y, m, d) * 86_400 <= secs < (day_number(y, m, d) + 1) * 86_400
                &&& text.take(text.len() - 7) == padded_signed(low_i32(y), 4) + padded(m as nat, 2)
                    + padded(d as nat, 2)
            },
{
    let rem = secs as int % (SECS_PER_DAY as int);
    let (y, m, d) = choose|y: int, m: int, d: int| #[trigger]
        is_date(y, m, d) && day_number(y, m, d) == secs as int / (SECS_PER_DAY as int) && text
            == padded_signed(low_i32(y), 4) + padded(m as nat, 2) + padded(d as nat, 2) + "-"@
            + padded((rem / 3600) as nat, 2) + padded(((rem % 3600) / 60) as nat, 2) + padded(
            (rem % 60) as nat,
            2,
        );
    reveal_strlit("-");
    let h = (rem / 3600) as nat;
    let mi = ((rem % 3600) / 60) as nat;
    let s = (rem % 60) as nat;
    assert((rem % 3600) / 60 == rem / 60 % 60);
    lemma_two_digits(h);
    lemma_two_digits(mi);
    lemma_two_digits(s);
    lemma_padding_keeps_the_value(h, 2);
    lemma_padding_keeps_the_value(mi, 2);
    lemma_padding_keeps_the_value(s, 2);
    let day = padded_signed(low_i32(y), 4) + padded(m as nat, 2) + padded(d as nat, 2);
    let n = text.len() as int;
    assert(text.take(n - 7) =~= day);
    assert(text.subrange(n - 6, n - 4) =~= padded(h, 2));
    assert(text.subrange(n - 4, n - 2) =~= padded(mi, 2));
    assert(text.skip(n - 2) =~= padded(s, 2));
    assert(is_date(y, m, d));
}

} // verus!
