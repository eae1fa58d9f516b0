//! Signing in: by a code that is shown, by a code that is sent, by password.

use vstd::prelude::*;

use super::models::{User, UserData};
use crate::encoding::{base64_text, base64_url, lemma_base64_text, lemma_link_characters};
use crate::text::{
    all_ascii, before_char, chars_of, contains_text, copy_or_empty, find_char, has_text, joined,
    joined3, lemma_split_at_char, opt_str, opt_text, or_empty, text_of,
};

verus! {

// ------------------------------------------------------------ connecting

/// The language of a locale: what stands before the first hyphen, English without a
/// locale.
pub open spec fn language_of(locale: Option<Seq<char>>) -> Seq<char> {
    match locale {
        Some(l) => before_char(l, '-'),
        None => "en"@,
    }
}

/// What a connection says of the machine it comes from.
#[derive(Debug)]
pub struct DeviceInfo {
    pub device_model: String,
    pub system_version: String,
    pub app_version: String,
    pub system_lang_code: String,
    pub lang_code: String,
}

/// Describes the machine from the kind and version of its system, the version of the
/// program and the locale.
pub fn connection_params(os_type: &str, os_version: &str, program_version: &str, locale: Option<&str>) -> (r:
    DeviceInfo)
    ensures
        r.device_model@ == "Desktop"@,
        r.system_version@ == os_type@ + " "@ + os_version@,
        r.app_version@ == program_version@ + " x64"@,
        r.system_lang_code@ == language_of(opt_str(locale)),
        r.lang_code@ == "en"@,
{
    let language = match locale {
        Some(l) => {
            let cs = chars_of(l);
            let end = find_char(&cs, 0, '-');
            let head = text_of(&cs, 0, end);
            proof {
                assert(cs@.skip(0) =~= l@);
                assert(head@ =~= before_char(l@, '-'));
            }
            head
        },
        None => "en".to_owned(),
    };
    DeviceInfo {
        device_model: "Desktop".to_owned(),
        system_version: joined3(os_type, " ", os_version),
        app_version: joined(program_version, " x64"),
        system_lang_code: language,
        lang_code: "en".to_owned(),
    }
}

// ------------------------------------------------------------ a code that is shown

/// A code to be scanned, and when it expires.
pub struct QrLoginResult {
    pub qr_svg: String,
    pub expires: i32,
}

/// The smallest side of the picture.
pub const QR_MIN_SIDE: u32 = 200;

/// How many characters a code holds for certain.
pub const QR_MAX_CHARS: usize = 192;

/// How many characters no code holds.
pub const QR_EXCESS_CHARS: usize = 5602;

/// The picture that a text makes, or why there is none: of at least this width and
/// height, with or without a margin.
pub uninterp spec fn qr_picture(text: Seq<char>, width: u32, height: u32, margin: bool) -> Result<
    Seq<char>,
    Seq<char>,
>;

pub open spec fn result_text(r: Result<String, String>) -> Result<Seq<char>, Seq<char>> {
    match r {
        Ok(s) => Ok(s@),
        Err(e) => Err(e@),
    }
}

/// `qrcode::QrCode::new`, then `render` as SVG with `min_dimensions`, `quiet_zone` and
/// `build`: the picture, or the text of the error, depends on the arguments alone. A text
/// of up to `QR_MAX_CHARS` has a picture, and one of `QR_EXCESS_CHARS` is refused. Nothing
/// is said of what the picture looks like.
///
/// The crate adds up the scores of a mask in 16 bits, which a large code may exceed. An
/// ASCII text of `n` characters takes at most `12 * n + 16` bits: a header takes 20 bits at
/// most, so that one segment takes at most 16 bits more than 12 for each of its characters,
/// and one that is joined to none of its neighbours only takes more where the segment in
/// front of it takes at least 18 bits less. `QR_MAX_CHARS` thus fit in the 2,320 bits of a
/// code of 65 modules, whose scores stay below 61,500: 4,095 for the runs of each
/// direction, 12,288 for the blocks, 20,440 for the finder patterns of each direction,
/// of which a line holds at most eight, and 100 for the balance. `QR_EXCESS_CHARS` take
/// more than the 18,672 bits of the largest code, and are refused before any score.
#[verifier::external_body]
fn draw_qr(text: &str, width: u32, height: u32, margin: bool) -> (r: Result<String, String>)
    requires
        width <= 65536,
        height <= 65536,
        all_ascii(text@),
        text@.len() <= QR_MAX_CHARS || QR_EXCESS_CHARS <= text@.len() <= usize::MAX / 32,
    ensures
        result_text(r) == qr_picture(text@, width, height, margin),
        text@.len() <= QR_MAX_CHARS ==> r is Ok,
        text@.len() >= QR_EXCESS_CHARS ==> r is Err,
{
    let code = qrcode::QrCode::new(text.as_bytes()).map_err(|e| e.to_string())?;
    let mut renderer = code.render::<qrcode::render::svg::Color>();
    Ok(renderer.min_dimensions(width, height).quiet_zone(margin).build())
}

/// What a code to be scanned says.
pub open spec fn login_url(token: Seq<u8>) -> Seq<char> {
    "tg://login?token="@ + base64_text(token, true, false)
}

/// What a code to be scanned says, for a token of the service.
pub fn login_link(token: &Vec<u8>) -> (r: String)
    requires
        token@.len() / 3 * 4 + 4 <= usize::MAX,
    ensures
        r@ == login_url(token@),
{
    let encoded = base64_url(token);
    joined("tg://login?token=", encoded.as_str())
}

/// The code to be scanned, given the picture that was drawn.
pub fn qr_from_picture(picture: Result<String, String>, expires: i32) -> (r: Result<
    QrLoginResult,
    String,
>)
    ensures
        match picture {
            Ok(svg) => r == Ok::<_, String>(QrLoginResult { qr_svg: svg, expires }),
            Err(e) => r matches Err(text) && text@ == "Failed to generate QR code: "@ + e@,
        },
{
    match picture {
        Ok(qr_svg) => Ok(QrLoginResult { qr_svg, expires }),
        Err(e) => Err(joined("Failed to generate QR code: ", e.as_str())),
    }
}

/// How many bytes of a token a code holds for certain.
pub const QR_MAX_TOKEN: usize = 131;

/// How many bytes of a token no code holds.
pub const QR_EXCESS_TOKEN: usize = 4189;

/// The code to be scanned for a token. One that no code holds is refused.
pub fn token_to_qr(token: &Vec<u8>, expires: i32) -> (r: Result<QrLoginResult, String>)
    requires
        token@.len() <= QR_MAX_TOKEN || QR_EXCESS_TOKEN <= token@.len() <= usize::MAX / 64,
    ensures
        r is Ok <==> token@.len() <= QR_MAX_TOKEN,
        match qr_picture(login_url(token@), 200, 200, false) {
            Ok(svg) => r matches Ok(q) && q.qr_svg@ == svg && q.expires == expires,
            Err(e) => r matches Err(text) && text@ == "Failed to generate QR code: "@ + e,
        },
{
    let link = login_link(token);
    proof {
        lemma_base64_text(token@, true, false);
        reveal_strlit("tg://login?token=");
    }
    let picture = draw_qr(link.as_str(), QR_MIN_SIDE, QR_MIN_SIDE, false);
    qr_from_picture(picture, expires)
}

// ------------------------------------------------------------ updates

/// News from the service.
#[derive(Debug, Clone, Copy)]
pub enum Update {
    LoginToken,
    Other,
}

/// News as they come.
pub enum UpdatesLike {
    Short(Update),
    Updates(Vec<Update>),
    Combined(Vec<Update>),
    Other,
}

/// Some news says that the code was scanned.
pub open spec fn any_login(updates: Seq<Update>) -> bool {
    exists|i: int| 0 <= i < updates.len() && #[trigger] updates[i] is LoginToken
}

pub open spec fn says_login(u: UpdatesLike) -> bool {
    match u {
        UpdatesLike::Short(x) => x is LoginToken,
        UpdatesLike::Updates(v) => any_login(v@),
        UpdatesLike::Combined(v) => any_login(v@),
        UpdatesLike::Other => false,
    }
}

fn holds_login(updates: &Vec<Update>) -> (r: bool)
    ensures
        r == any_login(updates@),
{
    let mut i: usize = 0;
    while i < updates.len()
        invariant
            i <= updates@.len(),
            forall|j: int| 0 <= j < i ==> !(#[trigger] updates@[j] is LoginToken),
        decreases updates@.len() - i,
    {
        if let Update::LoginToken = &updates[i] {
            assert(updates@[i as int] is LoginToken);
            return true;
        }
        i = i + 1;
    }
    false
}

/// Whether news say that the code was scanned.
pub fn has_login_token_update(updates_like: &UpdatesLike) -> (r: bool)
    ensures
        r == says_login(*updates_like),
{
    match updates_like {
        UpdatesLike::Short(x) => match x {
            Update::LoginToken => true,
            Update::Other => false,
        },
        UpdatesLike::Updates(v) => holds_login(v),
        UpdatesLike::Combined(v) => holds_login(v),
        UpdatesLike::Other => false,
    }
}

/// Whether any of the news that are waiting say that the code was scanned.
pub fn drain_for_login_token(waiting: &Vec<UpdatesLike>) -> (r: bool)
    ensures
        r == exists|i: int| 0 <= i < waiting@.len() && says_login(#[trigger] waiting@[i]),
{
    let mut found = false;
    let mut i: usize = 0;
    while i < waiting.len()
        invariant
            i <= waiting@.len(),
            found == exists|j: int| 0 <= j < i && says_login(#[trigger] waiting@[j]),
        decreases waiting@.len() - i,
    {
        if has_login_token_update(&waiting[i]) {
            assert(says_login(waiting@[i as int]));
            found = true;
        }
        i = i + 1;
    }
    found
}

// ------------------------------------------------------------ the state of a sign-in

/// What a sign-in has come to.
pub struct LoginState {
    pub has_client: bool,
    pub phone: String,
    pub has_login_token: bool,
    pub has_password_token: bool,
    /// News of a shown code are listened for.
    pub listening: bool,
}

impl LoginState {
    pub fn new() -> (r: LoginState)
        ensures
            !r.has_client && !r.has_login_token && !r.has_password_token && !r.listening,
            r.phone@.len() == 0,
    {
        LoginState {
            has_client: false,
            phone: String::new(),
            has_login_token: false,
            has_password_token: false,
            listening: false,
        }
    }
}

/// The user that an authorization names, if it names one.
pub open spec fn user_phone(user: Option<User>) -> Seq<char> {
    match user {
        Some(User::User(u)) => or_empty(opt_text(u.phone)),
        _ => Seq::empty(),
    }
}

/// The phone number of the user that an authorization names; empty where it names
/// none.
pub fn extract_phone_from_auth(user: &Option<User>) -> (r: String)
    ensures
        r@ == user_phone(*user),
{
    match user {
        Some(User::User(u)) => copy_or_empty(&u.phone),
        _ => String::new(),
    }
}

/// Whether a check of the session succeeds, given whether the client at hand and a new
/// one are authorized. The new one is asked only where it matters; with it comes its
/// phone number.
pub fn check_session(state: &mut LoginState, current_authorized: bool, fresh: Option<&str>) -> (r: Result<
    String,
    String,
>)
    ensures
        if old(state).has_client && current_authorized {
            &&& r matches Ok(phone) && phone@ == old(state).phone@
            &&& *final(state) == *old(state)
        } else {
            match fresh {
                Some(p) => {
                    &&& r matches Ok(phone) && phone@ == p@
                    &&& final(state).has_client
                    &&& final(state).phone@ == p@
                    &&& *final(state) == (LoginState {
                        has_client: true,
                        phone: final(state).phone,
                        ..*old(state)
                    })
                },
                None => {
                    &&& r matches Err(e) && e@ == "not_authenticated"@
                    &&& *final(state) == *old(state)
                },
            }
        },
{
    if state.has_client && current_authorized {
        return Ok(state.phone.clone());
    }
    match fresh {
        Some(p) => {
            state.has_client = true;
            state.phone = p.to_owned();
            Ok(p.to_owned())
        },
        None => Err("not_authenticated".to_owned()),
    }
}

/// Begins to show a code, unless someone is signed in, whose phone number is kept if it
/// is known. The client at hand is given up for a new one.
pub fn qr_login_start(state: &mut LoginState, current_authorized: bool, phone: &str) -> (r: Result<
    (),
    String,
>)
    ensures
        if old(state).has_client && current_authorized {
            &&& r matches Err(e) && e@ == "already_authenticated"@
            &&& final(state).phone@ == (if phone@.len() > 0 {
                phone@
            } else {
                old(state).phone@
            })
            &&& *final(state) == (LoginState { phone: final(state).phone, ..*old(state) })
        } else {
            &&& r is Ok
            &&& *final(state) == (LoginState { has_client: true, listening: true, ..*old(state) })
        },
{
    if state.has_client && current_authorized {
        if phone.unicode_len() > 0 {
            state.phone = phone.to_owned();
        }
        return Err("already_authenticated".to_owned());
    }
    state.has_client = true;
    state.listening = true;
    Ok(())
}

/// What the service answers when a token is asked for or handed over.
pub enum TokenReply {
    Token { token: Vec<u8>, expires: i32 },
    /// The code was scanned by the owner of this number.
    Success { phone: String },
    /// The account is in another data center.
    MigrateTo { dc_id: i32 },
    Failed(String),
}

/// What a token handed over in another data center leads to.
pub enum MigrateResult {
    NewToken { token: Vec<u8>, expires: i32 },
    Success { phone: String },
    /// Ask for what is needed to check a password.
    AskPassword,
    Fail(String),
}

/// Decides on the reply of the data center that an account was moved to.
pub fn handle_migrate(state: &mut LoginState, reply: TokenReply) -> (r: MigrateResult)
    ensures
        match reply {
            TokenReply::Token { token, expires } => {
                &&& r == (MigrateResult::NewToken { token, expires })
                &&& *final(state) == *old(state)
            },
            TokenReply::Success { phone } => {
                &&& r matches MigrateResult::Success { phone: p } && p@ == phone@
                &&& final(state).phone@ == phone@
                &&& *final(state) == (LoginState { phone: final(state).phone, ..*old(state) })
            },
            TokenReply::MigrateTo { .. } => {
                &&& r matches MigrateResult::Fail(e) && e@ == "Multiple DC migrations"@
                &&& *final(state) == *old(state)
            },
            TokenReply::Failed(err) => {
                &&& if has_text(err@, "SESSION_PASSWORD_NEEDED"@) {
                    r is AskPassword
                } else {
                    r matches MigrateResult::Fail(e) && e@ == "Import after DC migration failed: "@
                        + err@
                }
                &&& *final(state) == *old(state)
            },
        },
{
    match reply {
        TokenReply::Token { token, expires } => MigrateResult::NewToken { token, expires },
        TokenReply::Success { phone } => {
            state.phone = phone.clone();
            MigrateResult::Success { phone }
        },
        TokenReply::MigrateTo { .. } => MigrateResult::Fail("Multiple DC migrations".to_owned()),
        TokenReply::Failed(err) => if contains_text(err.as_str(), "SESSION_PASSWORD_NEEDED") {
            MigrateResult::AskPassword
        } else {
            MigrateResult::Fail(joined("Import after DC migration failed: ", err.as_str()))
        },
    }
}

/// Records what is needed to check a password; news are not listened for any more.
pub fn password_asked(state: &mut LoginState)
    ensures
        *final(state) == (LoginState { has_password_token: true, listening: false, ..*old(state) }),
{
    state.has_password_token = true;
    state.listening = false;
}

/// What is shown after a token was handed over while a code is begun to be shown: only
/// a new token is.
pub fn start_after_migrate(result: &MigrateResult) -> (r: Result<(), String>)
    ensures
        match result {
            MigrateResult::NewToken { .. } => r is Ok,
            MigrateResult::Fail(e) => r matches Err(text) && text@ == e@,
            _ => r matches Err(text) && text@ == "already_authenticated"@,
        },
{
    match result {
        MigrateResult::NewToken { .. } => Ok(()),
        MigrateResult::Fail(e) => Err(e.clone()),
        _ => Err("already_authenticated".to_owned()),
    }
}

/// What came of a code that is shown.
pub enum QrPollStatus {
    Waiting,
    Success { phone: String },
    PasswordRequired { hint: String },
}

/// What to do next about a code that is shown.
pub enum PollStep {
    Status(QrPollStatus),
    /// Ask for the token once more.
    Export,
    /// Hand the token over in this data center.
    Migrate { dc_id: i32 },
    /// Ask for what is needed to check a password.
    AskPassword,
    Fail(String),
}

/// Looks whether the code that is shown was scanned.
pub fn qr_login_poll(state: &LoginState, waiting: &Vec<UpdatesLike>) -> (r: PollStep)
    ensures
        if !state.has_client {
            r matches PollStep::Fail(e) && e@ == "No active client"@
        } else if state.listening && (exists|i: int|
            0 <= i < waiting@.len() && says_login(#[trigger] waiting@[i])) {
            r is Export
        } else {
            r == PollStep::Status(QrPollStatus::Waiting)
        },
{
    if !state.has_client {
        return PollStep::Fail("No active client".to_owned());
    }
    let scanned = if state.listening {
        drain_for_login_token(waiting)
    } else {
        false
    };
    if scanned {
        PollStep::Export
    } else {
        PollStep::Status(QrPollStatus::Waiting)
    }
}

/// Decides on the token that was asked for after the code was scanned.
pub fn after_poll_export(state: &mut LoginState, reply: TokenReply) -> (r: PollStep)
    ensures
        match reply {
            TokenReply::Success { phone } => {
                &&& r matches PollStep::Status(QrPollStatus::Success { phone: p }) && p@ == phone@
                &&& final(state).phone@ == phone@
                &&& *final(state) == (LoginState {
                    phone: final(state).phone,
                    listening: false,
                    ..*old(state)
                })
            },
            TokenReply::Token { .. } => {
                &&& r == PollStep::Status(QrPollStatus::Waiting)
                &&& *final(state) == *old(state)
            },
            TokenReply::MigrateTo { dc_id } => {
                &&& r == (PollStep::Migrate { dc_id })
                &&& *final(state) == *old(state)
            },
            TokenReply::Failed(err) => {
                &&& if has_text(err@, "SESSION_PASSWORD_NEEDED"@) {
                    r is AskPassword
                } else {
                    r matches PollStep::Fail(e) && e@ == "Poll error: "@ + err@
                }
                &&& *final(state) == *old(state)
            },
        },
{
    match reply {
        TokenReply::Success { phone } => {
            state.phone = phone.clone();
            state.listening = false;
            PollStep::Status(QrPollStatus::Success { phone })
        },
        TokenReply::Token { .. } => PollStep::Status(QrPollStatus::Waiting),
        TokenReply::MigrateTo { dc_id } => PollStep::Migrate { dc_id },
        TokenReply::Failed(err) => if contains_text(err.as_str(), "SESSION_PASSWORD_NEEDED") {
            PollStep::AskPassword
        } else {
            PollStep::Fail(joined("Poll error: ", err.as_str()))
        },
    }
}

/// What a token handed over in another data center says of a code that is shown.
pub fn poll_after_migrate(result: MigrateResult) -> (r: PollStep)
    ensures
        match result {
            MigrateResult::NewToken { .. } => r == PollStep::Status(QrPollStatus::Waiting),
            MigrateResult::Success { phone } => r == PollStep::Status(
                QrPollStatus::Success { phone },
            ),
            MigrateResult::AskPassword => r is AskPassword,
            MigrateResult::Fail(e) => r == PollStep::Fail(e),
        },
{
    match result {
        MigrateResult::NewToken { .. } => PollStep::Status(QrPollStatus::Waiting),
        MigrateResult::Success { phone } => PollStep::Status(QrPollStatus::Success { phone }),
        MigrateResult::AskPassword => PollStep::AskPassword,
        MigrateResult::Fail(e) => PollStep::Fail(e),
    }
}

/// Records that a code is sent to a number.
pub fn send_code(state: &mut LoginState, phone: &str)
    ensures
        final(state).phone@ == phone@,
        *final(state) == (LoginState {
            has_client: true,
            phone: final(state).phone,
            ..*old(state)
        }),
{
    state.has_client = true;
    state.phone = phone.to_owned();
}

/// Records that a code was sent.
pub fn code_sent(state: &mut LoginState)
    ensures
        *final(state) == (LoginState { has_login_token: true, ..*old(state) }),
{
    state.has_login_token = true;
}

/// Why a code was not accepted.
pub enum VerifyError {
    InvalidCode,
    PasswordRequired { hint: String },
    NoSession,
    Other(String),
}

/// Takes the token that a code is checked with. It can be used once.
pub fn verify_code(state: &mut LoginState) -> (r: Result<(), VerifyError>)
    ensures
        if !old(state).has_client {
            r matches Err(VerifyError::NoSession) && *final(state) == *old(state)
        } else if !old(state).has_login_token {
            &&& r matches Err(VerifyError::Other(e)) && e@ == "No login token available"@
            &&& *final(state) == *old(state)
        } else {
            &&& r is Ok
            &&& *final(state) == (LoginState { has_login_token: false, ..*old(state) })
        },
{
    if !state.has_client {
        return Err(VerifyError::NoSession);
    }
    if !state.has_login_token {
        return Err(VerifyError::Other("No login token available".to_owned()));
    }
    state.has_login_token = false;
    Ok(())
}

/// What came of checking a code.
pub enum SignInOutcome {
    Accepted { phone: Option<String> },
    PasswordRequired { hint: Option<String> },
    InvalidCode,
    Failed(String),
}

/// Decides on a code that was checked. A wrong code leaves the token for another try.
pub fn code_checked(state: &mut LoginState, outcome: SignInOutcome) -> (r: Result<String, VerifyError>)
    ensures
        match outcome {
            SignInOutcome::Accepted { phone } => {
                &&& r matches Ok(p) && p@ == or_empty(opt_text(phone))
                &&& final(state).phone@ == or_empty(opt_text(phone))
                &&& *final(state) == (LoginState {
                    phone: final(state).phone,
                    has_password_token: false,
                    ..*old(state)
                })
            },
            SignInOutcome::PasswordRequired { hint } => {
                &&& r matches Err(VerifyError::PasswordRequired { hint: h }) && h@ == or_empty(
                    opt_text(hint),
                )
                &&& *final(state) == (LoginState { has_password_token: true, ..*old(state) })
            },
            SignInOutcome::InvalidCode => {
                &&& r matches Err(VerifyError::InvalidCode)
                &&& *final(state) == (LoginState { has_login_token: true, ..*old(state) })
            },
            SignInOutcome::Failed(e) => {
                &&& r matches Err(VerifyError::Other(text)) && text@ == e@
                &&& *final(state) == *old(state)
            },
        },
{
    match outcome {
        SignInOutcome::Accepted { phone } => {
            let number = copy_or_empty(&phone);
            state.phone = number.clone();
            state.has_password_token = false;
            Ok(number)
        },
        SignInOutcome::PasswordRequired { hint } => {
            state.has_password_token = true;
            Err(VerifyError::PasswordRequired { hint: copy_or_empty(&hint) })
        },
        SignInOutcome::InvalidCode => {
            state.has_login_token = true;
            Err(VerifyError::InvalidCode)
        },
        SignInOutcome::Failed(e) => Err(VerifyError::Other(e)),
    }
}

/// Takes what a password is checked with. It can be used once.
pub fn verify_password(state: &mut LoginState) -> (r: Result<(), String>)
    ensures
        if !old(state).has_client {
            r matches Err(e) && e@ == "No active session"@ && *final(state) == *old(state)
        } else if !old(state).has_password_token {
            r matches Err(e) && e@ == "No password token available"@ && *final(state) == *old(state)
        } else {
            r is Ok && *final(state) == (LoginState { has_password_token: false, ..*old(state) })
        },
{
    if !state.has_client {
        return Err("No active session".to_owned());
    }
    if !state.has_password_token {
        return Err("No password token available".to_owned());
    }
    state.has_password_token = false;
    Ok(())
}

/// What came of checking a password.
pub enum PasswordOutcome {
    Accepted { phone: Option<String> },
    InvalidPassword,
    Failed(String),
}

/// Decides on a password that was checked. A wrong password can be tried again.
pub fn password_checked(state: &mut LoginState, outcome: PasswordOutcome) -> (r: Result<
    String,
    String,
>)
    ensures
        match outcome {
            PasswordOutcome::Accepted { phone } => {
                &&& r matches Ok(p) && p@ == or_empty(opt_text(phone))
                &&& final(state).phone@ == or_empty(opt_text(phone))
                &&& *final(state) == (LoginState { phone: final(state).phone, ..*old(state) })
            },
            PasswordOutcome::InvalidPassword => {
                &&& r matches Err(e) && e@ == "invalid_password"@
                &&& *final(state) == (LoginState { has_password_token: true, ..*old(state) })
            },
            PasswordOutcome::Failed(e) => {
                &&& r matches Err(text) && text@ == e@
                &&& *final(state) == *old(state)
            },
        },
{
    match outcome {
        PasswordOutcome::Accepted { phone } => {
            let number = copy_or_empty(&phone);
            state.phone = number.clone();
            Ok(number)
        },
        PasswordOutcome::InvalidPassword => {
            state.has_password_token = true;
            Err("invalid_password".to_owned())
        },
        PasswordOutcome::Failed(e) => Err(e),
    }
}

/// Forgets the sign-in.
pub fn logout(state: &mut LoginState)
    ensures
        !final(state).has_client,
        !final(state).has_login_token,
        !final(state).has_password_token,
        !final(state).listening,
        final(state).phone@.len() == 0,
{
    state.has_client = false;
    state.phone = String::new();
    state.has_login_token = false;
    state.has_password_token = false;
    state.listening = false;
}

/// News of a login count wherever they stand among the updates.
pub proof fn lemma_login_news(updates: Vec<Update>, k: int)
    requires
        0 <= k < updates@.len(),
        updates@[k] is LoginToken,
    ensures
        says_login(UpdatesLike::Updates(updates)),
        says_login(UpdatesLike::Combined(updates)),
{
}

/// Other news are none of a login.
pub proof fn lemma_other_news(updates: Vec<Update>, u: Update)
    requires
        forall|i: int| 0 <= i < updates@.len() ==> !(#[trigger] updates@[i] is LoginToken),
    ensures
        !says_login(UpdatesLike::Updates(updates)),
        !says_login(UpdatesLike::Combined(updates)),
        says_login(UpdatesLike::Short(u)) <==> u is LoginToken,
        !says_login(UpdatesLike::Other),
{
}

/// The language of a locale is what stands before its first hyphen.
pub proof fn lemma_language(language: Seq<char>, region: Seq<char>)
    requires
        forall|i: int| 0 <= i < language.len() ==> #[trigger] language[i] != '-',
    ensures
        language_of(Some(language)) == language,
        language_of(Some(language.push('-') + region)) == language,
        language_of(None) == "en"@,
{
    lemma_split_at_char(language, '-', region);
}

/// The phone number of a user is the one that the service gives.
pub proof fn lemma_user_phone(u: UserData)
    ensures
        u.phone matches Some(p) ==> user_phone(Some(User::User(u))) == p@,
        u.phone is None ==> user_phone(Some(User::User(u))).len() == 0,
{
}

/// The link of a token holds nothing that a link may not hold, and four characters for every
/// three bytes of the token.
pub proof fn lemma_login_link(token: Seq<u8>, i: int)
    requires
        17 <= i < login_url(token).len(),
    ensures
        login_url(token).take(17) == "tg://login?token="@,
        ({
            let c = login_url(token)[i];
            'A' <= c <= 'Z' || 'a' <= c <= 'z' || '0' <= c <= '9' || c == '-' || c == '_'
        }),
        login_url(token).len() == 17 + (4 * token.len() + 2) / 3,
{
    reveal_strlit("tg://login?token=");
    lemma_base64_text(token, true, false);
    lemma_link_characters(token, i - 17);
    assert(login_url(token).take(17) =~= "tg://login?token="@);
    assert(login_url(token)[i] == base64_text(token, true, false)[i - 17]);
}

} // verus!
