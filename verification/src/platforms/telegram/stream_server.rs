//! Serving media to a local player: who may ask, which bytes are sent, and with which
//! headers.

use vstd::prelude::*;

use super::download::{download_media, DownloadTarget};
use super::models::{Document, MessageMedia};
use super::parallel_download::{
    lemma_stream_sends_the_range, location_matches, media_to_location, mime_type_from_media,
    range_len, sent_from, served_mime, stream_start, MediaLocation, MAX_CHUNK_SIZE,
};
use super::requests::is_channel_like;
use super::session::Session;
use crate::text::{
    after_char, all_digits, before_char, begins_with, chars_of, decimal, decimal_text, digits_value,
    find_char, hex, hex_text, is_digit, is_white_space, joined, joined3,
    lemma_decimal_reads_back, lemma_numbers_before_a_hyphen, lemma_numbers_in_front,
    lemma_split_at_char, opt_str, parse_number, parsed_number, same_text, signed_decimal,
    signed_text, starts_with_text, text_of, trim_text, trimmed,
};

verus! {

/// Where the server listens, and the word that every request has to bring.
#[derive(Debug)]
pub struct StreamServerInfo {
    pub port: u16,
    pub token: String,
}

/// Where the server is reached.
pub fn base_url(info: &StreamServerInfo) -> (r: String)
    ensures
        r@ == "http://127.0.0.1:"@ + decimal(info.port as nat),
{
    joined("http://127.0.0.1:", decimal_text(info.port as u64).as_str())
}

// ------------------------------------------------------------ the token

/// How many random bytes make the token.
pub const TOKEN_BYTES: usize = 24;

/// `rand::random::<u8>`: any byte.
#[verifier::external_body]
fn random_byte() -> (r: u8) {
    rand::random::<u8>()
}

/// The token that bytes make.
pub fn token_text(bytes: &Vec<u8>) -> (r: String)
    ensures
        r@ == hex(bytes@),
{
    hex_text(bytes)
}

/// A new token: `TOKEN_BYTES` random bytes, two digits for each. Which bytes they are
/// is left to chance.
pub fn generate_token() -> (r: String)
    ensures
        exists|bytes: Seq<u8>| bytes.len() == TOKEN_BYTES && r@ == #[trigger] hex(bytes),
        r@.len() == 2 * TOKEN_BYTES,
        r@.len() == 48,
{
    let mut bytes: Vec<u8> = Vec::new();
    while bytes.len() < TOKEN_BYTES
        invariant
            bytes@.len() <= TOKEN_BYTES,
        decreases TOKEN_BYTES - bytes@.len(),
    {
        bytes.push(random_byte());
    }
    token_text(&bytes)
}

// ------------------------------------------------------------ ranges

/// A number without sign, or with a plus sign before it.
pub open spec fn parsed_u64(s: Seq<char>) -> Option<nat> {
    if s.len() > 0 && s[0] == '+' {
        parsed_number(s.skip(1), u64::MAX as nat)
    } else {
        parsed_number(s, u64::MAX as nat)
    }
}

/// The number that a text is, or `default`.
fn number_or(s: &str, default: u64) -> (r: u64)
    ensures
        r == (match parsed_u64(s@) {
            Some(n) => n,
            None => default as nat,
        }),
{
    let cs = chars_of(s);
    let from: usize = if cs.len() > 0 && cs[0] == '+' {
        1
    } else {
        0
    };
    proof {
        assert(cs@.subrange(0, cs@.len() as int) =~= s@);
        assert(s@.len() > 0 ==> cs@.subrange(1, cs@.len() as int) =~= s@.skip(1));
    }
    match parse_number(&cs, from, cs.len(), u64::MAX) {
        Some(n) => n,
        None => default,
    }
}

pub open spec fn or_default(n: Option<nat>, default: int) -> int {
    match n {
        Some(v) => v as int,
        None => default,
    }
}

pub open spec fn smaller(a: int, b: int) -> int {
    if a < b {
        a
    } else {
        b
    }
}

/// The first and the last byte that a range asks for, of a file of `total` bytes: a
/// number of bytes from the end, all bytes from one on, or all between two. What is
/// not a number counts as the first or the last byte.
pub open spec fn range_bounds(start: Seq<char>, end: Seq<char>, total: u64) -> (int, int) {
    let last = if total == 0 {
        0
    } else {
        total - 1
    };
    if start.len() == 0 && end.len() == 0 {
        (0, last)
    } else if start.len() == 0 {
        let suffix = or_default(parsed_u64(end), 0);
        (
            if suffix > total {
                0
            } else {
                total - suffix
            },
            last,
        )
    } else if end.len() == 0 {
        (smaller(or_default(parsed_u64(start), 0), last), last)
    } else {
        (
            smaller(or_default(parsed_u64(start), 0), last),
            smaller(or_default(parsed_u64(end), last), last),
        )
    }
}

/// The text behind the first hyphen; empty without one.
pub open spec fn behind_hyphen(s: Seq<char>) -> Seq<char> {
    match after_char(s, '-') {
        Some(rest) => rest,
        None => Seq::empty(),
    }
}

/// The first and the last byte to send, and whether a range was asked for. Of several
/// ranges the first one counts.
pub open spec fn range_of(header: Option<Seq<char>>, total: u64) -> (int, int, bool) {
    let last = if total == 0 {
        0
    } else {
        total - 1
    };
    match header {
        None => (0, last, false),
        Some(value) => if !begins_with(value, "bytes="@) {
            (0, last, false)
        } else {
            let first = trimmed(before_char(value.skip("bytes="@.len() as int), ','));
            let (s, e) = range_bounds(before_char(first, '-'), behind_hyphen(first), total);
            (s, e, true)
        },
    }
}

fn bounds(start: &str, end: &str, total: u64) -> (r: (u64, u64))
    ensures
        (r.0 as int, r.1 as int) == range_bounds(start@, end@, total),
{
    let last: u64 = if total == 0 {
        0
    } else {
        total - 1
    };
    let no_start = start.unicode_len() == 0;
    let no_end = end.unicode_len() == 0;
    if no_start && no_end {
        return (0, last);
    }
    if no_start {
        let suffix = number_or(end, 0);
        let s: u64 = if suffix > total {
            0
        } else {
            total - suffix
        };
        return (s, last);
    }
    let from = number_or(start, 0);
    let s: u64 = if from < last {
        from
    } else {
        last
    };
    if no_end {
        return (s, last);
    }
    let to = number_or(end, last);
    let e: u64 = if to < last {
        to
    } else {
        last
    };
    (s, e)
}

/// Reads which bytes a request asks for.
pub fn parse_range_header(header: Option<&str>, total_size: u64) -> (r: (u64, u64, bool))
    ensures
        (r.0 as int, r.1 as int, r.2) == range_of(opt_str(header), total_size),
{
    let last: u64 = if total_size == 0 {
        0
    } else {
        total_size - 1
    };
    let value = match header {
        Some(v) => v,
        None => return (0, last, false),
    };
    if !starts_with_text(value, "bytes=") {
        return (0, last, false);
    }
    let cs = chars_of(value);
    let skip = "bytes=".unicode_len();
    let comma = find_char(&cs, skip, ',');
    let listed = text_of(&cs, skip, comma);
    let first = trim_text(listed.as_str());
    let fs = chars_of(first.as_str());
    let hyphen = find_char(&fs, 0, '-');
    let start = text_of(&fs, 0, hyphen);
    let end = if hyphen < fs.len() {
        text_of(&fs, hyphen + 1, fs.len())
    } else {
        String::new()
    };
    proof {
        let rest = value@.skip(skip as int);
        assert(listed@ =~= before_char(rest, ','));
        assert(fs@.skip(0) =~= first@);
        assert(start@ =~= before_char(first@, '-'));
        assert(end@ =~= behind_hyphen(first@));
    }
    let (s, e) = bounds(start.as_str(), end.as_str(), total_size);
    (s, e, true)
}

/// A range ends within a file that has any bytes, and begins no later than behind its
/// last byte.
pub proof fn lemma_range_lies_within(header: Option<Seq<char>>, total: u64)
    requires
        total > 0,
    ensures
        ({
            let (start, end, _) = range_of(header, total);
            &&& 0 <= end < total
            &&& 0 <= start <= total
        }),
{
}

/// Without a range the whole file is sent.
pub proof fn lemma_no_range_is_everything(total: u64)
    requires
        total > 0,
    ensures
        range_of(None, total) == (0int, total - 1, false),
{
}

proof fn lemma_header_is_split(start: Seq<char>, end: Seq<char>, more: Seq<char>, total: u64)
    requires
        all_digits(start),
        all_digits(end),
        more.len() == 0 || more[0] == ',',
    ensures
        ({
            let (s, e) = range_bounds(start, end, total);
            range_of(Some("bytes="@ + (start.push('-') + end) + more), total) == (s, e, true)
        }),
{
    reveal_strlit("bytes=");
    let part = start.push('-') + end;
    let value = "bytes="@ + part + more;
    assert(value.subrange(0, 6) =~= "bytes="@);
    assert(begins_with(value, "bytes="@));
    let list = value.skip(6);
    assert(list =~= part + more);
    assert forall|i: int| 0 <= i < part.len() implies #[trigger] part[i] != ','
        && !is_white_space(part[i]) by {
        if i < start.len() {
            assert(is_digit(start[i]));
        } else if i > start.len() {
            assert(part[i] == end[i - start.len() - 1]);
        }
    }
    if more.len() == 0 {
        assert(list =~= part);
        lemma_split_at_char(part, ',', more);
    } else {
        lemma_split_at_char(part, ',', more.drop_first());
        assert(part.push(',') + more.drop_first() =~= list);
    }
    assert(before_char(list, ',') == part);
    assert(!is_white_space(part[0]) && !is_white_space(part[part.len() - 1]));
    assert(trimmed(part) == part);
    assert forall|i: int| 0 <= i < start.len() implies #[trigger] start[i] != '-' by {
        assert(is_digit(start[i]));
    }
    lemma_split_at_char(start, '-', end);
}

/// A player that asks for the bytes from one number to another gets exactly these, as far
/// as the file has them, whatever ranges it lists behind them. The numbers are written in
/// digits, with or without zeros in front.
pub proof fn lemma_range_is_the_one_asked_for(
    start: Seq<char>,
    end: Seq<char>,
    more: Seq<char>,
    total: u64,
)
    requires
        start.len() > 0,
        end.len() > 0,
        forall|i: int| 0 <= i < start.len() ==> '0' <= #[trigger] start[i] <= '9',
        forall|i: int| 0 <= i < end.len() ==> '0' <= #[trigger] end[i] <= '9',
        digits_value(start) <= u64::MAX,
        digits_value(end) <= u64::MAX,
        more.len() == 0 || more[0] == ',',
        total > 0,
    ensures
        ({
            let a = digits_value(start) as int;
            let b = digits_value(end) as int;
            let last = total - 1;
            &&& range_of(Some("bytes="@ + (start.push('-') + end) + more), total) == (
                if a < total {
                    a
                } else {
                    last
                },
                if b < total {
                    b
                } else {
                    last
                },
                true,
            )
            &&& range_of(Some("bytes="@ + start.push('-') + more), total) == (
                if a < total {
                    a
                } else {
                    last
                },
                last,
                true,
            )
            &&& range_of(Some("bytes="@ + (seq!['-'] + end) + more), total) == (
                if b < total {
                    total - b
                } else {
                    0
                },
                last,
                true,
            )
        }),
{
    let none = Seq::<char>::empty();
    assert(is_digit(start[0]) && is_digit(end[0]));
    lemma_header_is_split(start, end, more, total);
    lemma_header_is_split(start, none, more, total);
    assert(start.push('-') + none =~= start.push('-'));
    lemma_header_is_split(none, end, more, total);
    assert(none.push('-') + end =~= seq!['-'] + end);
}

/// Seeking works: a player that asks for all bytes from `a` on, or for those from `a` to
/// `b`, gets the bytes of the file at these places.
pub proof fn lemma_seek_gives_the_bytes(file: Seq<u8>, a: nat, b: nat)
    requires
        a <= b < file.len(),
        file.len() <= i64::MAX - 524288,
    ensures
        ({
            let total = file.len() as u64;
            let (s1, e1, part1) = range_of(Some("bytes="@ + decimal(a) + "-"@), total);
            let (s2, e2, part2) = range_of(Some("bytes="@ + decimal(a) + "-"@ + decimal(b)), total);
            &&& part1 && part2
            &&& (s1, e1) == (a as int, file.len() - 1)
            &&& (s2, e2) == (a as int, b as int)
            &&& sent_from(file, stream_start(s1 as u64, e1 as u64)) == file.skip(a as int)
            &&& sent_from(file, stream_start(s2 as u64, e2 as u64)) == file.subrange(
                a as int,
                b + 1int,
            )
        }),
{
    let total = file.len() as u64;
    reveal_strlit("-");
    lemma_decimal_reads_back(a);
    lemma_decimal_reads_back(b);
    lemma_range_is_the_one_asked_for(decimal(a), decimal(b), Seq::empty(), total);
    assert("bytes="@ + decimal(a).push('-') + Seq::<char>::empty() =~= "bytes="@ + decimal(a)
        + "-"@);
    assert("bytes="@ + (decimal(a).push('-') + decimal(b)) + Seq::<char>::empty() =~= "bytes="@
        + decimal(a) + "-"@ + decimal(b));
    lemma_stream_sends_the_range(file, a as u64, (file.len() - 1) as u64);
    lemma_stream_sends_the_range(file, a as u64, b as u64);
    assert(file.subrange(a as int, file.len() as int) =~= file.skip(a as int));
}

/// A request that does not ask for bytes gets the whole file, and a part is sent to no
/// other.
pub proof fn lemma_other_units_get_everything(header: Seq<char>, total: u64)
    requires
        total > 0,
    ensures
        !begins_with(header, "bytes="@) ==> range_of(Some(header), total) == (
            0int,
            total - 1,
            false,
        ),
        begins_with(header, "bytes="@) ==> range_of(Some(header), total).2,
{
}

/// A player gets the bytes that its range names, and as many as the answer says, when
/// an honest service answers. A range that ends before it begins is the one exception.
pub proof fn lemma_range_is_served(file: Seq<u8>, header: Option<Seq<char>>)
    requires
        0 < file.len() <= i64::MAX - MAX_CHUNK_SIZE,
        range_of(header, file.len() as u64).0 <= range_of(header, file.len() as u64).1,
    ensures
        ({
            let (start, end, _) = range_of(header, file.len() as u64);
            let sent = sent_from(file, stream_start(start as u64, end as u64));
            &&& sent == file.subrange(start, end + 1)
            &&& sent.len() == range_len(start as u64, end as u64)
        }),
{
    let (start, end, _) = range_of(header, file.len() as u64);
    lemma_range_lies_within(header, file.len() as u64);
    lemma_stream_sends_the_range(file, start as u64, end as u64);
}

// ------------------------------------------------------------ requests

/// An answer that carries a message instead of media.
#[derive(Debug)]
pub struct Refusal {
    pub status: u16,
    pub body: String,
}

/// The message that a request may have, or why it may not.
pub fn admit_request(
    given: Option<&str>,
    token: &str,
    session: &Session,
    chat_type: &str,
    chat_id: i64,
    message_id: i32,
) -> (r: Result<DownloadTarget, Refusal>)
    ensures
        if opt_str(given) != Some(token@) {
            r matches Err(e) && e.status == 403 && e.body@ == "invalid token"@
        } else if !session.authenticated {
            r matches Err(e) && e.status == 503 && e.body@ == "not authenticated"@
        } else {
            r == Ok::<_, Refusal>(
                DownloadTarget {
                    chat_id,
                    access_hash: session.hash(chat_id),
                    is_channel: is_channel_like(chat_type@, session.hash(chat_id)),
                    message_id,
                },
            )
        },
{
    let allowed = match given {
        Some(t) => same_text(t, token),
        None => false,
    };
    if !allowed {
        return Err(Refusal { status: 403, body: "invalid token".to_owned() });
    }
    match download_media(session, chat_id, chat_type, message_id) {
        Ok(target) => Ok(target),
        Err(_) => Err(Refusal { status: 503, body: "not authenticated".to_owned() }),
    }
}

/// The answer where the message could not be had.
pub fn not_found(err: &str) -> (r: Refusal)
    ensures
        r.status == 404,
        r.body@ == "fetch_raw_media: "@ + err@,
{
    Refusal { status: 404, body: joined("fetch_raw_media: ", err) }
}

/// The name by which a player knows that it has a file already.
pub open spec fn etag_of(chat_id: i64, message_id: i32, size: u64) -> Seq<char> {
    "\"tg-"@ + signed_decimal(chat_id as int) + "-"@ + signed_decimal(message_id as int) + "-"@
        + decimal(size as nat) + "\""@
}

fn make_etag(chat_id: i64, message_id: i32, size: u64) -> (r: String)
    ensures
        r@ == etag_of(chat_id, message_id, size),
{
    let chat = signed_text(chat_id);
    let message = signed_text(message_id as i64);
    let bytes = decimal_text(size);
    let head = joined3("\"tg-", chat.as_str(), "-");
    let middle = joined3(head.as_str(), message.as_str(), "-");
    joined3(middle.as_str(), bytes.as_str(), "\"")
}

/// What a request is answered with.
pub enum StreamReply {
    Refused(Refusal),
    /// The player has the file.
    NotModified { etag: String },
    /// The bytes from `start` to `end`, both included.
    Content {
        media: MediaLocation,
        mime: String,
        etag: String,
        start: u64,
        end: u64,
        length: u64,
        /// Set where a range was asked for.
        content_range: Option<String>,
    },
}

/// The text that says which part of a file is sent.
pub open spec fn content_range_of(start: int, end: int, total: u64) -> Seq<char> {
    "bytes "@ + decimal(start as nat) + "-"@ + decimal(end as nat) + "/"@ + decimal(total as nat)
}

fn describe_range(start: u64, end: u64, total: u64) -> (r: String)
    ensures
        r@ == content_range_of(start as int, end as int, total),
{
    let a = decimal_text(start);
    let b = decimal_text(end);
    let c = decimal_text(total);
    let head = joined3("bytes ", a.as_str(), "-");
    let middle = joined3(head.as_str(), b.as_str(), "/");
    joined(middle.as_str(), c.as_str())
}

/// Decides what a request for some media is answered with.
pub fn handle_stream(
    media: &MessageMedia,
    chat_id: i64,
    message_id: i32,
    if_none_match: Option<&str>,
    range: Option<&str>,
) -> (r: StreamReply)
    ensures
        exists|place: Option<MediaLocation>| #[trigger] location_matches(*media, place) && match place {
            None => r matches StreamReply::Refused(e) && e.status == 415 && e.body@
                == "unsupported media"@,
            Some(m) => {
                let etag = etag_of(chat_id, message_id, m.size);
                if opt_str(if_none_match) == Some(etag) {
                    r matches StreamReply::NotModified { etag: t } && t@ == etag
                } else {
                    let (start, end, asked) = range_of(opt_str(range), m.size);
                    &&& r is Content
                    &&& r->Content_media == m
                    &&& r->mime@ == served_mime(*media)
                    &&& r->Content_etag@ == etag
                    &&& r->start == start
                    &&& r->end == end
                    &&& r->length == range_len(start as u64, end as u64)
                    &&& match r->content_range {
                        Some(text) => asked && text@ == content_range_of(start, end, m.size),
                        None => !asked,
                    }
                }
            },
        },
{
    let place = media_to_location(media);
    let ghost seen = place;
    proof {
        assert(location_matches(*media, seen));
    }
    let location = match place {
        Some(m) => m,
        None => return StreamReply::Refused(
            Refusal { status: 415, body: "unsupported media".to_owned() },
        ),
    };
    let total = location.size;
    let etag = make_etag(chat_id, message_id, total);
    if let Some(known) = if_none_match {
        if same_text(known, etag.as_str()) {
            return StreamReply::NotModified { etag };
        }
    }
    let (start, end, asked) = parse_range_header(range, total);
    let span: u64 = if end >= start {
        end - start
    } else {
        0
    };
    let length: u64 = if span == u64::MAX {
        u64::MAX
    } else {
        span + 1
    };
    let content_range = if asked {
        Some(describe_range(start, end, total))
    } else {
        None
    };
    StreamReply::Content {
        media: location,
        mime: mime_type_from_media(media),
        etag,
        start,
        end,
        length,
        content_range,
    }
}

// ------------------------------------------------------------ headers

/// The texts of a list of headers.
pub open spec fn header_texts(h: Seq<(&'static str, String)>) -> Seq<(Seq<char>, Seq<char>)> {
    h.map_values(|p: (&'static str, String)| (p.0@, p.1@))
}

fn push_header(headers: &mut Vec<(&'static str, String)>, name: &'static str, value: &str)
    ensures
        header_texts(final(headers)@) == header_texts(old(headers)@).push((name@, value@)),
{
    headers.push((name, value.to_owned()));
    proof {
        assert(header_texts(headers@) =~= header_texts(old(headers)@).push((name@, value@)));
    }
}

pub open spec fn cache_rule() -> Seq<char> {
    "private, max-age=86400, immutable"@
}

/// The headers of an answer without a body because the player has the file.
pub fn not_modified_headers(etag: &str) -> (r: Vec<(&'static str, String)>)
    ensures
        header_texts(r@) == seq![
            ("etag"@, etag@),
            ("cache-control"@, cache_rule()),
            ("access-control-allow-origin"@, "*"@),
        ],
{
    let mut headers: Vec<(&'static str, String)> = Vec::new();
    push_header(&mut headers, "etag", etag);
    push_header(&mut headers, "cache-control", "private, max-age=86400, immutable");
    push_header(&mut headers, "access-control-allow-origin", "*");
    proof {
        assert(header_texts(headers@) =~= seq![
            ("etag"@, etag@),
            ("cache-control"@, cache_rule()),
            ("access-control-allow-origin"@, "*"@),
        ]);
    }
    headers
}

/// The headers that tell a browser which requests it may make.
pub open spec fn cross_origin() -> Seq<(Seq<char>, Seq<char>)> {
    seq![
        ("access-control-allow-origin"@, "*"@),
        ("access-control-allow-methods"@, "GET, HEAD, OPTIONS"@),
        ("access-control-allow-headers"@, "*"@),
    ]
}

/// The status and headers of the answer to a browser that asks what it may do.
pub fn handle_options() -> (r: (u16, Vec<(&'static str, String)>))
    ensures
        r.0 == 204,
        header_texts(r.1@) == cross_origin(),
{
    let mut headers: Vec<(&'static str, String)> = Vec::new();
    push_header(&mut headers, "access-control-allow-origin", "*");
    push_header(&mut headers, "access-control-allow-methods", "GET, HEAD, OPTIONS");
    push_header(&mut headers, "access-control-allow-headers", "*");
    proof {
        assert(header_texts(headers@) =~= cross_origin());
    }
    (204, headers)
}

/// The header that says which part of a file is sent.
pub open spec fn part_header(content_range: Option<String>) -> Seq<(Seq<char>, Seq<char>)> {
    match content_range {
        Some(text) => seq![("content-range"@, text@)],
        None => Seq::empty(),
    }
}

/// The status and headers of an answer with media: 206 for a part, 200 for the whole.
pub fn content_headers(mime: &str, etag: &str, length: u64, content_range: &Option<String>) -> (r: (
    u16,
    Vec<(&'static str, String)>,
))
    ensures
        r.0 == (if content_range is Some {
            206u16
        } else {
            200u16
        }),
        header_texts(r.1@) == seq![
            ("content-type"@, mime@),
            ("content-length"@, decimal(length as nat)),
            ("accept-ranges"@, "bytes"@),
            ("cache-control"@, cache_rule()),
            ("etag"@, etag@),
            ("last-modified"@, "Thu, 01 Jan 1970 00:00:00 GMT"@),
        ] + cross_origin() + part_header(*content_range),
{
    let bytes = decimal_text(length);
    let mut headers: Vec<(&'static str, String)> = Vec::new();
    push_header(&mut headers, "content-type", mime);
    push_header(&mut headers, "content-length", bytes.as_str());
    push_header(&mut headers, "accept-ranges", "bytes");
    push_header(&mut headers, "cache-control", "private, max-age=86400, immutable");
    push_header(&mut headers, "etag", etag);
    push_header(&mut headers, "last-modified", "Thu, 01 Jan 1970 00:00:00 GMT");
    push_header(&mut headers, "access-control-allow-origin", "*");
    push_header(&mut headers, "access-control-allow-methods", "GET, HEAD, OPTIONS");
    push_header(&mut headers, "access-control-allow-headers", "*");
    let status: u16 = match content_range {
        Some(text) => {
            push_header(&mut headers, "content-range", text.as_str());
            206
        },
        None => 200,
    };
    proof {
        let base = seq![
            ("content-type"@, mime@),
            ("content-length"@, decimal(length as nat)),
            ("accept-ranges"@, "bytes"@),
            ("cache-control"@, cache_rule()),
            ("etag"@, etag@),
            ("last-modified"@, "Thu, 01 Jan 1970 00:00:00 GMT"@),
        ];
        assert(header_texts(headers@) =~= base + cross_origin() + part_header(*content_range));
    }
    (status, headers)
}

/// Different files have different names, by which a player knows what it has.
pub proof fn lemma_names_of_files_differ(
    chat_id: i64,
    message_id: i32,
    size: u64,
    other_chat: i64,
    other_message: i32,
    other_size: u64,
)
    requires
        etag_of(chat_id, message_id, size) == etag_of(other_chat, other_message, other_size),
    ensures
        chat_id == other_chat,
        message_id == other_message,
        size == other_size,
{
    reveal_strlit("\"tg-");
    reveal_strlit("-");
    reveal_strlit("\"");
    let a = etag_of(chat_id, message_id, size);
    let b = etag_of(other_chat, other_message, other_size);
    let size_a = decimal(size as nat).push('"');
    let size_b = decimal(other_size as nat).push('"');
    let rest_a = signed_decimal(message_id as int).push('-') + size_a;
    let rest_b = signed_decimal(other_message as int).push('-') + size_b;
    assert(a.skip(4) =~= signed_decimal(chat_id as int).push('-') + rest_a);
    assert(b.skip(4) =~= signed_decimal(other_chat as int).push('-') + rest_b);
    lemma_numbers_before_a_hyphen(chat_id as int, other_chat as int, rest_a, rest_b);
    lemma_numbers_before_a_hyphen(message_id as int, other_message as int, size_a, size_b);
    assert(size_a.drop_last() =~= decimal(size as nat));
    assert(size_b.drop_last() =~= decimal(other_size as nat));
    lemma_decimal_reads_back(size as nat);
    lemma_decimal_reads_back(other_size as nat);
}

/// The answer to a range names the first byte, the last byte and the size of the file.
pub proof fn lemma_answered_ranges_differ(
    start: nat,
    end: nat,
    total: u64,
    other_start: nat,
    other_end: nat,
    other_total: u64,
)
    requires
        content_range_of(start as int, end as int, total) == content_range_of(
            other_start as int,
            other_end as int,
            other_total,
        ),
    ensures
        start == other_start,
        end == other_end,
        total == other_total,
{
    reveal_strlit("bytes ");
    reveal_strlit("-");
    reveal_strlit("/");
    let a = content_range_of(start as int, end as int, total);
    let b = content_range_of(other_start as int, other_end as int, other_total);
    let rest_a = signed_decimal(end as int).push('/') + decimal(total as nat);
    let rest_b = signed_decimal(other_end as int).push('/') + decimal(other_total as nat);
    assert(a.skip(6) =~= signed_decimal(start as int).push('-') + rest_a);
    assert(b.skip(6) =~= signed_decimal(other_start as int).push('-') + rest_b);
    lemma_numbers_before_a_hyphen(start as int, other_start as int, rest_a, rest_b);
    lemma_numbers_in_front(
        end as int,
        other_end as int,
        '/',
        decimal(total as nat),
        decimal(other_total as nat),
    );
    lemma_decimal_reads_back(total as nat);
    lemma_decimal_reads_back(other_total as nat);
}

/// A document is served under its own MIME type, and a photo as a JPEG picture.
pub proof fn lemma_served_types(media: MessageMedia)
    ensures
        media matches MessageMedia::Document(Some(Document::Document(d))) ==> served_mime(media)
            == d.mime_type@,
        media is Photo ==> served_mime(media) == "image/jpeg"@,
        !(media is Photo) && !(media is Document) ==> served_mime(media)
            == "application/octet-stream"@,
{
}

/// A first byte that is no number counts as the beginning of the file, and a last byte that
/// is none as its end; a plus sign before a number changes nothing.
pub proof fn lemma_unreadable_bounds(start: Seq<char>, end: Seq<char>, total: u64, n: nat)
    requires
        start.len() > 0,
        end.len() > 0,
        total > 0,
    ensures
        parsed_u64(start) is None ==> range_bounds(start, end, total).0 == 0,
        parsed_u64(start) is None ==> range_bounds(start, Seq::empty(), total) == (0int, total - 1),
        parsed_u64(end) is None ==> range_bounds(start, end, total).1 == total - 1,
        range_bounds(Seq::empty(), Seq::empty(), total) == (0int, total - 1),
        n <= u64::MAX ==> parsed_u64(decimal(n)) == Some(n),
        n <= u64::MAX ==> parsed_u64(seq!['+'] + decimal(n)) == Some(n),
        parsed_u64(start) is Some ==> start[0] == '+' || '0' <= start[0] <= '9',
{
    lemma_decimal_reads_back(n);
    assert(is_digit(decimal(n)[0]));
    assert((seq!['+'] + decimal(n)).skip(1) =~= decimal(n));
    if parsed_u64(start) is Some && start[0] != '+' {
        assert(is_digit(start[0]));
    }
}

} // verus!
