//! Downloading a file in chunks: one after another, by several workers, or a range of
//! it as a stream.

use std::collections::VecDeque;

use vstd::prelude::*;

use super::media::{as_unsigned, unsigned_bits};
use super::models::{
    messages_of, reply_messages, Document, FileLocation, Message, MessageMedia, MessagesReply, Photo,
    PhotoSize,
};
use super::search::{as_signed, signed_bits};
use crate::text::{joined, joined3, same_text, signed_decimal, signed_text};

verus! {

// ------------------------------------------------------------ how many workers

/// How many workers a download may use.
#[derive(Debug, Clone, Copy)]
pub struct ThreadCap {
    cap: usize,
}

impl ThreadCap {
    pub closed spec fn limit(self) -> usize {
        self.cap
    }

    /// The cap is one that can be set.
    pub open spec fn well_formed(self) -> bool {
        1 <= self.limit() <= 32
    }

    /// The cap that holds until another one is set.
    pub fn new() -> (r: ThreadCap)
        ensures
            r.limit() == 8,
            r.well_formed(),
    {
        ThreadCap { cap: 8 }
    }
}

/// Sets the cap, brought into the range 1 to 32.
pub fn set_max_threads_cap(cap: &mut ThreadCap, n: usize)
    ensures
        final(cap).well_formed(),
        final(cap).limit() == (if n < 1 {
            1
        } else if n > 32 {
            32
        } else {
            n
        }),
{
    let clamped: usize = if n < 1 {
        1
    } else if n > 32 {
        32
    } else {
        n
    };
    cap.cap = clamped;
}

pub fn get_max_threads_cap(cap: &ThreadCap) -> (r: usize)
    ensures
        r == cap.limit(),
{
    cap.cap
}

/// How many workers a file of this size is worth.
pub open spec fn raw_threads(file_size: int) -> int {
    let mb = 1024 * 1024;
    if file_size < mb {
        1
    } else if file_size < 5 * mb {
        2
    } else if file_size < 50 * mb {
        4
    } else {
        8
    }
}

/// How many workers a file is downloaded with.
pub fn compute_thread_count(file_size: u64, cap: &ThreadCap) -> (r: usize)
    requires
        cap.well_formed(),
    ensures
        r == (if raw_threads(file_size as int) <= cap.limit() {
            raw_threads(file_size as int)
        } else {
            cap.limit() as int
        }),
        1 <= r <= 8,
{
    let mb: u64 = 1024 * 1024;
    let raw: usize = if file_size < mb {
        1
    } else if file_size < 5 * mb {
        2
    } else if file_size < 20 * mb {
        4
    } else if file_size >= 50 * mb {
        8
    } else {
        4
    };
    if raw <= cap.cap {
        raw
    } else {
        cap.cap
    }
}

/// A larger file is never downloaded with fewer workers.
pub proof fn lemma_threads_grow_with_size(a: int, b: int)
    requires
        a <= b,
    ensures
        raw_threads(a) <= raw_threads(b),
{
}

/// A file has one worker below a mebibyte, at most two below five and at most four below
/// fifty, and eight from there on.
pub proof fn lemma_threads_of_a_size(file_size: int)
    ensures
        raw_threads(file_size) == 1 <==> file_size < 1_048_576,
        raw_threads(file_size) <= 2 <==> file_size < 5_242_880,
        raw_threads(file_size) <= 4 <==> file_size < 52_428_800,
        file_size >= 1_048_576 ==> raw_threads(file_size) % 2 == 0,
        file_size >= 5_242_880 ==> raw_threads(file_size) >= 4,
        file_size >= 52_428_800 ==> raw_threads(file_size) == 8,
{
}

// ------------------------------------------------------------ speed

/// How long a measurement counts, in nanoseconds.
pub const SPEED_WINDOW_NS: u64 = 5_000_000_000;

/// What was sent lately: moments in nanoseconds, with the bytes sent then.
pub struct StreamSpeedTracker {
    samples: VecDeque<(u64, u64)>,
}

/// The samples without those at the front that are older than the window.
pub open spec fn in_window(s: Seq<(u64, u64)>, now: u64) -> Seq<(u64, u64)>
    decreases s.len(),
{
    if s.len() > 0 && s[0].0 + SPEED_WINDOW_NS < now {
        in_window(s.drop_first(), now)
    } else {
        s
    }
}

pub open spec fn bytes_sent(s: Seq<(u64, u64)>) -> int
    decreases s.len(),
{
    if s.len() == 0 {
        0
    } else {
        bytes_sent(s.drop_last()) + s.last().1
    }
}

impl View for StreamSpeedTracker {
    type V = Seq<(u64, u64)>;

    closed spec fn view(&self) -> Seq<(u64, u64)> {
        self.samples@
    }
}

proof fn lemma_bytes_sent_bound(s: Seq<(u64, u64)>)
    ensures
        0 <= bytes_sent(s) <= s.len() * u64::MAX,
    decreases s.len(),
{
    if s.len() > 0 {
        lemma_bytes_sent_bound(s.drop_last());
        assert(s.len() * u64::MAX == (s.len() - 1) * u64::MAX + u64::MAX) by (nonlinear_arith);
    }
}

impl StreamSpeedTracker {
    pub fn new() -> (r: StreamSpeedTracker)
        ensures
            r@.len() == 0,
    {
        StreamSpeedTracker { samples: VecDeque::new() }
    }

    /// Records bytes that were sent, and forgets what is too old.
    pub fn record(&mut self, now: u64, bytes: u64)
        ensures
            final(self)@ == in_window(old(self)@.push((now, bytes)), now),
    {
        self.samples.push_back((now, bytes));
        let ghost all = self.samples@;
        while self.samples.len() > 0 && now >= SPEED_WINDOW_NS && self.samples[0].0 < now
            - SPEED_WINDOW_NS
            invariant
                in_window(self.samples@, now) == in_window(all, now),
            decreases self.samples@.len(),
        {
            let ghost before = self.samples@;
            let _ = self.samples.pop_front();
            proof {
                assert(self.samples@ =~= before.drop_first());
            }
        }
    }

    /// The bytes of the samples at hand.
    pub fn total(&self) -> (r: u128)
        ensures
            r == bytes_sent(self@),
    {
        let mut sum: u128 = 0;
        let mut i: usize = 0;
        while i < self.samples.len()
            invariant
                i <= self.samples@.len(),
                sum == bytes_sent(self.samples@.take(i as int)),
            decreases self.samples@.len() - i,
        {
            proof {
                let next = self.samples@.take(i + 1);
                assert(next.drop_last() =~= self.samples@.take(i as int));
                lemma_bytes_sent_bound(next);
                assert((i + 1) * u64::MAX <= u128::MAX) by (nonlinear_arith)
                    requires
                        i < usize::MAX,
                        usize::MAX <= u64::MAX,
                ;
            }
            sum = sum + self.samples[i].1 as u128;
            i = i + 1;
        }
        proof {
            assert(self.samples@.take(i as int) =~= self.samples@);
        }
        sum
    }

    /// The moments of the first and the last sample.
    pub fn span(&self) -> (r: Option<(u64, u64)>)
        ensures
            r == (if self@.len() == 0 {
                None
            } else {
                Some((self@[0].0, self@.last().0))
            }),
    {
        if self.samples.len() == 0 {
            None
        } else {
            Some((self.samples[0].0, self.samples[self.samples.len() - 1].0))
        }
    }
}

/// What was sent at one moment always counts at that moment.
pub proof fn lemma_sample_now_counts(s: Seq<(u64, u64)>, now: u64, bytes: u64)
    ensures
        in_window(s.push((now, bytes)), now).len() > 0,
        in_window(s.push((now, bytes)), now).last() == (now, bytes),
    decreases s.len(),
{
    let t = s.push((now, bytes));
    if t[0].0 + SPEED_WINDOW_NS < now {
        assert(s.len() > 0);
        assert(t.drop_first() =~= s.drop_first().push((now, bytes)));
        lemma_sample_now_counts(s.drop_first(), now, bytes);
    }
}

/// Only samples that are more than five seconds old are forgotten, from the oldest on, and
/// the samples that are left are those behind them.
pub proof fn lemma_window_is_five_seconds(s: Seq<(u64, u64)>, now: u64)
    ensures
        ({
            let kept = in_window(s, now);
            let gone = s.len() - kept.len();
            &&& 0 <= gone
            &&& kept == s.skip(gone)
            &&& forall|i: int| 0 <= i < gone ==> (#[trigger] s[i]).0 + 5_000_000_000 < now
            &&& kept.len() > 0 ==> kept[0].0 + 5_000_000_000 >= now
        }),
    decreases s.len(),
{
    if s.len() > 0 && s[0].0 + SPEED_WINDOW_NS < now {
        let t = s.drop_first();
        lemma_window_is_five_seconds(t, now);
        let kept = in_window(s, now);
        let gone = s.len() - kept.len();
        assert(t.skip(gone - 1) =~= s.skip(gone));
        assert forall|i: int| 0 <= i < gone implies (#[trigger] s[i]).0 + 5_000_000_000 < now by {
            if i > 0 {
                assert(t[i - 1] == s[i]);
            }
        }
    } else {
        assert(s.skip(0) =~= s);
    }
}

/// The bytes of two runs of samples add up, and one sample counts its bytes.
pub proof fn lemma_bytes_add_up(a: Seq<(u64, u64)>, b: Seq<(u64, u64)>, sample: (u64, u64))
    ensures
        bytes_sent(a + b) == bytes_sent(a) + bytes_sent(b),
        bytes_sent(a.push(sample)) == bytes_sent(a) + sample.1,
        bytes_sent(seq![sample]) == sample.1,
    decreases b.len(),
{
    assert(a.push(sample).drop_last() =~= a);
    assert(seq![sample].drop_last() =~= Seq::<(u64, u64)>::empty());
    assert(bytes_sent(Seq::empty()) == 0);
    if b.len() == 0 {
        assert(a + b =~= a);
    } else {
        lemma_bytes_add_up(a, b.drop_last(), sample);
        assert((a + b).drop_last() =~= a + b.drop_last());
    }
}

// ------------------------------------------------------------ where a file is

/// Where the bytes of a file are, how many there are, and in which data center.
#[derive(Debug)]
pub struct MediaLocation {
    pub location: FileLocation,
    pub size: u64,
    pub dc_id: i32,
}

/// The last of the largest sizes of a photo.
pub open spec fn best_size(sizes: Seq<PhotoSize>) -> Option<(String, i32)>
    decreases sizes.len(),
{
    if sizes.len() == 0 {
        None
    } else {
        let before = best_size(sizes.drop_last());
        match sizes.last() {
            PhotoSize::Size { kind, size } => match before {
                Some((_, best)) => if size >= best {
                    Some((kind, size))
                } else {
                    before
                },
                None => Some((kind, size)),
            },
            PhotoSize::Other => before,
        }
    }
}

fn find_best_size(sizes: &Vec<PhotoSize>) -> (r: Option<(String, i32)>)
    ensures
        r == best_size(sizes@),
{
    let mut best: Option<(String, i32)> = None;
    let mut i: usize = 0;
    while i < sizes.len()
        invariant
            i <= sizes@.len(),
            best == best_size(sizes@.take(i as int)),
        decreases sizes@.len() - i,
    {
        proof {
            assert(sizes@.take(i + 1).drop_last() =~= sizes@.take(i as int));
        }
        if let PhotoSize::Size { kind, size } = &sizes[i] {
            let better = match &best {
                Some((_, s)) => *size >= *s,
                None => true,
            };
            if better {
                best = Some((kind.clone(), *size));
            }
        }
        i = i + 1;
    }
    proof {
        assert(sizes@.take(i as int) =~= sizes@);
    }
    best
}

/// `r` is where the file of some media is: a document whole, a photo in its largest
/// size.
pub open spec fn location_matches(media: MessageMedia, r: Option<MediaLocation>) -> bool {
    match media {
        MessageMedia::Document(Some(Document::Document(d))) => r matches Some(m) && {
            &&& m.location matches FileLocation::Document {
                id,
                access_hash,
                file_reference,
                thumb_size,
            } && id == d.id && access_hash == d.access_hash && file_reference@ == d.file_reference@
                && thumb_size@.len() == 0
            &&& m.size == as_unsigned(d.size as int)
            &&& m.dc_id == d.dc_id
        },
        MessageMedia::Photo(Some(Photo::Photo(p))) => match best_size(p.sizes@) {
            None => r is None,
            Some((kind, size)) => r matches Some(m) && {
                &&& m.location matches FileLocation::Photo {
                    id,
                    access_hash,
                    file_reference,
                    thumb_size,
                } && id == p.id && access_hash == p.access_hash && file_reference@
                    == p.file_reference@ && thumb_size@ == kind@
                &&& m.size == as_unsigned(size as int)
                &&& m.dc_id == p.dc_id
            },
        },
        _ => r is None,
    }
}

/// Where the file of some media is, if it has one.
pub fn media_to_location(media: &MessageMedia) -> (r: Option<MediaLocation>)
    ensures
        location_matches(*media, r),
{
    match media {
        MessageMedia::Document(Some(Document::Document(d))) => Some(
            MediaLocation {
                location: FileLocation::Document {
                    id: d.id,
                    access_hash: d.access_hash,
                    file_reference: d.file_reference.clone(),
                    thumb_size: String::new(),
                },
                size: unsigned_bits(d.size),
                dc_id: d.dc_id,
            },
        ),
        MessageMedia::Photo(Some(Photo::Photo(p))) => {
            match find_best_size(&p.sizes) {
                None => None,
                Some((kind, size)) => Some(
                    MediaLocation {
                        location: FileLocation::Photo {
                            id: p.id,
                            access_hash: p.access_hash,
                            file_reference: p.file_reference.clone(),
                            thumb_size: kind,
                        },
                        size: unsigned_bits(size as i64),
                        dc_id: p.dc_id,
                    },
                ),
            }
        },
        _ => None,
    }
}

/// The size of a photo that is downloaded is one of its sizes, none of them is larger, and
/// none behind it is as large. There is none only where the photo has no sizes.
pub proof fn lemma_best_size_is_largest(sizes: Seq<PhotoSize>)
    ensures
        best_size(sizes) is None <==> forall|i: int|
            0 <= i < sizes.len() ==> #[trigger] sizes[i] is Other,
        best_size(sizes) matches Some((best, bytes)) ==> exists|k: int|
            {
                &&& 0 <= k < sizes.len()
                &&& #[trigger] sizes[k] == (PhotoSize::Size { kind: best, size: bytes })
                &&& forall|i: int|
                    0 <= i < sizes.len() ==> (#[trigger] sizes[i] matches PhotoSize::Size {
                        size,
                        ..
                    } ==> size <= bytes && (i > k ==> size < bytes))
            },
    decreases sizes.len(),
{
    if sizes.len() > 0 {
        let front = sizes.drop_last();
        let n = front.len() as int;
        lemma_best_size_is_largest(front);
        assert(forall|i: int| 0 <= i < n ==> #[trigger] front[i] == sizes[i]);
        assert(sizes[n] == sizes.last());
        if best_size(sizes) is None {
            assert forall|i: int| 0 <= i < sizes.len() implies #[trigger] sizes[i] is Other by {
                if i < n {
                    assert(front[i] == sizes[i]);
                }
            }
        } else {
            if best_size(front) is Some {
                let k = choose|k: int| 0 <= k < n && !(#[trigger] front[k] is Other);
                assert(!(sizes[k] is Other));
            }
            let (best, bytes) = best_size(sizes)->0;
            if best_size(sizes) == best_size(front) && !(sizes[n] == (PhotoSize::Size {
                kind: best,
                size: bytes,
            })) {
                let k = choose|k: int|
                    {
                        &&& 0 <= k < front.len()
                        &&& #[trigger] front[k] == (PhotoSize::Size { kind: best, size: bytes })
                        &&& forall|i: int|
                            0 <= i < front.len() ==> (#[trigger] front[i] matches PhotoSize::Size {
                                size,
                                ..
                            } ==> size <= bytes && (i > k ==> size < bytes))
                    };
                assert(sizes[k] == (PhotoSize::Size { kind: best, size: bytes }));
                assert forall|i: int| 0 <= i < sizes.len() implies (
                #[trigger] sizes[i] matches PhotoSize::Size { size, .. } ==> size <= bytes && (i
                    > k ==> size < bytes)) by {
                    if i < n {
                        assert(front[i] == sizes[i]);
                    }
                }
            } else {
                assert(sizes[n] == (PhotoSize::Size { kind: best, size: bytes }));
                assert forall|i: int| 0 <= i < sizes.len() implies (
                #[trigger] sizes[i] matches PhotoSize::Size { size, .. } ==> size <= bytes && (i
                    > n ==> size < bytes)) by {
                    if i < n {
                        assert(front[i] == sizes[i]);
                    }
                }
            }
        }
    }
}

/// A document is downloaded from its own data center, under its own number and hash, with
/// as many bytes as it has.
pub proof fn lemma_document_location(media: MessageMedia, r: Option<MediaLocation>)
    requires
        location_matches(media, r),
    ensures
        media matches MessageMedia::Document(Some(Document::Document(d))) ==> {
            &&& r matches Some(m) && m.dc_id == d.dc_id && (d.size >= 0 ==> m.size == d.size)
            &&& r->0.location matches FileLocation::Document {
                id,
                access_hash,
                file_reference,
                thumb_size,
            } && id == d.id && access_hash == d.access_hash && file_reference@ == d.file_reference@
                && thumb_size@ == Seq::<char>::empty()
        },
        media matches MessageMedia::Photo(Some(Photo::Photo(p))) ==> r matches Some(m) ==> {
            &&& m.dc_id == p.dc_id
            &&& m.location matches FileLocation::Photo { id, access_hash, file_reference, .. } && id
                == p.id && access_hash == p.access_hash && file_reference@ == p.file_reference@
        },
        r is Some ==> media is Document || media is Photo,
{
}

/// The MIME type under which some media is served.
pub open spec fn served_mime(media: MessageMedia) -> Seq<char> {
    match media {
        MessageMedia::Document(Some(Document::Document(d))) => d.mime_type@,
        MessageMedia::Photo(_) => "image/jpeg"@,
        _ => "application/octet-stream"@,
    }
}

pub fn mime_type_from_media(media: &MessageMedia) -> (r: String)
    ensures
        r@ == served_mime(*media),
{
    match media {
        MessageMedia::Document(Some(Document::Document(d))) => d.mime_type.clone(),
        MessageMedia::Photo(_) => "image/jpeg".to_owned(),
        _ => "application/octet-stream".to_owned(),
    }
}

/// The first message proper of a list, as media and date.
pub open spec fn first_media(messages: Seq<Message>) -> Option<(Option<MessageMedia>, i32)>
    decreases messages.len(),
{
    if messages.len() == 0 {
        None
    } else {
        match messages[0] {
            Message::Message(m) => Some((m.media, m.date)),
            _ => first_media(messages.drop_first()),
        }
    }
}

/// Reads the media of the message that was asked for, with its date.
pub fn fetch_raw_media(reply: MessagesReply, message_id: i32) -> (r: Result<
    (MessageMedia, i32),
    String,
>)
    ensures
        match first_media(reply_messages(reply)) {
            Some((Some(media), date)) => r == Ok::<_, String>((media, date)),
            Some((None, _)) => r matches Err(e) && e@ == "Message "@ + signed_decimal(
                message_id as int,
            ) + " has no media"@,
            None => r matches Err(e) && e@ == "Message "@ + signed_decimal(message_id as int)
                + " not found"@,
        },
{
    let number = signed_text(message_id as i64);
    let ghost all = reply_messages(reply);
    let messages = messages_of(reply);
    proof {
        assert(all.skip(0) =~= all);
    }
    for message in it: messages
        invariant
            it.seq() == all,
            all == reply_messages(reply),
            first_media(all) == first_media(all.skip(it.index() as int)),
            number@ == signed_decimal(message_id as int),
    {
        proof {
            assert(all.skip(it.index() as int).drop_first() =~= all.skip(it.index() + 1));
        }
        if let Message::Message(m) = message {
            return match m.media {
                Some(media) => Ok((media, m.date)),
                None => Err(joined3("Message ", number.as_str(), " has no media")),
            };
        }
    }
    Err(joined3("Message ", number.as_str(), " not found"))
}

/// The media that is read is that of the first message proper of a reply, whatever other
/// messages stand before it.
pub proof fn lemma_first_media(messages: Seq<Message>, k: int)
    requires
        0 <= k < messages.len(),
        messages[k] is Message,
        forall|i: int| 0 <= i < k ==> !(#[trigger] messages[i] is Message),
    ensures
        messages[k] matches Message::Message(m) && first_media(messages) == Some((m.media, m.date)),
    decreases k,
{
    if k > 0 {
        let rest = messages.drop_first();
        assert(!(messages[0] is Message));
        assert forall|i: int| 0 <= i < k - 1 implies !(#[trigger] rest[i] is Message) by {
            assert(rest[i] == messages[i + 1]);
        }
        lemma_first_media(rest, k - 1);
    }
}

/// Without a message proper there is no media.
pub proof fn lemma_no_first_media(messages: Seq<Message>)
    requires
        forall|i: int| 0 <= i < messages.len() ==> !(#[trigger] messages[i] is Message),
    ensures
        first_media(messages) is None,
    decreases messages.len(),
{
    if messages.len() > 0 {
        let rest = messages.drop_first();
        assert(!(messages[0] is Message));
        assert forall|i: int| 0 <= i < rest.len() implies !(#[trigger] rest[i] is Message) by {
            assert(rest[i] == messages[i + 1]);
        }
        lemma_no_first_media(rest);
    }
}

// ------------------------------------------------------------ authorization

/// The data centers that hold a copy of the authorization, each once.
pub struct AuthCopies {
    dcs: Vec<i32>,
}

impl View for AuthCopies {
    type V = Seq<i32>;

    closed spec fn view(&self) -> Seq<i32> {
        self.dcs@
    }
}

/// The data centers once one of them has a copy.
pub open spec fn with_copy(dcs: Seq<i32>, dc: i32) -> Seq<i32> {
    if dcs.contains(dc) {
        dcs
    } else {
        dcs.push(dc)
    }
}

impl AuthCopies {
    pub fn new() -> (r: AuthCopies)
        ensures
            r@.len() == 0,
    {
        AuthCopies { dcs: Vec::new() }
    }

    pub fn contains(&self, dc: i32) -> (r: bool)
        ensures
            r == self@.contains(dc),
    {
        let mut i: usize = 0;
        while i < self.dcs.len()
            invariant
                i <= self.dcs@.len(),
                forall|j: int| 0 <= j < i ==> #[trigger] self.dcs@[j] != dc,
            decreases self.dcs@.len() - i,
        {
            if self.dcs[i] == dc {
                return true;
            }
            i = i + 1;
        }
        false
    }

    /// Records that a data center holds a copy.
    pub fn mark(&mut self, dc: i32)
        requires
            old(self)@.no_duplicates(),
        ensures
            final(self)@ == with_copy(old(self)@, dc),
            final(self)@.no_duplicates(),
    {
        if !self.contains(dc) {
            self.dcs.push(dc);
        }
    }

    /// Records that a data center has lost its copy.
    pub fn forget(&mut self, dc: i32)
        ensures
            final(self)@ == old(self)@.filter(|d: i32| d != dc),
            old(self)@.no_duplicates() ==> final(self)@.no_duplicates(),
    {
        let ghost p = |d: i32| d != dc;
        let mut kept: Vec<i32> = Vec::new();
        let mut i: usize = 0;
        while i < self.dcs.len()
            invariant
                i <= self.dcs@.len(),
                self.dcs@ == old(self).dcs@,
                p == (|d: i32| d != dc),
                kept@ == self.dcs@.take(i as int).filter(p),
            decreases self.dcs@.len() - i,
        {
            proof {
                reveal(Seq::filter);
                assert(self.dcs@.take(i + 1).drop_last() =~= self.dcs@.take(i as int));
            }
            if self.dcs[i] != dc {
                kept.push(self.dcs[i]);
            }
            i = i + 1;
        }
        proof {
            assert(self.dcs@.take(i as int) =~= self.dcs@);
            if old(self)@.no_duplicates() {
                lemma_filter_keeps_distinct(old(self)@, p);
            }
        }
        self.dcs = kept;
    }
}

proof fn lemma_filter_keeps_distinct(s: Seq<i32>, p: spec_fn(i32) -> bool)
    requires
        s.no_duplicates(),
    ensures
        s.filter(p).no_duplicates(),
        forall|i: int| 0 <= i < s.filter(p).len() ==> s.contains(#[trigger] s.filter(p)[i]),
    decreases s.len(),
{
    reveal(Seq::filter);
    if s.len() > 0 {
        let t = s.drop_last();
        lemma_filter_keeps_distinct(t, p);
        assert forall|i: int| 0 <= i < t.filter(p).len() implies #[trigger] t.filter(p)[i]
            != s.last() && s.contains(t.filter(p)[i]) by {
            assert(t.contains(t.filter(p)[i]));
            let k = choose|k: int| 0 <= k < t.len() && t[k] == t.filter(p)[i];
            assert(s[k] == t[k]);
        }
        assert forall|i: int| 0 <= i < s.filter(p).len() implies s.contains(
            #[trigger] s.filter(p)[i],
        ) by {
            if i < t.filter(p).len() {
                assert(s.filter(p)[i] == t.filter(p)[i]);
            } else {
                assert(s[s.len() - 1] == s.filter(p)[i]);
            }
        }
    }
}

/// Whether a data center needs a copy of the authorization: not the home one, nor one
/// that has it, nor one that does not exist.
pub fn ensure_auth_on_dc(target_dc_id: i32, home_dc: Option<i32>, copies: &AuthCopies) -> (r: bool)
    ensures
        r == (target_dc_id > 0 && home_dc != Some(target_dc_id) && !copies@.contains(target_dc_id)),
{
    if target_dc_id <= 0 {
        return false;
    }
    if let Some(home) = home_dc {
        if home == target_dc_id {
            return false;
        }
    }
    !copies.contains(target_dc_id)
}

/// What came of asking for a copy of the authorization.
pub enum ExportOutcome {
    Exported,
    /// A failure of the request itself, with the name that the service gives it.
    Refused { name: String, text: String },
    Failed { text: String },
}

/// What to do then.
pub enum ExportStep {
    /// Hand the copy to the data center.
    Import,
    /// Nothing: it is the home data center after all.
    Skip,
    Fail(String),
}

/// Decides what follows the request for a copy. A data center that the service does
/// not take as a target is taken to be the home one, and is recorded as having a copy.
pub fn after_export(copies: &mut AuthCopies, target_dc_id: i32, outcome: &ExportOutcome) -> (r:
    ExportStep)
    requires
        old(copies)@.no_duplicates(),
    ensures
        final(copies)@.no_duplicates(),
        match outcome {
            ExportOutcome::Exported => r is Import && final(copies)@ == old(copies)@,
            ExportOutcome::Refused { name, text } => if name@ == "DC_ID_INVALID"@ {
                &&& r is Skip
                &&& final(copies)@ == with_copy(old(copies)@, target_dc_id)
            } else {
                &&& r matches ExportStep::Fail(e) && e@ == "ExportAuthorization to DC "@
                    + signed_decimal(target_dc_id as int) + ": "@ + text@
                &&& final(copies)@ == old(copies)@
            },
            ExportOutcome::Failed { text } => {
                &&& r matches ExportStep::Fail(e) && e@ == "ExportAuthorization to DC "@
                    + signed_decimal(target_dc_id as int) + ": "@ + text@
                &&& final(copies)@ == old(copies)@
            },
        },
{
    match outcome {
        ExportOutcome::Exported => ExportStep::Import,
        ExportOutcome::Refused { name, text } => if same_text(name.as_str(), "DC_ID_INVALID") {
            copies.mark(target_dc_id);
            ExportStep::Skip
        } else {
            ExportStep::Fail(export_failure(target_dc_id, text.as_str()))
        },
        ExportOutcome::Failed { text } => ExportStep::Fail(
            export_failure(target_dc_id, text.as_str()),
        ),
    }
}

fn export_failure(target_dc_id: i32, text: &str) -> (r: String)
    ensures
        r@ == "ExportAuthorization to DC "@ + signed_decimal(target_dc_id as int) + ": "@ + text@,
{
    let number = signed_text(target_dc_id as i64);
    let head = joined3("ExportAuthorization to DC ", number.as_str(), ": ");
    joined(head.as_str(), text)
}

/// After a copy was handed over no other one is needed, until it is lost.
pub proof fn lemma_one_copy_is_enough(copies: Seq<i32>, dc: i32)
    ensures
        with_copy(copies, dc).contains(dc),
        !copies.filter(|d: i32| d != dc).contains(dc),
{
    if !copies.contains(dc) {
        let after = copies.push(dc);
        assert(after[after.len() - 1] == dc);
    }
    let p = |d: i32| d != dc;
    broadcast use vstd::seq_lib::group_filter_ensures;

    if copies.filter(p).contains(dc) {
        let i = choose|i: int| 0 <= i < copies.filter(p).len() && copies.filter(p)[i] == dc;
        assert(p(copies.filter(p)[i]));
    }
}

// ------------------------------------------------------------ replies to a chunk

/// How many bytes are asked for at a time.
pub const MAX_CHUNK_SIZE: i32 = 524_288;

/// The code by which the service points to another data center.
pub const FILE_MIGRATE_ERROR: i32 = 303;

/// Why a chunk did not come.
pub enum FileError {
    /// The data center does not know the authorization any more.
    AuthLost,
    /// The file is in this data center.
    Migrate { dc: i32 },
    Other,
}

/// What a refused chunk means, from the name, code and value of the refusal.
pub open spec fn refusal(name: Seq<char>, code: i32, value: Option<u32>, dc: i32) -> FileError {
    if name == "AUTH_KEY_UNREGISTERED"@ {
        FileError::AuthLost
    } else if code == FILE_MIGRATE_ERROR {
        FileError::Migrate {
            dc: match value {
                Some(v) => as_signed(v) as i32,
                None => dc,
            },
        }
    } else {
        FileError::Other
    }
}

pub fn classify_refusal(name: &str, code: i32, value: Option<u32>, dc: i32) -> (r: FileError)
    ensures
        r == refusal(name@, code, value, dc),
{
    if same_text(name, "AUTH_KEY_UNREGISTERED") {
        FileError::AuthLost
    } else if code == FILE_MIGRATE_ERROR {
        match value {
            Some(v) => FileError::Migrate { dc: signed_bits(v) },
            None => FileError::Migrate { dc },
        }
    } else {
        FileError::Other
    }
}

/// The bytes that an honest service answers with for a chunk of a file.
pub open spec fn chunk_at(file: Seq<u8>, offset: int) -> Seq<u8> {
    if offset >= file.len() {
        Seq::empty()
    } else if offset + MAX_CHUNK_SIZE <= file.len() {
        file.subrange(offset, offset + MAX_CHUNK_SIZE)
    } else {
        file.subrange(offset, file.len() as int)
    }
}

/// A chunk holds the bytes of the file from its offset on: 524288 of them, or those that
/// are left.
pub proof fn lemma_chunk_holds_the_file(file: Seq<u8>, offset: int)
    requires
        0 <= offset,
    ensures
        ({
            let chunk = chunk_at(file, offset);
            &&& chunk.len() == (if offset >= file.len() {
                0
            } else if file.len() - offset < 524288 {
                file.len() - offset
            } else {
                524288
            })
            &&& forall|i: int| 0 <= i < chunk.len() ==> #[trigger] chunk[i] == file[offset + i]
        }),
{
}

/// A refusal with code 303 points to the data center that it names, or to the one that was
/// asked; a lost authorization is told by its name alone.
pub proof fn lemma_refusals(name: Seq<char>, code: i32, value: Option<u32>, dc: i32)
    ensures
        refusal(name, code, value, dc) is AuthLost <==> name == "AUTH_KEY_UNREGISTERED"@,
        refusal(name, code, value, dc) is Migrate <==> code == 303 && name
            != "AUTH_KEY_UNREGISTERED"@,
        refusal(name, code, value, dc) matches FileError::Migrate { dc: to } ==> match value {
            Some(v) => v <= i32::MAX ==> to == v,
            None => to == dc,
        },
{
}

// ------------------------------------------------------------ one chunk after another

/// How a file is downloaded.
#[derive(Debug, Clone, Copy, PartialEq, Eq, Structural)]
pub enum DownloadPlan {
    Sequential,
    Parallel { threads: usize },
}

/// How a file of this size is downloaded.
pub fn download_file(size: u64, cap: &ThreadCap) -> (r: DownloadPlan)
    requires
        cap.well_formed(),
    ensures
        r == (if raw_threads(size as int) <= 1 || cap.limit() == 1 {
            DownloadPlan::Sequential
        } else if raw_threads(size as int) <= cap.limit() {
            DownloadPlan::Parallel { threads: raw_threads(size as int) as usize }
        } else {
            DownloadPlan::Parallel { threads: cap.limit() }
        }),
{
    let threads = compute_thread_count(size, cap);
    if threads <= 1 || size == 0 {
        DownloadPlan::Sequential
    } else {
        DownloadPlan::Parallel { threads }
    }
}

/// A download of one chunk after another.
#[derive(Debug, Clone, Copy)]
pub struct SequentialDownload {
    pub downloaded: u64,
    pub offset: i64,
}

/// What to do with a chunk that came.
#[derive(Debug, Clone, Copy, PartialEq, Eq, Structural)]
pub enum ChunkStep {
    /// Write it and ask for the next one.
    WriteMore,
    /// Write it; it is the last one.
    WriteLast,
    /// It is empty: there is nothing more.
    End,
}

/// A short chunk is the last one; an empty one stands behind the last.
pub open spec fn chunk_step(len: int) -> ChunkStep {
    if len == 0 {
        ChunkStep::End
    } else if len < MAX_CHUNK_SIZE {
        ChunkStep::WriteLast
    } else {
        ChunkStep::WriteMore
    }
}

impl SequentialDownload {
    pub fn new() -> (r: SequentialDownload)
        ensures
            r.downloaded == 0,
            r.offset == 0,
    {
        SequentialDownload { downloaded: 0, offset: 0 }
    }

    /// Counts a chunk that came.
    pub fn take_chunk(&mut self, len: usize) -> (r: ChunkStep)
        requires
            old(self).downloaded + len <= u64::MAX,
            old(self).offset <= i64::MAX - MAX_CHUNK_SIZE,
        ensures
            r == chunk_step(len as int),
            r is End ==> *final(self) == *old(self),
            r !is End ==> {
                &&& final(self).downloaded == old(self).downloaded + len
                &&& final(self).offset == old(self).offset + MAX_CHUNK_SIZE
            },
    {
        if len == 0 {
            return ChunkStep::End;
        }
        self.downloaded = self.downloaded + len as u64;
        self.offset = self.offset + MAX_CHUNK_SIZE as i64;
        if len < MAX_CHUNK_SIZE as usize {
            ChunkStep::WriteLast
        } else {
            ChunkStep::WriteMore
        }
    }
}

/// All that is written when chunks are asked for from `offset` on and an honest
/// service answers.
pub open spec fn written_from(file: Seq<u8>, offset: int) -> Seq<u8>
    decreases
            (if offset < file.len() {
                file.len() - offset
            } else {
                0
            }),
{
    let chunk = chunk_at(file, offset);
    match chunk_step(chunk.len() as int) {
        ChunkStep::End => Seq::empty(),
        ChunkStep::WriteLast => chunk,
        ChunkStep::WriteMore => if offset < file.len() {
            chunk + written_from(file, offset + MAX_CHUNK_SIZE)
        } else {
            chunk
        },
    }
}

/// A sequential download from an honest service writes the file, from any offset on.
pub proof fn lemma_sequential_download_writes_the_file(file: Seq<u8>, offset: int)
    requires
        0 <= offset,
    ensures
        offset <= file.len() ==> written_from(file, offset) == file.skip(offset),
        offset > file.len() ==> written_from(file, offset).len() == 0,
    decreases
            (if offset < file.len() {
                file.len() - offset
            } else {
                0
            }),
{
    let chunk = chunk_at(file, offset);
    if offset < file.len() && chunk.len() >= MAX_CHUNK_SIZE {
        let next = offset + MAX_CHUNK_SIZE;
        lemma_sequential_download_writes_the_file(file, next);
        assert(chunk + file.skip(next) =~= file.skip(offset));
    } else if offset <= file.len() {
        assert(written_from(file, offset) =~= file.skip(offset));
    }
}

/// A download goes on after every full chunk, and after no other.
pub proof fn lemma_chunk_steps(len: int)
    requires
        0 <= len,
    ensures
        chunk_step(len) is End <==> len == 0,
        chunk_step(len) is WriteMore <==> len >= 524288,
        chunk_step(len) is WriteLast <==> 0 < len < 524288,
{
}

// ------------------------------------------------------------ several workers

/// How many bytes each worker is responsible for: a whole number of chunks, at least
/// one.
pub open spec fn share(total: int, threads: int) -> int {
    let chunk = MAX_CHUNK_SIZE as int;
    let chunks = (total + chunk - 1) / chunk;
    let per_worker = (chunks * chunk + threads - 1) / threads;
    (if per_worker / chunk < 1 {
        1
    } else {
        per_worker / chunk
    }) * chunk
}

/// The part of a file that one worker downloads: from a start up to an end.
pub open spec fn segment(total: int, threads: int, worker: int) -> (int, int) {
    let start = worker * share(total, threads);
    let end = start + share(total, threads);
    (
        start,
        if end < total {
            end
        } else {
            total
        },
    )
}

/// How many workers have a part to download.
pub open spec fn workers(total: int, threads: int) -> int
    recommends
        threads > 0,
{
    let per_worker = share(total, threads);
    let needed = (total + per_worker - 1) / per_worker;
    if needed < threads {
        needed
    } else {
        threads
    }
}

proof fn lemma_share(total: int, threads: int)
    requires
        0 < total,
        0 < threads,
    ensures
        share(total, threads) >= MAX_CHUNK_SIZE,
        share(total, threads) % (MAX_CHUNK_SIZE as int) == 0,
        share(total, threads) <= total + MAX_CHUNK_SIZE - 1,
{
    let chunk = MAX_CHUNK_SIZE as int;
    let chunks = (total + chunk - 1) / chunk;
    let aligned = chunks * chunk;
    assert(total <= aligned <= total + chunk - 1);
    let per = (aligned + threads - 1) / threads;
    assert(0 < per <= aligned) by (nonlinear_arith)
        requires
            aligned > 0,
            threads > 0,
            per == (aligned + threads - 1) / threads,
    ;
    let n = per / chunk;
    assert(n * chunk <= per);
    assert(0 <= n);
    let m = if n < 1 {
        1
    } else {
        n
    };
    assert(share(total, threads) == m * chunk);
    assert((m * chunk) % chunk == 0) by {
        vstd::arithmetic::div_mod::lemma_mod_multiples_basic(m, chunk);
    }
}

proof fn lemma_workers(total: int, threads: int, w: int)
    requires
        0 < total,
        0 < threads,
        0 <= w < threads,
    ensures
        w * share(total, threads) < total <==> w < workers(total, threads),
{
    lemma_share(total, threads);
    let per = share(total, threads);
    let needed = (total + per - 1) / per;
    assert(w * per < total <==> w < needed) by (nonlinear_arith)
        requires
            per > 0,
            needed == (total + per - 1) / per,
    ;
}

/// The parts of a file of `total` bytes that up to `threads` workers download.
pub fn plan_segments(total: u64, threads: usize) -> (r: Vec<(u64, u64)>)
    requires
        0 < total <= i64::MAX,
        0 < threads,
    ensures
        r@.len() == workers(total as int, threads as int),
        forall|w: int|
            0 <= w < r@.len() ==> {
                &&& (#[trigger] r@[w]).0 == segment(total as int, threads as int, w).0
                &&& r@[w].1 == segment(total as int, threads as int, w).1
            },
{
    let chunk: u64 = MAX_CHUNK_SIZE as u64;
    let chunks: u64 = (total + chunk - 1) / chunk;
    let aligned: u64 = chunks * chunk;
    let workers_max: u64 = threads as u64;
    let ghost t = total as int;
    let ghost n = threads as int;
    proof {
        lemma_share(t, n);
        assert(aligned + n - 1 >= 0);
    }
    let rounded: u64 = aligned / workers_max;
    proof {
        assert(rounded <= aligned) by (nonlinear_arith)
            requires
                rounded == aligned / workers_max,
                0 < workers_max,
        ;
    }
    let per_raw: u64 = if aligned % workers_max == 0 {
        rounded
    } else {
        rounded + 1
    };
    proof {
        assert(per_raw == (aligned + n - 1) / n) by (nonlinear_arith)
            requires
                n > 0,
                aligned >= 0,
                per_raw == (if aligned as int % n == 0 {
                    aligned as int / n
                } else {
                    aligned as int / n + 1
                }),
        ;
    }
    let whole: u64 = per_raw / chunk;
    let count: u64 = if whole < 1 {
        1
    } else {
        whole
    };
    proof {
        assert(count * chunk == share(t, n));
    }
    let per_worker: u64 = count * chunk;
    let mut out: Vec<(u64, u64)> = Vec::new();
    let mut w: usize = 0;
    let mut start: u64 = 0;
    while w < threads && start < total
        invariant
            t == total,
            n == threads,
            0 < total <= i64::MAX,
            0 < n,
            0 <= w <= threads,
            per_worker == share(t, n),
            0 < per_worker <= t + MAX_CHUNK_SIZE,
            start == w * per_worker,
            start < t + per_worker,
            w <= workers(t, n),
            out@.len() == w,
            forall|k: int|
                0 <= k < w ==> (#[trigger] out@[k]).0 == segment(t, n, k).0 && out@[k].1
                    == segment(t, n, k).1,
        decreases threads - w,
    {
        proof {
            lemma_workers(t, n, w as int);
            assert((w + 1) * per_worker == w * per_worker + per_worker) by (nonlinear_arith);
        }
        let end: u64 = if start + per_worker < total {
            start + per_worker
        } else {
            total
        };
        out.push((start, end));
        start = start + per_worker;
        w = w + 1;
    }
    proof {
        if w < threads {
            lemma_workers(t, n, w as int);
        }
    }
    out
}

/// The parts of the workers follow each other from the beginning of the file, each
/// beginning at a whole chunk; none overlap. Together they reach as far as the
/// workers' shares do, so the whole file where these add up to it.
pub proof fn lemma_segments_follow_each_other(total: int, threads: int, w: int)
    requires
        0 < total,
        0 < threads,
        0 <= w < workers(total, threads),
    ensures
        segment(total, threads, 0).0 == 0,
        segment(total, threads, w).0 % (MAX_CHUNK_SIZE as int) == 0,
        segment(total, threads, w).0 < segment(total, threads, w).1 <= total,
        w + 1 < workers(total, threads) ==> segment(total, threads, w).1 == segment(
            total,
            threads,
            w + 1,
        ).0,
        w + 1 == workers(total, threads) ==> segment(total, threads, w).1 == (if threads * share(
            total,
            threads,
        ) < total {
            threads * share(total, threads)
        } else {
            total
        }),
{
    lemma_share(total, threads);
    lemma_workers(total, threads, w);
    let per = share(total, threads);
    let chunk = MAX_CHUNK_SIZE as int;
    assert((w * per) % chunk == 0) by {
        let k = per / chunk;
        vstd::arithmetic::div_mod::lemma_fundamental_div_mod(per, chunk);
        assert(w * per == (w * k) * chunk) by (nonlinear_arith)
            requires
                per == chunk * k,
        ;
        vstd::arithmetic::div_mod::lemma_mod_multiples_basic(w * k, chunk);
    }
    assert((w + 1) * per == w * per + per) by (nonlinear_arith);
    assert(0 * per == 0);
    if w + 1 < workers(total, threads) {
        lemma_workers(total, threads, w + 1);
    } else if workers(total, threads) < threads {
        lemma_workers(total, threads, w + 1);
        assert((w + 1) * per <= threads * per) by (nonlinear_arith)
            requires
                w + 1 <= threads,
                per > 0,
        ;
    }
}

proof fn lemma_share_is_exact(total: int, threads: int)
    requires
        0 < total,
        0 < threads <= 524288,
    ensures
        ({
            let chunks = (total + 524287) / 524288;
            share(total, threads) == (if chunks < threads {
                524288
            } else {
                chunks / threads * 524288
            })
        }),
{
    let c = 524288int;
    let chunks = (total + c - 1) / c;
    let q = chunks / threads;
    let r = chunks % threads;
    let per = (chunks * c + threads - 1) / threads;
    let more = (r * c + threads - 1) / threads;
    assert(chunks == q * threads + r && 0 <= r < threads) by (nonlinear_arith)
        requires
            threads > 0,
            q == chunks / threads,
            r == chunks % threads,
    ;
    assert(0 <= more < c) by (nonlinear_arith)
        requires
            0 <= r < threads <= c,
            more == (r * c + threads - 1) / threads,
    ;
    assert(per == q * c + more) by (nonlinear_arith)
        requires
            threads > 0,
            chunks == q * threads + r,
            per == (chunks * c + threads - 1) / threads,
            more == (r * c + threads - 1) / threads,
    ;
    assert(per / c == q) by (nonlinear_arith)
        requires
            per == q * c + more,
            0 <= more < c,
    ;
    assert(q >= 0) by (nonlinear_arith)
        requires
            q == chunks / threads,
            chunks >= 0,
            threads > 0,
    ;
    assert(q < 1 <==> chunks < threads) by (nonlinear_arith)
        requires
            chunks == q * threads + r,
            0 <= r < threads,
            0 <= q,
    ;
}

/// The whole file is downloaded where its chunks go round evenly, or where there are no
/// more of them than workers. What is left over otherwise is less than a chunk for each
/// worker.
pub proof fn lemma_segments_cover_the_file(total: int, threads: int)
    requires
        0 < total,
        0 < threads,
    ensures
        ({
            let chunks = (total + 524287) / 524288;
            let end = segment(total, threads, workers(total, threads) - 1).1;
            &&& 1 <= workers(total, threads) <= threads
            &&& chunks <= threads || chunks % threads == 0 ==> end == total
            &&& total - threads * 524288 < end <= total
        }),
{
    let c = 524288int;
    let chunks = (total + c - 1) / c;
    let per = (chunks * c + threads - 1) / threads;
    let s = share(total, threads);
    lemma_share(total, threads);
    lemma_workers(total, threads, 0);
    lemma_segments_follow_each_other(total, threads, workers(total, threads) - 1);
    assert(threads * per >= chunks * c) by (nonlinear_arith)
        requires
            threads > 0,
            per == (chunks * c + threads - 1) / threads,
    ;
    assert(s > per - c);
    assert(threads * s > threads * per - threads * c) by (nonlinear_arith)
        requires
            s > per - c,
            threads > 0,
    ;
    if chunks <= threads {
        assert(threads * s >= chunks * c) by (nonlinear_arith)
            requires
                s >= c,
                threads >= chunks >= 0,
                c > 0,
        ;
    } else if chunks % threads == 0 {
        let k = chunks / threads;
        assert(chunks == k * threads) by (nonlinear_arith)
            requires
                threads > 0,
                k == chunks / threads,
                chunks % threads == 0,
        ;
        assert(per == k * c) by (nonlinear_arith)
            requires
                threads > 0,
                chunks == k * threads,
                per == (chunks * c + threads - 1) / threads,
        ;
        assert(k >= 1) by (nonlinear_arith)
            requires
                chunks == k * threads,
                chunks > threads,
                threads > 0,
        ;
        assert(per / c == k) by {
            vstd::arithmetic::div_mod::lemma_div_by_multiple(k, c);
        }
        assert(threads * s == chunks * c) by (nonlinear_arith)
            requires
                s == k * c,
                chunks == k * threads,
        ;
    }
}

/// The chunks of a file are shared out evenly: as many workers are at work as there are
/// chunks for, and each but the last has the same number of them, as many as go round.
pub proof fn lemma_chunks_are_shared_out(total: int, threads: int, w: int)
    requires
        0 < total,
        0 < threads <= 524288,
        0 <= w < workers(total, threads),
    ensures
        ({
            let chunks = (total + 524287) / 524288;
            let (start, end) = segment(total, threads, w);
            &&& workers(total, threads) == (if chunks < threads {
                chunks
            } else {
                threads
            })
            &&& w + 1 < workers(total, threads) ==> end - start == (if chunks < threads {
                524288
            } else {
                chunks / threads * 524288
            })
        }),
{
    let c = 524288int;
    let chunks = (total + c - 1) / c;
    let s = share(total, threads);
    lemma_share(total, threads);
    lemma_share_is_exact(total, threads);
    lemma_workers(total, threads, w);
    assert((w + 1) * s == w * s + s) by (nonlinear_arith);
    if w + 1 < workers(total, threads) {
        lemma_workers(total, threads, w + 1);
    }
    if chunks < threads {
        lemma_workers(total, threads, chunks);
        lemma_workers(total, threads, chunks - 1);
    } else {
        let q = chunks / threads;
        assert((threads - 1) * (q * c) <= (chunks - 1) * c) by (nonlinear_arith)
            requires
                q == chunks / threads,
                chunks >= threads > 0,
                c > 0,
        ;
        lemma_workers(total, threads, threads - 1);
    }
}

/// A worker that downloads its part of a file.
#[derive(Debug, Clone, Copy)]
pub struct Worker {
    pub offset: u64,
    pub end: u64,
}

impl Worker {
    /// The offset of the chunk to ask for next, if there is one.
    pub fn next_offset(&self) -> (r: Option<u64>)
        ensures
            r == (if self.offset < self.end {
                Some(self.offset)
            } else {
                None
            }),
    {
        if self.offset < self.end {
            Some(self.offset)
        } else {
            None
        }
    }

    /// Counts a chunk that came. A short chunk ends the worker's part.
    pub fn take_chunk(&mut self, len: usize) -> (r: ChunkStep)
        requires
            old(self).offset < old(self).end <= i64::MAX,
            len <= i32::MAX,
        ensures
            r == chunk_step(len as int),
            final(self).end == old(self).end,
            final(self).offset == (if r is End {
                old(self).offset as int
            } else {
                old(self).offset + MAX_CHUNK_SIZE
            }),
    {
        if len == 0 {
            return ChunkStep::End;
        }
        self.offset = self.offset + MAX_CHUNK_SIZE as u64;
        if len < MAX_CHUNK_SIZE as usize {
            ChunkStep::WriteLast
        } else {
            ChunkStep::WriteMore
        }
    }
}

/// The bytes that a worker writes from its offset on when an honest service answers.
pub open spec fn worker_writes(file: Seq<u8>, offset: int, end: int) -> Seq<u8>
    decreases
            (if offset < end {
                end - offset
            } else {
                0
            }),
{
    if offset >= end {
        Seq::empty()
    } else {
        let chunk = chunk_at(file, offset);
        match chunk_step(chunk.len() as int) {
            ChunkStep::End => Seq::empty(),
            ChunkStep::WriteLast => chunk,
            ChunkStep::WriteMore => chunk + worker_writes(file, offset + MAX_CHUNK_SIZE, end),
        }
    }
}

/// A worker writes the bytes of its part from an honest service. The part ends at a
/// whole chunk or with the file.
pub proof fn lemma_worker_writes_its_part(file: Seq<u8>, offset: int, end: int)
    requires
        0 <= offset,
        end <= file.len(),
        end == file.len() || (end - offset) % (MAX_CHUNK_SIZE as int) == 0,
    ensures
        offset <= end ==> worker_writes(file, offset, end) == file.subrange(offset, end),
        offset > end ==> worker_writes(file, offset, end).len() == 0,
    decreases
            (if offset < end {
                end - offset
            } else {
                0
            }),
{
    if offset < end {
        let chunk = chunk_at(file, offset);
        if chunk.len() >= MAX_CHUNK_SIZE {
            let next = offset + MAX_CHUNK_SIZE;
            lemma_worker_writes_its_part(file, next, end);
            if next <= end {
                assert(chunk + file.subrange(next, end) =~= file.subrange(offset, end));
            } else {
                assert(chunk + Seq::<u8>::empty() =~= chunk);
            }
        } else {
            assert(chunk =~= file.subrange(offset, end));
        }
    } else if offset == end {
        assert(worker_writes(file, offset, end) =~= file.subrange(offset, end));
    }
}

/// What the first `n` workers write of a file, one part behind the other.
pub open spec fn parallel_writes(file: Seq<u8>, threads: int, n: int) -> Seq<u8>
    decreases n,
{
    if n <= 0 {
        Seq::empty()
    } else {
        let part = segment(file.len() as int, threads, n - 1);
        parallel_writes(file, threads, n - 1) + worker_writes(file, part.0, part.1)
    }
}

/// Workers that an honest service answers write the file up to where their parts
/// reach: all of it where the workers' shares add up to it.
pub proof fn lemma_parallel_download_writes_the_file(file: Seq<u8>, threads: int)
    requires
        0 < file.len(),
        0 < threads,
    ensures
        threads * share(file.len() as int, threads) >= file.len() ==> parallel_writes(
            file,
            threads,
            workers(file.len() as int, threads),
        ) == file,
        threads * share(file.len() as int, threads) < file.len() ==> parallel_writes(
            file,
            threads,
            workers(file.len() as int, threads),
        ) == file.take(threads * share(file.len() as int, threads)),
{
    let total = file.len() as int;
    lemma_share(total, threads);
    lemma_workers(total, threads, 0);
    let n = workers(total, threads);
    lemma_first_workers_write(file, threads, n);
    lemma_segments_follow_each_other(total, threads, n - 1);
    assert(file.take(total) =~= file);
}

/// A parallel download writes the whole file where its chunks go round evenly, or where
/// there are no more of them than workers; otherwise all of it but less than a chunk for
/// each worker.
pub proof fn lemma_parallel_download_is_complete(file: Seq<u8>, threads: int)
    requires
        0 < file.len(),
        0 < threads,
    ensures
        ({
            let chunks = (file.len() + 524287) / 524288;
            let written = parallel_writes(file, threads, workers(file.len() as int, threads));
            &&& chunks <= threads || chunks as int % threads == 0 ==> written == file
            &&& written.len() > file.len() - threads * 524288
            &&& written.len() <= file.len()
            &&& written == file.take(written.len() as int)
        }),
{
    lemma_parallel_download_writes_the_file(file, threads);
    lemma_segments_cover_the_file(file.len() as int, threads);
    let n = workers(file.len() as int, threads);
    lemma_first_workers_write(file, threads, n);
    assert(file.take(file.len() as int) =~= file);
}

proof fn lemma_first_workers_write(file: Seq<u8>, threads: int, n: int)
    requires
        0 < file.len(),
        0 < threads,
        0 < n <= workers(file.len() as int, threads),
    ensures
        parallel_writes(file, threads, n) == file.take(
            segment(file.len() as int, threads, n - 1).1,
        ),
        0 <= segment(file.len() as int, threads, n - 1).1 <= file.len(),
    decreases n,
{
    let total = file.len() as int;
    let (start, end) = segment(total, threads, n - 1);
    lemma_segments_follow_each_other(total, threads, n - 1);
    lemma_share(total, threads);
    assert(start >= 0) by (nonlinear_arith)
        requires
            start == (n - 1) * share(total, threads),
            n > 0,
            share(total, threads) > 0,
    ;
    lemma_worker_writes_its_part(file, start, end);
    if n > 1 {
        lemma_first_workers_write(file, threads, n - 1);
        lemma_segments_follow_each_other(total, threads, n - 2);
        assert(file.take(start) + file.subrange(start, end) =~= file.take(end));
    } else {
        assert(parallel_writes(file, threads, 0).len() == 0);
        assert(parallel_writes(file, threads, 0) + file.subrange(start, end) =~= file.take(end));
    }
}

/// The first failure among the workers, if any failed.
pub open spec fn first_failed(results: Seq<Result<(), String>>) -> Option<String>
    decreases results.len(),
{
    if results.len() == 0 {
        None
    } else {
        match results[0] {
            Err(e) => Some(e),
            Ok(_) => first_failed(results.drop_first()),
        }
    }
}

/// What the workers' results amount to: the first failure fails the download.
pub fn download_file_parallel(results: &Vec<Result<(), String>>) -> (r: Result<(), String>)
    ensures
        match first_failed(results@) {
            Some(e) => r == Err::<(), String>(e),
            None => r is Ok,
        },
{
    let mut i: usize = 0;
    proof {
        assert(results@.skip(0) =~= results@);
    }
    while i < results.len()
        invariant
            i <= results@.len(),
            first_failed(results@) == first_failed(results@.skip(i as int)),
        decreases results@.len() - i,
    {
        proof {
            assert(results@.skip(i as int).drop_first() =~= results@.skip(i + 1));
        }
        if let Err(e) = &results[i] {
            return Err(e.clone());
        }
        i = i + 1;
    }
    Ok(())
}

/// A download fails exactly where a worker failed, with the failure of the first that did.
pub proof fn lemma_first_failed(results: Seq<Result<(), String>>)
    ensures
        first_failed(results) is None <==> forall|i: int|
            0 <= i < results.len() ==> #[trigger] results[i] is Ok,
        first_failed(results) matches Some(e) ==> exists|k: int|
            {
                &&& 0 <= k < results.len()
                &&& #[trigger] results[k] == Err::<(), String>(e)
                &&& forall|i: int| 0 <= i < k ==> #[trigger] results[i] is Ok
            },
    decreases results.len(),
{
    if results.len() > 0 {
        let rest = results.drop_first();
        lemma_first_failed(rest);
        assert(forall|i: int| 0 <= i < rest.len() ==> #[trigger] rest[i] == results[i + 1]);
        if results[0] is Ok {
            if first_failed(results) is Some {
                let e = first_failed(results)->0;
                let k = choose|k: int|
                    {
                        &&& 0 <= k < rest.len()
                        &&& #[trigger] rest[k] == Err::<(), String>(e)
                        &&& forall|i: int| 0 <= i < k ==> #[trigger] rest[i] is Ok
                    };
                assert(results[k + 1] == Err::<(), String>(e));
                assert forall|i: int| 0 <= i < k + 1 implies #[trigger] results[i] is Ok by {
                    if i > 0 {
                        assert(rest[i - 1] == results[i]);
                    }
                }
            } else {
                assert forall|i: int| 0 <= i < results.len() implies #[trigger] results[i] is Ok by {
                    if i > 0 {
                        assert(rest[i - 1] == results[i]);
                    }
                }
            }
        }
    }
}

// ------------------------------------------------------------ a range as a stream

/// A range of a file that is being sent.
#[derive(Debug, Clone, Copy)]
pub struct RangeStream {
    /// How many bytes the range holds.
    pub total: u64,
    /// How many of them were sent.
    pub emitted: u64,
    /// Where the next chunk is.
    pub offset: i64,
    /// How many bytes of it lie before the range.
    pub skip: u64,
}

/// What to do with a chunk of the file.
#[derive(Debug, Clone, Copy, PartialEq, Eq, Structural)]
pub enum StreamStep {
    /// It lies before the range: ask for the next one.
    Skip,
    /// Send its bytes from `from` up to `to`; then stop if `last`.
    Send { from: usize, to: usize, last: bool },
    /// There is nothing more.
    Stop,
}

/// How many bytes a range holds: one where it ends before it begins.
pub open spec fn range_len(range_start: u64, range_end: u64) -> int {
    let n = if range_end >= range_start {
        range_end - range_start + 1
    } else {
        1
    };
    if n > u64::MAX {
        u64::MAX as int
    } else {
        n
    }
}

/// What a chunk of `len` bytes leads to.
pub open spec fn stream_rule(s: RangeStream, len: int) -> (StreamStep, RangeStream) {
    if len == 0 {
        (StreamStep::Stop, s)
    } else if s.skip > 0 && s.skip >= len {
        (
            StreamStep::Skip,
            RangeStream {
                skip: (s.skip - len) as u64,
                offset: (s.offset + MAX_CHUNK_SIZE) as i64,
                ..s
            },
        )
    } else {
        let rest = len - s.skip;
        let remaining = s.total - s.emitted;
        let take = if rest < remaining {
            rest
        } else {
            remaining
        };
        (
            StreamStep::Send {
                from: s.skip as usize,
                to: (s.skip + take) as usize,
                last: len < MAX_CHUNK_SIZE,
            },
            RangeStream {
                total: s.total,
                emitted: (s.emitted + take) as u64,
                offset: if len < MAX_CHUNK_SIZE {
                    s.offset
                } else {
                    (s.offset + MAX_CHUNK_SIZE) as i64
                },
                skip: 0,
            },
        )
    }
}

pub open spec fn stream_start(range_start: u64, range_end: u64) -> RangeStream {
    RangeStream {
        total: range_len(range_start, range_end) as u64,
        emitted: 0,
        offset: (range_start - range_start as int % (MAX_CHUNK_SIZE as int)) as i64,
        skip: (range_start as int % (MAX_CHUNK_SIZE as int)) as u64,
    }
}

/// Begins to send the bytes from `range_start` to `range_end`, both included.
pub fn stream_file_range(range_start: u64, range_end: u64) -> (r: RangeStream)
    requires
        range_start <= i64::MAX,
    ensures
        r == stream_start(range_start, range_end),
        r.well_formed(),
{
    let chunk: u64 = MAX_CHUNK_SIZE as u64;
    let length: u64 = if range_end >= range_start {
        range_end - range_start
    } else {
        0
    };
    let total: u64 = if length == u64::MAX {
        u64::MAX
    } else {
        length + 1
    };
    let aligned: u64 = (range_start / chunk) * chunk;
    let skip: u64 = range_start - aligned;
    RangeStream { total, emitted: 0, offset: aligned as i64, skip }
}

impl RangeStream {
    pub open spec fn well_formed(self) -> bool {
        &&& self.emitted <= self.total
        &&& self.offset >= 0
    }

    /// Whether the whole range was sent.
    pub fn is_done(&self) -> (r: bool)
        ensures
            r == (self.emitted >= self.total),
    {
        self.emitted >= self.total
    }

    /// Decides what to do with a chunk that came.
    pub fn take_chunk(&mut self, len: usize) -> (r: StreamStep)
        requires
            old(self).well_formed(),
            old(self).offset <= i64::MAX - MAX_CHUNK_SIZE,
            len <= i32::MAX,
        ensures
            (r, *final(self)) == stream_rule(*old(self), len as int),
            final(self).well_formed(),
            r matches StreamStep::Send { from, to, .. } ==> from <= to <= len,
    {
        if len == 0 {
            return StreamStep::Stop;
        }
        let size: u64 = len as u64;
        if self.skip > 0 && self.skip >= size {
            self.skip = self.skip - size;
            self.offset = self.offset + MAX_CHUNK_SIZE as i64;
            return StreamStep::Skip;
        }
        let from: usize = self.skip as usize;
        let rest: u64 = size - self.skip;
        let remaining: u64 = self.total - self.emitted;
        let take: u64 = if rest < remaining {
            rest
        } else {
            remaining
        };
        let last = len < MAX_CHUNK_SIZE as usize;
        self.emitted = self.emitted + take;
        self.skip = 0;
        if !last {
            self.offset = self.offset + MAX_CHUNK_SIZE as i64;
        }
        StreamStep::Send { from, to: from + take as usize, last }
    }
}

/// All that is sent from a state on when an honest service answers.
pub open spec fn sent_from(file: Seq<u8>, s: RangeStream) -> Seq<u8>
    decreases
            (if s.offset < file.len() {
                file.len() - s.offset
            } else {
                0
            }),
{
    if s.emitted >= s.total || s.offset >= file.len() {
        Seq::empty()
    } else {
        let chunk = chunk_at(file, s.offset as int);
        let (step, next) = stream_rule(s, chunk.len() as int);
        match step {
            StreamStep::Stop => Seq::empty(),
            StreamStep::Skip => if next.offset == s.offset + MAX_CHUNK_SIZE {
                sent_from(file, next)
            } else {
                Seq::empty()
            },
            StreamStep::Send { from, to, last } => {
                let out = chunk.subrange(from as int, to as int);
                if last || next.offset != s.offset + MAX_CHUNK_SIZE {
                    out
                } else {
                    out + sent_from(file, next)
                }
            },
        }
    }
}

proof fn lemma_rest_is_sent(file: Seq<u8>, s: RangeStream, at: int, end: int)
    requires
        s.well_formed(),
        s.skip < MAX_CHUNK_SIZE,
        file.len() <= i64::MAX - MAX_CHUNK_SIZE,
        at == s.offset + s.skip,
        s.emitted < s.total ==> at < file.len(),
        end == at + (s.total - s.emitted),
        end <= file.len(),
    ensures
        sent_from(file, s) == file.subrange(at, end),
    decreases file.len() - s.offset,
{
    if s.emitted < s.total {
        let chunk = chunk_at(file, s.offset as int);
        let (step, next) = stream_rule(s, chunk.len() as int);
        assert(s.skip < chunk.len());
        let from = s.skip as int;
        let to = step->to as int;
        let out = chunk.subrange(from, to);
        assert(out =~= file.subrange(at, at + (to - from)));
        if chunk.len() >= MAX_CHUNK_SIZE {
            assert(next.offset == s.offset + MAX_CHUNK_SIZE);
            if next.emitted < next.total {
                assert(at + (to - from) == next.offset);
                lemma_rest_is_sent(file, next, next.offset as int, end);
                assert(out + file.subrange(next.offset as int, end) =~= file.subrange(at, end));
            } else {
                assert(sent_from(file, next).len() == 0);
                assert(out + sent_from(file, next) =~= file.subrange(at, end));
            }
        } else {
            assert(to - from == end - at);
        }
    } else {
        assert(file.subrange(at, end) =~= Seq::empty());
    }
}

/// A range that lies within a file is sent byte for byte when an honest service
/// answers.
pub proof fn lemma_stream_sends_the_range(file: Seq<u8>, range_start: u64, range_end: u64)
    requires
        range_start <= range_end < file.len(),
        file.len() <= i64::MAX - MAX_CHUNK_SIZE,
    ensures
        sent_from(file, stream_start(range_start, range_end)) == file.subrange(
            range_start as int,
            range_end + 1,
        ),
{
    let s = stream_start(range_start, range_end);
    lemma_rest_is_sent(file, s, range_start as int, range_end + 1);
}

/// A range begins to be sent at the chunk that holds its first byte, and holds as many
/// bytes as lie between its ends.
pub proof fn lemma_stream_starts_at_the_range(range_start: u64, range_end: u64)
    requires
        range_start <= range_end < u64::MAX,
        range_start <= i64::MAX,
    ensures
        ({
            let s = stream_start(range_start, range_end);
            &&& s.offset + s.skip == range_start
            &&& s.offset % 524288 == 0
            &&& 0 <= s.skip < 524288
            &&& s.emitted == 0
            &&& s.total == range_end - range_start + 1
        }),
{
}

} // verus!
