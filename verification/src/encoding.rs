//! Bytes as text in base 64.

use base64::Engine;
use vstd::prelude::*;

use crate::text::all_ascii;

verus! {

/// The character for six bits. The last two differ where the text goes into a URL.
pub open spec fn base64_char(v: int, url: bool) -> char {
    if v < 26 {
        ('A' as int + v) as char
    } else if v < 52 {
        ('a' as int + (v - 26)) as char
    } else if v < 62 {
        ('0' as int + (v - 52)) as char
    } else if v == 62 {
        if url {
            '-'
        } else {
            '+'
        }
    } else if url {
        '_'
    } else {
        '/'
    }
}

/// The text of bytes: four characters for three bytes, and fewer for what is left at
/// the end, filled up with `=` where `pad` says so.
pub open spec fn base64_text(data: Seq<u8>, url: bool, pad: bool) -> Seq<char>
    decreases data.len(),
{
    if data.len() == 0 {
        Seq::empty()
    } else {
        let a = data[0] as int;
        let b = if data.len() > 1 {
            data[1] as int
        } else {
            0
        };
        let c = if data.len() > 2 {
            data[2] as int
        } else {
            0
        };
        let head = seq![
            base64_char(a / 4, url),
            base64_char((a % 4) * 16 + b / 16, url),
        ];
        let third = base64_char((b % 16) * 4 + c / 64, url);
        let fourth = base64_char(c % 64, url);
        if data.len() == 1 {
            if pad {
                head + seq!['=', '=']
            } else {
                head
            }
        } else if data.len() == 2 {
            if pad {
                head + seq![third, '=']
            } else {
                head + seq![third]
            }
        } else {
            head + seq![third, fourth] + base64_text(data.skip(3), url, pad)
        }
    }
}

/// The text of bytes is ASCII; where it is not filled up, three bytes make four
/// characters, and one or two more bytes make two or three.
pub proof fn lemma_base64_text(data: Seq<u8>, url: bool, pad: bool)
    ensures
        all_ascii(base64_text(data, url, pad)),
        !pad ==> base64_text(data, url, pad).len() == (4 * data.len() + 2) / 3,
    decreases data.len(),
{
    if data.len() > 2 {
        lemma_base64_text(data.skip(3), url, pad);
    }
}

/// `base64::engine::general_purpose::STANDARD.encode`: the text of bytes in base 64
/// with the standard alphabet, filled up.
#[verifier::external_body]
pub(crate) fn base64_standard(data: &Vec<u8>) -> (r: String)
    requires
        data@.len() / 3 * 4 + 4 <= usize::MAX,
    ensures
        r@ == base64_text(data@, false, true),
{
    base64::engine::general_purpose::STANDARD.encode(data)
}

/// `base64::engine::general_purpose::URL_SAFE_NO_PAD.encode`: the text of bytes in base
/// 64 with the alphabet for URLs, not filled up.
#[verifier::external_body]
pub(crate) fn base64_url(data: &Vec<u8>) -> (r: String)
    requires
        data@.len() / 3 * 4 + 4 <= usize::MAX,
    ensures
        r@ == base64_text(data@, true, false),
{
    base64::engine::general_purpose::URL_SAFE_NO_PAD.encode(data)
}

/// A picture as text that can stand in a page.
pub fn picture_text(data: &Vec<u8>) -> (r: String)
    requires
        data@.len() / 3 * 4 + 4 <= usize::MAX,
    ensures
        r@ == base64_text(data@, false, true),
{
    base64_standard(data)
}

/// Three bytes are written as four characters, so that the text of a file is that of its
/// parts where these are cut behind a multiple of three bytes.
pub proof fn lemma_base64_of_parts(a: Seq<u8>, b: Seq<u8>, url: bool, pad: bool)
    requires
        a.len() % 3 == 0,
    ensures
        base64_text(a + b, url, pad) == base64_text(a, url, pad) + base64_text(b, url, pad),
    decreases a.len(),
{
    if a.len() == 0 {
        assert(a + b =~= b);
        assert(base64_text(a, url, pad) + base64_text(b, url, pad) =~= base64_text(b, url, pad));
    } else {
        lemma_base64_of_parts(a.skip(3), b, url, pad);
        assert((a + b).skip(3) =~= a.skip(3) + b);
        assert(base64_text(a + b, url, pad) =~= base64_text(a, url, pad) + base64_text(
            b,
            url,
            pad,
        ));
    }
}

/// A text for links holds letters, digits, hyphens and underscores only, and is not filled
/// up.
pub proof fn lemma_link_characters(data: Seq<u8>, i: int)
    requires
        0 <= i < base64_text(data, true, false).len(),
    ensures
        ({
            let c = base64_text(data, true, false)[i];
            'A' <= c <= 'Z' || 'a' <= c <= 'z' || '0' <= c <= '9' || c == '-' || c == '_'
        }),
    decreases data.len(),
{
    if data.len() >= 3 && i >= 4 {
        lemma_link_characters(data.skip(3), i - 4);
    }
}

} // verus!
