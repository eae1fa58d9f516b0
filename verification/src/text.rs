//! Text as sequences of characters: searching, trimming, numbers.
//!
//! Contracts speak of the view `Seq<char>` of a string.

use vstd::prelude::*;
use vstd::string::*;

verus! {

/// Whether two texts have the same characters.
pub(crate) fn same_text(a: &str, b: &str) -> (r: bool)
    ensures
        r == (a@ == b@),
{
    let one: String = a.to_owned();
    let other: String = b.to_owned();
    one == other
}

/// `String::push` appends one character.
pub assume_specification[ String::push ](s: &mut String, c: char)
    ensures
        final(s)@ == old(s)@.push(c),
;

/// What `str::to_uppercase` returns: the Unicode upper-case mapping of a text.
pub uninterp spec fn upper_text(s: Seq<char>) -> Seq<char>;

/// What `str::to_lowercase` returns: the Unicode lower-case mapping of a text.
pub uninterp spec fn lower_text(s: Seq<char>) -> Seq<char>;

/// An ASCII letter in upper case, any other character unchanged.
pub open spec fn ascii_upper(c: char) -> char {
    if 'a' <= c <= 'z' {
        (c as u32 - 32) as char
    } else {
        c
    }
}

/// An ASCII letter in lower case, any other character unchanged.
pub open spec fn ascii_lower(c: char) -> char {
    if 'A' <= c <= 'Z' {
        (c as u32 + 32) as char
    } else {
        c
    }
}

pub open spec fn all_ascii(s: Seq<char>) -> bool {
    forall|i: int| 0 <= i < s.len() ==> (#[trigger] s[i] as u32) < 128
}

/// `str::to_uppercase`: the result is a function of the text alone, and on an
/// ASCII text it changes the letters `a` to `z` and nothing else.
pub assume_specification[ str::to_uppercase ](s: &str) -> (r: String)
    ensures
        r@ == upper_text(s@),
        all_ascii(s@) ==> r@ == s@.map_values(|c: char| ascii_upper(c)),
;

/// `str::to_lowercase`: the result is a function of the text alone, and on an
/// ASCII text it changes the letters `A` to `Z` and nothing else.
pub assume_specification[ str::to_lowercase ](s: &str) -> (r: String)
    ensures
        r@ == lower_text(s@),
        all_ascii(s@) ==> r@ == s@.map_values(|c: char| ascii_lower(c)),
;

/// The characters of a text.
pub fn chars_of(s: &str) -> (r: Vec<char>)
    ensures
        r@ == s@,
{
    let mut out: Vec<char> = Vec::new();
    for c in it: s.chars()
        invariant
            out@ == s@.take(it.index() as int),
            it.seq() == s@,
    {
        out.push(c);
        proof {
            assert(s@.take(it.index() + 1) =~= s@.take(it.index() as int).push(c));
        }
    }
    proof {
        assert(s@.take(s@.len() as int) =~= s@);
    }
    out
}

/// The characters of an optional text.
pub open spec fn opt_text(s: Option<String>) -> Option<Seq<char>> {
    match s {
        Some(t) => Some(t@),
        None => None,
    }
}

/// The characters of an optional borrowed text.
pub open spec fn opt_str(s: Option<&str>) -> Option<Seq<char>> {
    match s {
        Some(t) => Some(t@),
        None => None,
    }
}

/// Copies an optional text.
pub fn copy_opt(s: &Option<String>) -> (r: Option<String>)
    ensures
        r == *s,
{
    match s {
        Some(t) => Some(t.clone()),
        None => None,
    }
}

/// The text, or the empty text where there is none.
pub open spec fn or_empty(s: Option<Seq<char>>) -> Seq<char> {
    match s {
        Some(t) => t,
        None => Seq::empty(),
    }
}

/// Copies an optional text; none becomes the empty text.
pub fn copy_or_empty(s: &Option<String>) -> (r: String)
    ensures
        r@ == or_empty(opt_text(*s)),
{
    match s {
        Some(t) => t.clone(),
        None => String::new(),
    }
}

/// The text that a run of characters spells.
pub fn text_of(cs: &Vec<char>, from: usize, to: usize) -> (r: String)
    requires
        from <= to <= cs@.len(),
    ensures
        r@ == cs@.subrange(from as int, to as int),
{
    let mut out = String::new();
    let mut i: usize = from;
    while i < to
        invariant
            from <= i <= to <= cs@.len(),
            out@ == cs@.subrange(from as int, i as int),
        decreases to - i,
    {
        out.push(cs[i]);
        i = i + 1;
        proof {
            assert(cs@.subrange(from as int, i as int) =~= cs@.subrange(
                from as int,
                i - 1,
            ).push(cs@[i - 1]));
        }
    }
    out
}

/// Two texts, one after the other.
pub fn joined(a: &str, b: &str) -> (r: String)
    ensures
        r@ == a@ + b@,
{
    let mut out = a.to_owned();
    out.append(b);
    out
}

/// Three texts, one after the other.
pub fn joined3(a: &str, b: &str, c: &str) -> (r: String)
    ensures
        r@ == a@ + b@ + c@,
{
    let mut out = a.to_owned();
    out.append(b);
    out.append(c);
    out
}

// ---------------------------------------------------------------- searching

/// `needle` stands in `hay` at position `i`.
pub open spec fn occurs_at(hay: Seq<char>, needle: Seq<char>, i: int) -> bool {
    &&& 0 <= i
    &&& i + needle.len() <= hay.len()
    &&& hay.subrange(i, i + needle.len()) == needle
}

/// `needle` stands somewhere in `hay`.
pub open spec fn has_text(hay: Seq<char>, needle: Seq<char>) -> bool {
    exists|i: int| occurs_at(hay, needle, i)
}

/// `i` is the first position at which `needle` stands in `hay`.
pub open spec fn first_at(hay: Seq<char>, needle: Seq<char>, i: int) -> bool {
    &&& occurs_at(hay, needle, i)
    &&& forall|j: int| 0 <= j < i ==> !#[trigger] occurs_at(hay, needle, j)
}

/// `prefix` stands at the start of `s`.
pub open spec fn begins_with(s: Seq<char>, prefix: Seq<char>) -> bool {
    occurs_at(s, prefix, 0)
}

/// Tests one position.
fn matches_at(hay: &Vec<char>, needle: &Vec<char>, at: usize) -> (r: bool)
    requires
        at <= hay@.len(),
    ensures
        r == occurs_at(hay@, needle@, at as int),
{
    if needle.len() > hay.len() - at {
        return false;
    }
    let mut k: usize = 0;
    while k < needle.len()
        invariant
            k <= needle@.len(),
            at + needle@.len() <= hay.len(),
            forall|j: int| 0 <= j < k ==> hay@[at + j] == #[trigger] needle@[j],
        decreases needle@.len() - k,
    {
        if hay[at + k] != needle[k] {
            proof {
                assert(hay@.subrange(at as int, at + needle@.len())[k as int] == hay@[at + k]);
            }
            return false;
        }
        k = k + 1;
    }
    proof {
        assert(hay@.subrange(at as int, at + needle@.len()) =~= needle@);
    }
    true
}

/// The first position of `needle` in `hay`.
pub fn find_text(hay: &Vec<char>, needle: &Vec<char>) -> (r: Option<usize>)
    ensures
        match r {
            Some(i) => first_at(hay@, needle@, i as int),
            None => !has_text(hay@, needle@),
        },
{
    let mut i: usize = 0;
    loop
        invariant
            i <= hay@.len(),
            forall|j: int| 0 <= j < i ==> !#[trigger] occurs_at(hay@, needle@, j),
        decreases hay@.len() - i,
    {
        if matches_at(hay, needle, i) {
            return Some(i);
        }
        if i == hay.len() {
            return None;
        }
        i = i + 1;
    }
}

/// Whether `needle` stands somewhere in `s`.
pub fn contains_text(s: &str, needle: &str) -> (r: bool)
    ensures
        r == has_text(s@, needle@),
{
    find_text(&chars_of(s), &chars_of(needle)).is_some()
}

/// Whether `s` starts with `prefix`.
pub fn starts_with_text(s: &str, prefix: &str) -> (r: bool)
    ensures
        r == begins_with(s@, prefix@),
{
    matches_at(&chars_of(s), &chars_of(prefix), 0)
}

/// The position of the first `c` in `s`, or the length where there is none.
pub open spec fn pos_of(s: Seq<char>, c: char) -> int
    decreases s.len(),
{
    if s.len() == 0 || s[0] == c {
        0
    } else {
        1 + pos_of(s.drop_first(), c)
    }
}

/// The position of the last `c` in `s`, or -1 where there is none.
pub open spec fn last_pos(s: Seq<char>, c: char) -> int
    decreases s.len(),
{
    if s.len() == 0 {
        -1
    } else if s.last() == c {
        s.len() - 1
    } else {
        last_pos(s.drop_last(), c)
    }
}

/// What `last_pos` finds.
pub proof fn lemma_last_pos(s: Seq<char>, c: char)
    ensures
        -1 <= last_pos(s, c) < s.len(),
        last_pos(s, c) >= 0 ==> s[last_pos(s, c)] == c,
        forall|i: int| last_pos(s, c) < i < s.len() ==> #[trigger] s[i] != c,
    decreases s.len(),
{
    if s.len() > 0 && s.last() != c {
        let front = s.drop_last();
        lemma_last_pos(front, c);
        assert forall|i: int| last_pos(s, c) < i < s.len() implies #[trigger] s[i] != c by {
            if i < front.len() {
                assert(front[i] == s[i]);
            }
        }
    }
}

/// What `pos_of` finds.
pub proof fn lemma_pos_of(s: Seq<char>, c: char)
    ensures
        0 <= pos_of(s, c) <= s.len(),
        forall|i: int| 0 <= i < pos_of(s, c) ==> #[trigger] s[i] != c,
        pos_of(s, c) < s.len() ==> s[pos_of(s, c)] == c,
    decreases s.len(),
{
    if s.len() > 0 && s[0] != c {
        let t = s.drop_first();
        lemma_pos_of(t, c);
        assert forall|i: int| 0 <= i < pos_of(s, c) implies #[trigger] s[i] != c by {
            if i > 0 {
                assert(t[i - 1] == s[i]);
            }
        }
    }
}

/// The part of `s` before the first `sep`; all of it where there is none.
pub open spec fn before_char(s: Seq<char>, sep: char) -> Seq<char> {
    s.take(pos_of(s, sep))
}

/// The part of `s` after the first `sep`, where there is one.
pub open spec fn after_char(s: Seq<char>, sep: char) -> Option<Seq<char>> {
    if pos_of(s, sep) < s.len() {
        Some(s.skip(pos_of(s, sep) + 1))
    } else {
        None
    }
}

/// The second of the parts that `sep` cuts `s` into, where there is one.
pub open spec fn second_part(s: Seq<char>, sep: char) -> Option<Seq<char>> {
    match after_char(s, sep) {
        Some(rest) => Some(before_char(rest, sep)),
        None => None,
    }
}

/// A text is split at the first separator: what stands before it and what follows it are
/// found, and a text without one stays whole.
pub proof fn lemma_split_at_char(a: Seq<char>, sep: char, b: Seq<char>)
    requires
        forall|i: int| 0 <= i < a.len() ==> #[trigger] a[i] != sep,
    ensures
        before_char(a.push(sep) + b, sep) == a,
        after_char(a.push(sep) + b, sep) == Some(b),
        before_char(a, sep) == a,
        after_char(a, sep) is None,
{
    let s = a.push(sep) + b;
    let n = a.len() as int;
    lemma_pos_of(s, sep);
    lemma_pos_of(a, sep);
    assert(s[n] == sep);
    if pos_of(s, sep) < n {
        assert(s[pos_of(s, sep)] == a[pos_of(s, sep)]);
    }
    assert(s.take(n) =~= a);
    assert(s.skip(n + 1) =~= b);
    assert(a.take(n) =~= a);
}

/// What stands between the first separator and the second is the second part.
pub proof fn lemma_second_part(a: Seq<char>, sep: char, b: Seq<char>, rest: Seq<char>)
    requires
        forall|i: int| 0 <= i < a.len() ==> #[trigger] a[i] != sep,
        forall|i: int| 0 <= i < b.len() ==> #[trigger] b[i] != sep,
    ensures
        second_part(a.push(sep) + b, sep) == Some(b),
        second_part(a.push(sep) + (b.push(sep) + rest), sep) == Some(b),
        second_part(a, sep) is None,
{
    lemma_split_at_char(a, sep, b);
    lemma_split_at_char(a, sep, b.push(sep) + rest);
    lemma_split_at_char(b, sep, rest);
}

/// The position of the first `c` at or after `from`, or the length.
pub fn find_char(cs: &Vec<char>, from: usize, c: char) -> (r: usize)
    requires
        from <= cs@.len(),
    ensures
        from <= r <= cs@.len(),
        r == from + pos_of(cs@.skip(from as int), c),
{
    let mut i: usize = from;
    while i < cs.len() && cs[i] != c
        invariant
            from <= i <= cs@.len(),
            forall|j: int| from <= j < i ==> #[trigger] cs@[j] != c,
        decreases cs@.len() - i,
    {
        i = i + 1;
    }
    proof {
        let s = cs@.skip(from as int);
        let k = pos_of(s, c);
        lemma_pos_of(s, c);
        if k < i - from {
            assert(s[k] == cs@[from + k]);
        } else if k > i - from {
            assert(s[i - from] == cs@[i as int]);
        }
    }
    i
}

// ------------------------------------------------------------------ numbers

pub open spec fn is_digit(c: char) -> bool {
    '0' <= c <= '9'
}

/// The value of a decimal digit.
pub open spec fn digit_value(c: char) -> nat {
    (c as int - '0' as int) as nat
}

pub open spec fn all_digits(s: Seq<char>) -> bool {
    forall|i: int| 0 <= i < s.len() ==> is_digit(#[trigger] s[i])
}

/// The number that a run of decimal digits spells.
pub open spec fn digits_value(s: Seq<char>) -> nat
    decreases s.len(),
{
    if s.len() == 0 {
        0
    } else {
        10 * digits_value(s.drop_last()) + digit_value(s.last())
    }
}

/// How many decimal digits `s` starts with.
pub open spec fn digit_count(s: Seq<char>) -> nat
    decreases s.len(),
{
    if s.len() == 0 || !is_digit(s[0]) {
        0
    } else {
        1 + digit_count(s.drop_first())
    }
}

/// The digits that `s` starts with.
pub open spec fn leading_digits(s: Seq<char>) -> Seq<char> {
    s.take(digit_count(s) as int)
}

/// The number that `s` spells, where it is one or more digits and no more than `max`.
pub open spec fn parsed_number(s: Seq<char>, max: nat) -> Option<nat> {
    if s.len() > 0 && all_digits(s) && digits_value(s) <= max {
        Some(digits_value(s))
    } else {
        None
    }
}

proof fn lemma_digit_count(s: Seq<char>)
    ensures
        digit_count(s) <= s.len(),
        all_digits(leading_digits(s)),
        digit_count(s) < s.len() ==> !is_digit(s[digit_count(s) as int]),
    decreases s.len(),
{
    if s.len() > 0 && is_digit(s[0]) {
        let t = s.drop_first();
        lemma_digit_count(t);
        assert forall|i: int| 0 <= i < digit_count(s) implies is_digit(
            #[trigger] leading_digits(s)[i],
        ) by {
            if i > 0 {
                assert(leading_digits(s)[i] == leading_digits(t)[i - 1]);
            }
        }
    }
}

/// Where the digits end that `s` starts with, fixed by what stands there.
proof fn lemma_digit_count_unique(s: Seq<char>, n: int)
    requires
        0 <= n <= s.len(),
        all_digits(s.take(n)),
        n < s.len() ==> !is_digit(s[n]),
    ensures
        digit_count(s) == n,
{
    lemma_digit_count(s);
    if digit_count(s) < n {
        assert(s.take(n)[digit_count(s) as int] == s[digit_count(s) as int]);
    } else if digit_count(s) > n {
        assert(leading_digits(s)[n] == s[n]);
    }
}

/// Where the digits end that start at `from`.
pub fn digits_end(cs: &Vec<char>, from: usize) -> (r: usize)
    requires
        from <= cs@.len(),
    ensures
        from <= r <= cs@.len(),
        r == from + digit_count(cs@.skip(from as int)),
        cs@.subrange(from as int, r as int) == leading_digits(cs@.skip(from as int)),
{
    let mut i: usize = from;
    while i < cs.len() && '0' <= cs[i] && cs[i] <= '9'
        invariant
            from <= i <= cs@.len(),
            forall|j: int| from <= j < i ==> is_digit(#[trigger] cs@[j]),
        decreases cs@.len() - i,
    {
        i = i + 1;
    }
    proof {
        let s = cs@.skip(from as int);
        assert(s.take(i - from) =~= cs@.subrange(from as int, i as int));
        lemma_digit_count_unique(s, i - from);
    }
    i
}

proof fn lemma_digits_value_grows(s: Seq<char>, n: int)
    requires
        0 <= n <= s.len(),
    ensures
        digits_value(s.take(n)) <= digits_value(s),
    decreases s.len() - n,
{
    if n < s.len() {
        lemma_digits_value_grows(s, n + 1);
        assert(s.take(n + 1).drop_last() =~= s.take(n));
    } else {
        assert(s.take(n) =~= s);
    }
}

/// Reads the number that the characters from `from` to `to` spell.
pub fn parse_number(cs: &Vec<char>, from: usize, to: usize, max: u64) -> (r: Option<u64>)
    requires
        from <= to <= cs@.len(),
    ensures
        match parsed_number(cs@.subrange(from as int, to as int), max as nat) {
            Some(n) => r == Some(n as u64) && n <= max,
            None => r is None,
        },
{
    let ghost s = cs@.subrange(from as int, to as int);
    if from == to {
        return None;
    }
    let mut value: u64 = 0;
    let mut i: usize = from;
    while i < to
        invariant
            from <= i <= to <= cs@.len(),
            s == cs@.subrange(from as int, to as int),
            value == digits_value(s.take(i - from)),
            value <= max,
            forall|j: int| 0 <= j < i - from ==> is_digit(#[trigger] s[j]),
        decreases to - i,
    {
        let c = cs[i];
        proof {
            assert(s[i - from] == c);
        }
        if c < '0' || c > '9' {
            return None;
        }
        let d: u64 = c as u64 - 48;
        proof {
            assert(s.take(i - from + 1).drop_last() =~= s.take(i - from));
            lemma_digits_value_grows(s, i - from + 1);
        }
        if value > max / 10 || d > max - value * 10 {
            return None;
        }
        value = value * 10 + d;
        i = i + 1;
    }
    proof {
        assert(s.take(to - from) =~= s);
    }
    Some(value)
}

/// The position at which `needle` first stands in `hay`.
pub open spec fn first_index(hay: Seq<char>, needle: Seq<char>) -> int {
    choose|i: int| first_at(hay, needle, i)
}

/// The number that stands right after the first `pattern` in `s`, where there is one.
pub open spec fn number_after_text(s: Seq<char>, pattern: Seq<char>, max: nat) -> Option<nat> {
    if has_text(s, pattern) {
        parsed_number(leading_digits(s.skip(first_index(s, pattern) + pattern.len())), max)
    } else {
        None
    }
}

/// Reads the number right after the first `pattern`.
pub fn number_after(s: &str, pattern: &str, max: u64) -> (r: Option<u64>)
    ensures
        match number_after_text(s@, pattern@, max as nat) {
            Some(n) => r == Some(n as u64) && n <= max,
            None => r is None,
        },
{
    let hay = chars_of(s);
    let needle = chars_of(pattern);
    match find_text(&hay, &needle) {
        None => None,
        Some(i) => {
            proof {
                assert(occurs_at(s@, pattern@, i as int));
                let k = first_index(s@, pattern@);
                assert(first_at(s@, pattern@, i as int));
                assert(k == i) by {
                    assert(first_at(s@, pattern@, k));
                }
            }
            let total = hay.len();
            proof {
                assert(i + needle@.len() <= total);
            }
            let from: usize = i + needle.len();
            let to: usize = digits_end(&hay, from);
            parse_number(&hay, from, to, max)
        },
    }
}

/// The digit character of a value below ten.
pub open spec fn digit_char(d: nat) -> char {
    (d + 48) as char
}

/// A number in decimal, without leading zeros.
pub open spec fn decimal(n: nat) -> Seq<char>
    decreases n,
{
    if n < 10 {
        seq![digit_char(n)]
    } else {
        decimal(n / 10).push(digit_char(n % 10))
    }
}

/// A number in decimal, with a minus sign where it is negative.
pub open spec fn signed_decimal(n: int) -> Seq<char> {
    if n < 0 {
        seq!['-'] + decimal((-n) as nat)
    } else {
        decimal(n as nat)
    }
}

/// A number in decimal, filled up with zeros on the left to `width` characters.
pub open spec fn padded(n: nat, width: nat) -> Seq<char> {
    zeros((width - decimal(n).len()) as int) + decimal(n)
}

/// A signed number in decimal, filled up with zeros behind its sign to `width` characters.
pub open spec fn padded_signed(n: int, width: int) -> Seq<char> {
    if n < 0 {
        seq!['-'] + zeros(width - 1 - decimal((-n) as nat).len()) + decimal((-n) as nat)
    } else {
        zeros(width - decimal(n as nat).len()) + decimal(n as nat)
    }
}

/// `n` zeros; none where `n` is negative.
pub open spec fn zeros(n: int) -> Seq<char> {
    Seq::new(if n < 0 { 0 } else { n as nat }, |i: int| '0')
}

/// A decimal reads back as the number it was written from.
pub proof fn lemma_decimal_reads_back(n: nat)
    ensures
        decimal(n).len() > 0,
        all_digits(decimal(n)),
        digits_value(decimal(n)) == n,
    decreases n,
{
    if n < 10 {
        let s = decimal(n);
        assert(s.drop_last() =~= Seq::<char>::empty());
        assert(digits_value(s.drop_last()) == 0);
    } else {
        lemma_decimal_reads_back(n / 10);
        assert(decimal(n).drop_last() =~= decimal(n / 10));
    }
}

/// A decimal ends in the last digit of its number, behind the decimal of the rest.
pub proof fn lemma_decimal_digits(n: nat)
    ensures
        decimal(n).len() >= 1,
        decimal(n).last() as int == 48 + n % 10,
        n < 10 ==> decimal(n).len() == 1,
        n >= 10 ==> decimal(n).drop_last() == decimal(n / 10),
{
    if n >= 10 {
        assert(decimal(n).drop_last() =~= decimal(n / 10));
    }
}

/// Different numbers are written differently, and a sign stands before negative ones only.
pub proof fn lemma_signed_decimals_differ(a: int, b: int)
    ensures
        signed_decimal(a) == signed_decimal(b) ==> a == b,
        signed_decimal(a).len() > 0,
        signed_decimal(a)[0] == '-' <==> a < 0,
        a < 0 ==> signed_decimal(a).drop_first() == decimal((-a) as nat),
        a >= 0 ==> signed_decimal(a) == decimal(a as nat),
{
    lemma_signed_decimal(a);
    lemma_signed_decimal(b);
    if signed_decimal(a) == signed_decimal(b) {
        if a < 0 {
            assert(decimal((-a) as nat) == decimal((-b) as nat));
            lemma_decimal_reads_back((-a) as nat);
            lemma_decimal_reads_back((-b) as nat);
        } else {
            lemma_decimal_reads_back(a as nat);
            lemma_decimal_reads_back(b as nat);
        }
    }
}

proof fn lemma_signed_decimal(a: int)
    ensures
        signed_decimal(a).len() > 0,
        signed_decimal(a)[0] == '-' <==> a < 0,
        a < 0 ==> signed_decimal(a).drop_first() == decimal((-a) as nat),
{
    if a < 0 {
        assert(signed_decimal(a).drop_first() =~= decimal((-a) as nat));
    } else {
        lemma_decimal_reads_back(a as nat);
        assert(is_digit(signed_decimal(a)[0]));
    }
}

/// Zeros before a number fill it up to the width and leave its value as it is.
pub proof fn lemma_padding_keeps_the_value(n: nat, width: nat)
    ensures
        padded(n, width).len() == (if decimal(n).len() < width {
            width
        } else {
            decimal(n).len()
        }),
        all_digits(padded(n, width)),
        digits_value(padded(n, width)) == n,
{
    lemma_decimal_reads_back(n);
    let fill = zeros((width - decimal(n).len()) as int);
    lemma_zeros_in_front(fill, decimal(n));
    assert forall|i: int| 0 <= i < padded(n, width).len() implies is_digit(
        #[trigger] padded(n, width)[i],
    ) by {
        if i >= fill.len() {
            assert(padded(n, width)[i] == decimal(n)[i - fill.len()]);
        }
    }
}

proof fn lemma_zeros_in_front(fill: Seq<char>, digits: Seq<char>)
    requires
        forall|i: int| 0 <= i < fill.len() ==> #[trigger] fill[i] == '0',
    ensures
        digits_value(fill + digits) == digits_value(digits),
    decreases fill.len() + digits.len(),
{
    let s = fill + digits;
    if digits.len() > 0 {
        lemma_zeros_in_front(fill, digits.drop_last());
        assert(s.drop_last() =~= fill + digits.drop_last());
    } else if fill.len() > 0 {
        lemma_zeros_in_front(fill.drop_last(), digits);
        assert(s.drop_last() =~= fill.drop_last() + digits);
        assert(s.last() == fill[fill.len() - 1]);
    }
}

/// A decimal is read as its number wherever that does not exceed what is allowed, and
/// nothing but digits is read.
pub proof fn lemma_numbers_are_read(n: nat, s: Seq<char>, max: nat)
    ensures
        parsed_number(decimal(n), max) == (if n <= max {
            Some(n)
        } else {
            None
        }),
        parsed_number(s, max) is Some ==> s.len() > 0 && parsed_number(s, max)->0 <= max && forall|
            i: int,
        |
            0 <= i < s.len() ==> '0' <= #[trigger] s[i] <= '9',
{
    lemma_decimal_reads_back(n);
}

proof fn lemma_leading_digits(digits: Seq<char>, rest: Seq<char>)
    requires
        all_digits(digits),
        rest.len() == 0 || !is_digit(rest[0]),
    ensures
        leading_digits(digits + rest) == digits,
    decreases digits.len(),
{
    lemma_counted_digits(digits, rest);
    assert((digits + rest).take(digits.len() as int) =~= digits);
}

proof fn lemma_counted_digits(digits: Seq<char>, rest: Seq<char>)
    requires
        all_digits(digits),
        rest.len() == 0 || !is_digit(rest[0]),
    ensures
        digit_count(digits + rest) == digits.len(),
    decreases digits.len(),
{
    if digits.len() == 0 {
        assert(digits + rest =~= rest);
    } else {
        let t = digits.drop_first();
        assert forall|i: int| 0 <= i < t.len() implies is_digit(#[trigger] t[i]) by {
            assert(t[i] == digits[i + 1]);
        }
        lemma_counted_digits(t, rest);
        assert((digits + rest).drop_first() =~= t + rest);
        assert(is_digit(digits[0]));
    }
}

/// The number that is written behind the first occurrence of a pattern is read, however
/// long it is and whatever follows it, unless it exceeds what is allowed.
pub proof fn lemma_number_behind_a_pattern(
    before: Seq<char>,
    pattern: Seq<char>,
    n: nat,
    rest: Seq<char>,
    max: nat,
)
    requires
        rest.len() == 0 || !('0' <= rest[0] <= '9'),
        forall|i: int|
            0 <= i < before.len() ==> !#[trigger] occurs_at(
                before + pattern + decimal(n) + rest,
                pattern,
                i,
            ),
    ensures
        number_after_text(before + pattern + decimal(n) + rest, pattern, max) == (if n <= max {
            Some(n)
        } else {
            None
        }),
{
    let s = before + pattern + decimal(n) + rest;
    let at = before.len() as int;
    assert(s.subrange(at, at + pattern.len()) =~= pattern);
    assert(occurs_at(s, pattern, at));
    assert(first_at(s, pattern, at));
    let k = first_index(s, pattern);
    assert(first_at(s, pattern, k));
    assert(k == at);
    assert(s.skip(at + pattern.len()) =~= decimal(n) + rest);
    lemma_decimal_reads_back(n);
    lemma_leading_digits(decimal(n), rest);
}

/// Without the pattern, or without a digit right behind it, there is no number.
pub proof fn lemma_no_number_behind_a_pattern(
    before: Seq<char>,
    pattern: Seq<char>,
    rest: Seq<char>,
    max: nat,
)
    requires
        rest.len() == 0 || !('0' <= rest[0] <= '9'),
        forall|i: int|
            0 <= i < before.len() ==> !#[trigger] occurs_at(before + pattern + rest, pattern, i),
    ensures
        number_after_text(before + pattern + rest, pattern, max) is None,
        !has_text(before, pattern) ==> number_after_text(before, pattern, max) is None,
{
    let s = before + pattern + rest;
    let at = before.len() as int;
    assert(s.subrange(at, at + pattern.len()) =~= pattern);
    assert(occurs_at(s, pattern, at));
    assert(first_at(s, pattern, at));
    let k = first_index(s, pattern);
    assert(first_at(s, pattern, k));
    assert(k == at);
    assert(s.skip(at + pattern.len()) =~= rest);
    lemma_leading_digits(Seq::empty(), rest);
    assert(Seq::<char>::empty() + rest =~= rest);
}

fn digit_of(d: u64) -> (r: char)
    requires
        d < 10,
    ensures
        r == digit_char(d as nat),
{
    (d as u8 + 48) as char
}

/// Writes a number in decimal.
pub fn decimal_text(n: u64) -> (r: String)
    ensures
        r@ == decimal(n as nat),
    decreases n,
{
    if n < 10 {
        let mut out = String::new();
        out.push(digit_of(n));
        proof {
            assert(out@ =~= decimal(n as nat));
        }
        out
    } else {
        let mut out = decimal_text(n / 10);
        out.push(digit_of(n % 10));
        out
    }
}

/// Writes a signed number in decimal.
pub fn signed_text(n: i64) -> (r: String)
    ensures
        r@ == signed_decimal(n as int),
{
    if n < 0 {
        let magnitude: u64 = if n == i64::MIN {
            9_223_372_036_854_775_808
        } else {
            (-n) as u64
        };
        let digits = decimal_text(magnitude);
        let mut out = String::new();
        out.push('-');
        proof {
            assert(out@ =~= seq!['-']);
        }
        out.append(digits.as_str());
        out
    } else {
        decimal_text(n as u64)
    }
}

/// Writes a number in decimal with zeros on the left.
pub fn padded_text(n: u64, width: usize) -> (r: String)
    ensures
        r@ == padded(n as nat, width as nat),
{
    let digits = decimal_text(n);
    let count: usize = digits.as_str().unicode_len();
    let mut out = String::new();
    let mut k: usize = count;
    proof {
        assert(out@ =~= zeros(0));
    }
    while k < width
        invariant
            count == decimal(n as nat).len(),
            count <= k,
            k <= width || k == count,
            out@ == zeros(k - count),
        decreases width - k,
    {
        out.push('0');
        proof {
            assert(zeros(k + 1 - count) =~= zeros(k - count).push('0'));
        }
        k = k + 1;
    }
    proof {
        assert(zeros(k - count) =~= zeros(width - count));
    }
    out.append(digits.as_str());
    out
}

/// Writes a signed number in decimal with zeros behind its sign.
pub fn padded_signed_text(n: i32, width: usize) -> (r: String)
    requires
        width > 0,
    ensures
        r@ == padded_signed(n as int, width as int),
{
    if n < 0 {
        let digits = padded_text((-(n as i64)) as u64, width - 1);
        let mut out = String::new();
        out.push('-');
        proof {
            assert(out@ =~= seq!['-']);
        }
        out.append(digits.as_str());
        proof {
            assert(out@ =~= padded_signed(n as int, width as int));
        }
        out
    } else {
        padded_text(n as u64, width)
    }
}

/// The lower-case hexadecimal digit of a value below sixteen.
pub open spec fn hex_char(d: int) -> char {
    if d < 10 {
        (d + 48) as char
    } else {
        (d + 87) as char
    }
}

/// Two lower-case hexadecimal digits for each byte.
pub open spec fn hex(bytes: Seq<u8>) -> Seq<char> {
    Seq::new(
        2 * bytes.len(),
        |i: int|
            if i % 2 == 0 {
                hex_char(bytes[i / 2] as int / 16)
            } else {
                hex_char(bytes[i / 2] as int % 16)
            },
    )
}

fn hex_digit(d: u8) -> (r: char)
    requires
        d < 16,
    ensures
        r == hex_char(d as int),
{
    if d < 10 {
        (d + 48) as char
    } else {
        (d + 87) as char
    }
}

/// Writes bytes in hexadecimal.
pub fn hex_text(bytes: &Vec<u8>) -> (r: String)
    ensures
        r@ == hex(bytes@),
{
    let mut out = String::new();
    let mut i: usize = 0;
    while i < bytes.len()
        invariant
            i <= bytes@.len(),
            out@ == hex(bytes@.take(i as int)),
        decreases bytes@.len() - i,
    {
        let b = bytes[i];
        out.push(hex_digit(b / 16));
        out.push(hex_digit(b % 16));
        proof {
            let before = hex(bytes@.take(i as int));
            let after = hex(bytes@.take(i + 1));
            assert(after =~= before.push(hex_char(b as int / 16)).push(hex_char(b as int % 16)));
        }
        i = i + 1;
    }
    proof {
        assert(bytes@.take(bytes@.len() as int) =~= bytes@);
    }
    out
}

// ----------------------------------------------------------------- trimming

/// A character with the Unicode property White_Space.
pub open spec fn is_white_space(c: char) -> bool {
    let u = c as u32;
    ||| 9 <= u <= 13
    ||| u == 0x20
    ||| u == 0x85
    ||| u == 0xA0
    ||| u == 0x1680
    ||| 0x2000 <= u <= 0x200A
    ||| u == 0x2028
    ||| u == 0x2029
    ||| u == 0x202F
    ||| u == 0x205F
    ||| u == 0x3000
}

fn white_space(c: char) -> (r: bool)
    ensures
        r == is_white_space(c),
{
    let u = c as u32;
    (9 <= u && u <= 13) || u == 0x20 || u == 0x85 || u == 0xA0 || u == 0x1680 || (0x2000 <= u && u
        <= 0x200A) || u == 0x2028 || u == 0x2029 || u == 0x202F || u == 0x205F || u == 0x3000
}

/// A text without the white space at its two ends.
pub open spec fn trimmed(s: Seq<char>) -> Seq<char>
    decreases s.len(),
{
    if s.len() > 0 && is_white_space(s[0]) {
        trimmed(s.drop_first())
    } else if s.len() > 0 && is_white_space(s.last()) {
        trimmed(s.drop_last())
    } else {
        s
    }
}

/// Nothing but white space.
pub open spec fn is_blank(s: Seq<char>) -> bool {
    forall|i: int| 0 <= i < s.len() ==> is_white_space(#[trigger] s[i])
}

/// A text is blank exactly when nothing of it is left after trimming.
pub proof fn lemma_blank_trims_to_nothing(s: Seq<char>)
    ensures
        is_blank(s) <==> trimmed(s).len() == 0,
    decreases s.len(),
{
    if s.len() > 0 && is_white_space(s[0]) {
        let t = s.drop_first();
        lemma_blank_trims_to_nothing(t);
        assert(is_blank(t) ==> is_blank(s)) by {
            assert forall|i: int| is_blank(t) && 0 <= i < s.len() implies is_white_space(
                #[trigger] s[i],
            ) by {
                if i > 0 {
                    assert(t[i - 1] == s[i]);
                }
            }
        }
        assert(is_blank(s) ==> is_blank(t)) by {
            assert forall|i: int| is_blank(s) && 0 <= i < t.len() implies is_white_space(
                #[trigger] t[i],
            ) by {
                assert(t[i] == s[i + 1]);
            }
        }
    } else if s.len() > 0 && is_white_space(s.last()) {
        assert(!is_blank(s));
        let t = s.drop_last();
        lemma_blank_trims_to_nothing(t);
        assert(s.len() > 1);
        assert(t[0] == s[0]);
    }
}

/// Nothing but white space stands before `from` and from `to` on.
pub open spec fn is_white_around(s: Seq<char>, from: int, to: int) -> bool {
    &&& 0 <= from <= to <= s.len()
    &&& forall|i: int| 0 <= i < from || to <= i < s.len() ==> is_white_space(#[trigger] s[i])
}

/// Trimming takes white space from the two ends of a text, all of it and nothing else.
pub proof fn lemma_trimmed(s: Seq<char>)
    ensures
        exists|from: int, to: int| #[trigger]
            is_white_around(s, from, to) && trimmed(s) == s.subrange(from, to),
        trimmed(s).len() > 0 ==> !is_white_space(trimmed(s)[0]) && !is_white_space(
            trimmed(s).last(),
        ),
    decreases s.len(),
{
    if s.len() > 0 && is_white_space(s[0]) {
        let t = s.drop_first();
        lemma_trimmed(t);
        let (a, b) = choose|from: int, to: int| #[trigger]
            is_white_around(t, from, to) && trimmed(t) == t.subrange(from, to);
        assert(is_white_around(s, a + 1, b + 1)) by {
            assert forall|i: int|
                0 <= i < a + 1 || b + 1 <= i < s.len() implies is_white_space(#[trigger] s[i]) by {
                if i > 0 {
                    assert(t[i - 1] == s[i]);
                }
            }
        }
        assert(s.subrange(a + 1, b + 1) =~= t.subrange(a, b));
    } else if s.len() > 0 && is_white_space(s.last()) {
        let t = s.drop_last();
        lemma_trimmed(t);
        let (a, b) = choose|from: int, to: int| #[trigger]
            is_white_around(t, from, to) && trimmed(t) == t.subrange(from, to);
        assert(is_white_around(s, a, b)) by {
            assert forall|i: int| 0 <= i < a || b <= i < s.len() implies is_white_space(
                #[trigger] s[i],
            ) by {
                if i < t.len() {
                    assert(t[i] == s[i]);
                }
            }
        }
        assert(s.subrange(a, b) =~= t.subrange(a, b));
    } else {
        assert(is_white_around(s, 0, s.len() as int));
        assert(s.subrange(0, s.len() as int) =~= s);
    }
}

/// Of the ASCII characters, blanks, tabs and line ends are white space, and letters,
/// digits and punctuation are not.
pub proof fn lemma_ascii_white_space(c: char)
    requires
        (c as u32) < 128,
    ensures
        is_white_space(c) <==> c == ' ' || 9 <= c as u32 <= 13,
{
}

/// Each byte is written as two digits from which it can be read back.
pub proof fn lemma_hex_digits(bytes: Seq<u8>, i: int)
    requires
        0 <= i < bytes.len(),
    ensures
        hex(bytes).len() == 2 * bytes.len(),
        ({
            let high = hex(bytes)[2 * i] as int;
            let low = hex(bytes)[2 * i + 1] as int;
            let h = if high < 58 {
                high - 48
            } else {
                high - 87
            };
            let l = if low < 58 {
                low - 48
            } else {
                low - 87
            };
            &&& 0 <= h < 16
            &&& 0 <= l < 16
            &&& bytes[i] == 16 * h + l
        }),
{
    assert((2 * i + 1) / 2 == i);
    assert((2 * i) / 2 == i);
}

/// Trims a text.
pub fn trim_text(s: &str) -> (r: String)
    ensures
        r@ == trimmed(s@),
{
    let cs = chars_of(s);
    let mut from: usize = 0;
    let mut to: usize = cs.len();
    proof {
        assert(cs@.subrange(0, to as int) =~= cs@);
    }
    while from < to && white_space(cs[from])
        invariant
            from <= to == cs@.len(),
            trimmed(cs@.subrange(from as int, to as int)) == trimmed(s@),
        decreases to - from,
    {
        proof {
            let t = cs@.subrange(from as int, to as int);
            assert(t.drop_first() =~= cs@.subrange(from + 1, to as int));
        }
        from = from + 1;
    }
    while from < to && white_space(cs[to - 1])
        invariant
            from <= to <= cs@.len(),
            from < to ==> !is_white_space(cs@[from as int]),
            trimmed(cs@.subrange(from as int, to as int)) == trimmed(s@),
        decreases to - from,
    {
        proof {
            let t = cs@.subrange(from as int, to as int);
            assert(t.drop_last() =~= cs@.subrange(from as int, to - 1));
            if from == to - 1 {
                assert(t[0] == cs@[from as int]);
            }
        }
        to = to - 1;
    }
    text_of(&cs, from, to)
}

/// Whether a text holds nothing but white space.
pub fn blank_text(s: &str) -> (r: bool)
    ensures
        r == is_blank(s@),
{
    let cs = chars_of(s);
    let mut i: usize = 0;
    while i < cs.len()
        invariant
            i <= cs@.len(),
            cs@ == s@,
            forall|j: int| 0 <= j < i ==> is_white_space(#[trigger] cs@[j]),
        decreases cs@.len() - i,
    {
        if !white_space(cs[i]) {
            return false;
        }
        i = i + 1;
    }
    true
}

/// A written number holds nothing but digits and a sign, so that it ends where another
/// character stands: texts that begin with a number and such a character agree only where
/// the numbers do.
pub proof fn lemma_numbers_in_front(a: int, b: int, sep: char, x: Seq<char>, y: Seq<char>)
    requires
        sep != '-',
        !('0' <= sep <= '9'),
        signed_decimal(a).push(sep) + x == signed_decimal(b).push(sep) + y,
    ensures
        a == b,
        x == y,
{
    lemma_written_number(a, sep);
    lemma_written_number(b, sep);
    lemma_split_at_char(signed_decimal(a), sep, x);
    lemma_split_at_char(signed_decimal(b), sep, y);
    lemma_signed_decimals_differ(a, b);
}

proof fn lemma_written_number(a: int, sep: char)
    requires
        sep != '-',
        !('0' <= sep <= '9'),
    ensures
        forall|i: int| 0 <= i < signed_decimal(a).len() ==> #[trigger] signed_decimal(a)[i] != sep,
{
    let digits = if a < 0 {
        decimal((-a) as nat)
    } else {
        decimal(a as nat)
    };
    if a < 0 {
        lemma_decimal_reads_back((-a) as nat);
    } else {
        lemma_decimal_reads_back(a as nat);
    }
    assert forall|i: int| 0 <= i < signed_decimal(a).len() implies #[trigger] signed_decimal(a)[i]
        != sep by {
        if a < 0 && i > 0 {
            assert(signed_decimal(a)[i] == digits[i - 1]);
            assert(is_digit(digits[i - 1]));
        } else if a >= 0 {
            assert(is_digit(digits[i]));
        }
    }
}

/// A number also ends where a hyphen stands behind it, even if a sign stands in front.
pub proof fn lemma_numbers_before_a_hyphen(a: int, b: int, x: Seq<char>, y: Seq<char>)
    requires
        signed_decimal(a).push('-') + x == signed_decimal(b).push('-') + y,
    ensures
        a == b,
        x == y,
{
    let s = signed_decimal(a).push('-') + x;
    let t = signed_decimal(b).push('-') + y;
    lemma_signed_decimals_differ(a, b);
    lemma_signed_decimals_differ(b, a);
    assert(s[0] == signed_decimal(a)[0]);
    assert(t[0] == signed_decimal(b)[0]);
    let m = if a < 0 {
        (-a) as nat
    } else {
        a as nat
    };
    let n = if b < 0 {
        (-b) as nat
    } else {
        b as nat
    };
    lemma_decimal_reads_back(m);
    lemma_decimal_reads_back(n);
    assert forall|i: int| 0 <= i < decimal(m).len() implies #[trigger] decimal(m)[i] != '-' by {
        assert(is_digit(decimal(m)[i]));
    }
    assert forall|i: int| 0 <= i < decimal(n).len() implies #[trigger] decimal(n)[i] != '-' by {
        assert(is_digit(decimal(n)[i]));
    }
    lemma_split_at_char(decimal(m), '-', x);
    lemma_split_at_char(decimal(n), '-', y);
    if a < 0 {
        assert(s.drop_first() =~= decimal(m).push('-') + x);
        assert(t.drop_first() =~= decimal(n).push('-') + y);
    }
}

/// A text is found wherever it stands in another, and a text begins with what stands at its
/// beginning; a longer text is in no shorter one.
pub proof fn lemma_texts_are_found(before: Seq<char>, text: Seq<char>, after: Seq<char>)
    ensures
        has_text(before + text + after, text),
        begins_with(text + after, text),
        before.len() < text.len() ==> !has_text(before, text) && !begins_with(before, text),
{
    let s = before + text + after;
    let n = before.len() as int;
    assert(s.subrange(n, n + text.len()) =~= text);
    assert(occurs_at(s, text, n));
    assert((text + after).subrange(0, text.len() as int) =~= text);
}

/// A text that is found stands somewhere, character by character.
pub proof fn lemma_found_text_stands_there(hay: Seq<char>, needle: Seq<char>)
    requires
        has_text(hay, needle),
    ensures
        exists|before: Seq<char>, after: Seq<char>| hay == #[trigger] (before + needle + after),
{
    let i = choose|i: int| occurs_at(hay, needle, i);
    let before = hay.take(i);
    let after = hay.skip(i + needle.len());
    assert(hay =~= before + hay.subrange(i, i + needle.len()) + after);
    assert(hay == before + needle + after);
}

/// A number with a sign is filled up behind it, and one without as any other number.
pub proof fn lemma_padding_with_a_sign(n: nat, width: nat)
    requires
        width > 0,
    ensures
        padded_signed(n as int, width as int) == padded(n, width),
        n > 0 ==> padded_signed(-(n as int), width as int) == seq!['-'] + padded(
            n,
            (width - 1) as nat,
        ),
{
    assert(padded_signed(n as int, width as int) =~= padded(n, width));
    if n > 0 {
        assert(padded_signed(-(n as int), width as int) =~= seq!['-'] + padded(
            n,
            (width - 1) as nat,
        ));
    }
}

} // verus!
