//! Values of the kind that commands bring along: what is read out of them.

use vstd::prelude::*;

use crate::text::same_text;

verus! {

/// A number as it was written.
#[derive(Debug, Clone, Copy)]
pub enum Number {
    /// A whole number that is not negative.
    Unsigned(u64),
    /// A whole number below zero.
    Negative(i64),
    /// Any other number.
    Other,
}

/// A value.
#[derive(Debug)]
pub enum Json {
    Null,
    Bool(bool),
    Number(Number),
    Text(String),
    Array(Vec<Json>),
    Object(Vec<(String, Json)>),
}

/// The value of the first entry with a name.
pub open spec fn entry(entries: Seq<(String, Json)>, name: Seq<char>) -> Option<Json>
    decreases entries.len(),
{
    if entries.len() == 0 {
        None
    } else if entries[0].0@ == name {
        Some(entries[0].1)
    } else {
        entry(entries.drop_first(), name)
    }
}

/// The entry of an object; other values have none.
pub open spec fn field(j: Json, name: Seq<char>) -> Option<Json> {
    match j {
        Json::Object(entries) => entry(entries@, name),
        _ => None,
    }
}

/// The entry under one name, else the one under another.
pub open spec fn either(j: Json, first: Seq<char>, second: Seq<char>) -> Option<Json> {
    match field(j, first) {
        Some(v) => Some(v),
        None => field(j, second),
    }
}

/// Looks up an entry of an object.
pub fn get<'a>(j: &'a Json, name: &str) -> (r: Option<&'a Json>)
    ensures
        match field(*j, name@) {
            Some(v) => r == Some(&v),
            None => r is None,
        },
{
    let entries = match j {
        Json::Object(e) => e,
        _ => return None,
    };
    let mut i: usize = 0;
    proof {
        assert(entries@.skip(0) =~= entries@);
    }
    while i < entries.len()
        invariant
            i <= entries@.len(),
            field(*j, name@) == entry(entries@.skip(i as int), name@),
        decreases entries@.len() - i,
    {
        proof {
            assert(entries@.skip(i as int).drop_first() =~= entries@.skip(i + 1));
        }
        if same_text(entries[i].0.as_str(), name) {
            return Some(&entries[i].1);
        }
        i = i + 1;
    }
    None
}

/// Looks up an entry that may have one of two names.
pub fn get_either<'a>(j: &'a Json, first: &str, second: &str) -> (r: Option<&'a Json>)
    ensures
        match either(*j, first@, second@) {
            Some(v) => r == Some(&v),
            None => r is None,
        },
{
    match get(j, first) {
        Some(v) => Some(v),
        None => get(j, second),
    }
}

/// A whole number.
pub open spec fn whole(j: Json) -> Option<int> {
    match j {
        Json::Number(Number::Unsigned(n)) => Some(n as int),
        Json::Number(Number::Negative(n)) => Some(n as int),
        _ => None,
    }
}

/// A whole number from `low` to `high`.
pub open spec fn whole_between(j: Json, low: int, high: int) -> Option<int> {
    match whole(j) {
        Some(n) => if low <= n <= high {
            Some(n)
        } else {
            None
        },
        None => None,
    }
}

/// Reads a whole number from `low` to `high`.
pub fn integer(j: &Json, low: i128, high: i128) -> (r: Option<i128>)
    ensures
        match whole_between(*j, low as int, high as int) {
            Some(n) => r == Some(n as i128) && low <= n <= high,
            None => r is None,
        },
{
    let n: i128 = match j {
        Json::Number(Number::Unsigned(n)) => *n as i128,
        Json::Number(Number::Negative(n)) => *n as i128,
        _ => return None,
    };
    if low <= n && n <= high {
        Some(n)
    } else {
        None
    }
}

pub open spec fn as_i64(j: Json) -> Option<int> {
    whole_between(j, i64::MIN as int, i64::MAX as int)
}

pub open spec fn as_u64(j: Json) -> Option<int> {
    whole_between(j, 0, u64::MAX as int)
}

pub open spec fn as_bool(j: Json) -> Option<bool> {
    match j {
        Json::Bool(b) => Some(b),
        _ => None,
    }
}

pub open spec fn as_str(j: Json) -> Option<Seq<char>> {
    match j {
        Json::Text(s) => Some(s@),
        _ => None,
    }
}

/// Reads a number of 64 bits.
pub fn read_i64(j: &Json) -> (r: Option<i64>)
    ensures
        match as_i64(*j) {
            Some(n) => r == Some(n as i64) && i64::MIN <= n <= i64::MAX,
            None => r is None,
        },
{
    match integer(j, i64::MIN as i128, i64::MAX as i128) {
        Some(n) => Some(n as i64),
        None => None,
    }
}

/// Reads a number of 64 bits without sign.
pub fn read_u64(j: &Json) -> (r: Option<u64>)
    ensures
        match as_u64(*j) {
            Some(n) => r == Some(n as u64) && 0 <= n <= u64::MAX,
            None => r is None,
        },
{
    match integer(j, 0, u64::MAX as i128) {
        Some(n) => Some(n as u64),
        None => None,
    }
}

/// Reads a truth value.
pub fn read_bool(j: &Json) -> (r: Option<bool>)
    ensures
        r == as_bool(*j),
{
    match j {
        Json::Bool(b) => Some(*b),
        _ => None,
    }
}

/// Reads a text.
pub fn read_str(j: &Json) -> (r: Option<String>)
    ensures
        crate::text::opt_text(r) == as_str(*j),
{
    match j {
        Json::Text(s) => Some(s.clone()),
        _ => None,
    }
}

/// The low bits of a number, as a signed number of 32 bits.
pub open spec fn low_i32(n: int) -> int {
    let m = n % 0x1_0000_0000;
    if m < 0x8000_0000 {
        m
    } else {
        m - 0x1_0000_0000
    }
}

/// A number cut down to 32 bits.
pub fn cut_i32(n: i64) -> (r: i32)
    ensures
        r == low_i32(n as int),
{
    let size: i64 = 0x1_0000_0000;
    let m: i64 = if n >= 0 {
        n % size
    } else {
        size - 1 - ((-(n + 1)) % size)
    };
    proof {
        assert(m == n as int % 0x1_0000_0000);
    }
    let low: i64 = if m < 0x8000_0000 {
        m
    } else {
        m - size
    };
    low as i32
}

/// A number cut down to 8 bits.
pub fn cut_u8(n: i64) -> (r: u8)
    ensures
        r == n as int % 256,
{
    let m: i64 = if n >= 0 {
        n % 256
    } else {
        255 - ((-(n + 1)) % 256)
    };
    m as u8
}

/// A number cut down to 32 bits, without sign.
pub fn cut_u32(n: u64) -> (r: u32)
    ensures
        r == n as int % 0x1_0000_0000,
{
    (n % 0x1_0000_0000) as u32
}

/// Sets an entry of an object, which takes the place of one with its name. Any other
/// value becomes an object first.
pub fn set_field(j: Json, name: &str, value: Json) -> (r: Json)
    ensures
        r is Object,
        field(r, name@) == Some(value),
        forall|other: Seq<char>|
            other != name@ ==> #[trigger] field(r, other) == field(j, other),
{
    let ghost before = j;
    let entries = match j {
        Json::Object(e) => e,
        _ => Vec::new(),
    };
    let ghost all = entries@;
    proof {
        assert forall|other: Seq<char>| #[trigger] field(before, other) == entry(all, other) by {}
    }
    let mut out: Vec<(String, Json)> = Vec::new();
    out.push((name.to_owned(), value));
    let ghost head = out@[0];
    proof {
        assert(out@ =~= seq![head] + without(all.take(0), name@));
    }
    for e in it: entries
        invariant
            it.seq() == all,
            head.0@ == name@,
            head.1 == value,
            out@ == seq![head] + without(all.take(it.index() as int), name@),
    {
        proof {
            reveal(Seq::filter);
            assert(all.take(it.index() + 1).drop_last() =~= all.take(it.index() as int));
        }
        if !same_text(e.0.as_str(), name) {
            out.push(e);
        }
        proof {
            assert(out@ =~= seq![head] + without(all.take(it.index() + 1), name@));
        }
    }
    proof {
        assert(all.take(all.len() as int) =~= all);
        let rest = without(all, name@);
        assert(out@.drop_first() =~= rest);
        assert forall|other: Seq<char>| other != name@ implies #[trigger] entry(out@, other)
            == entry(all, other) by {
            lemma_without(all, name@, other);
        }
    }
    Json::Object(out)
}

/// The entries with other names.
pub open spec fn without(entries: Seq<(String, Json)>, name: Seq<char>) -> Seq<(String, Json)> {
    entries.filter(|e: (String, Json)| e.0@ != name)
}

proof fn lemma_without(entries: Seq<(String, Json)>, name: Seq<char>, other: Seq<char>)
    requires
        other != name,
    ensures
        entry(without(entries, name), other) == entry(entries, other),
    decreases entries.len(),
{
    reveal_with_fuel(Seq::filter, 3);
    if entries.len() > 0 {
        let first = entries[0];
        let rest = entries.drop_first();
        lemma_without(rest, name, other);
        let p = |e: (String, Json)| e.0@ != name;
        assert(entries =~= seq![first] + rest);
        Seq::filter_distributes_over_add(seq![first], rest, p);
        assert(seq![first].drop_last() =~= Seq::empty());
        if p(first) {
            assert(seq![first].filter(p) =~= seq![first]);
            assert(without(entries, name).drop_first() =~= without(rest, name));
        } else {
            assert(seq![first].filter(p) =~= Seq::empty());
            assert(without(entries, name) =~= without(rest, name));
        }
    }
}

/// A field of an object is its first entry with the name, and there is none without one.
pub proof fn lemma_first_entry(entries: Seq<(String, Json)>, name: Seq<char>, k: int)
    requires
        0 <= k <= entries.len(),
        forall|i: int| 0 <= i < k ==> (#[trigger] entries[i]).0@ != name,
    ensures
        k < entries.len() && entries[k].0@ == name ==> entry(entries, name) == Some(entries[k].1),
        k == entries.len() ==> entry(entries, name) is None,
    decreases k,
{
    if k > 0 {
        let rest = entries.drop_first();
        assert(entries[0].0@ != name);
        assert forall|i: int| 0 <= i < k - 1 implies (#[trigger] rest[i]).0@ != name by {
            assert(rest[i] == entries[i + 1]);
        }
        lemma_first_entry(rest, name, k - 1);
    }
}

/// Of two names of a field the first counts where it is there, and else the second.
pub proof fn lemma_either_name(j: Json, first: Seq<char>, second: Seq<char>)
    ensures
        field(j, first) is Some ==> either(j, first, second) == field(j, first),
        field(j, first) is None ==> either(j, first, second) == field(j, second),
        j matches Json::Object(entries) ==> field(j, first) == entry(entries@, first),
        !(j is Object) ==> field(j, first) is None,
{
}

/// Whole numbers are read as they are, within what is allowed, and nothing else is.
pub proof fn lemma_whole_numbers(n: u64, m: i64, j: Json, low: int, high: int)
    ensures
        whole(Json::Number(Number::Unsigned(n))) == Some(n as int),
        whole(Json::Number(Number::Negative(m))) == Some(m as int),
        !(j is Number) ==> whole(j) is None,
        whole_between(j, low, high) == (match whole(j) {
            Some(v) => if low <= v && v <= high {
                Some(v)
            } else {
                None
            },
            None => None,
        }),
{
}

/// The low bits of a number are the number itself where it fits, and differ from it by a
/// multiple of two to the power of thirty-two.
pub proof fn lemma_low_bits(n: int)
    ensures
        -0x8000_0000 <= low_i32(n) < 0x8000_0000,
        low_i32(n) % 0x1_0000_0000 == n % 0x1_0000_0000,
        -0x8000_0000 <= n < 0x8000_0000 ==> low_i32(n) == n,
{
}

/// Truth values, texts and numbers are read as they are, and nothing else is.
pub proof fn lemma_values(b: bool, s: String, n: u64, m: i64, j: Json)
    ensures
        as_bool(Json::Bool(b)) == Some(b),
        !(j is Bool) ==> as_bool(j) is None,
        as_str(Json::Text(s)) == Some(s@),
        !(j is Text) ==> as_str(j) is None,
        as_u64(Json::Number(Number::Unsigned(n))) == Some(n as int),
        m < 0 ==> as_u64(Json::Number(Number::Negative(m))) is None,
        as_i64(Json::Number(Number::Negative(m))) == Some(m as int),
        n <= i64::MAX ==> as_i64(Json::Number(Number::Unsigned(n))) == Some(n as int),
        n > i64::MAX ==> as_i64(Json::Number(Number::Unsigned(n))) is None,
{
}

/// The entries with other names keep their values.
pub proof fn lemma_other_entries_are_kept(
    entries: Seq<(String, Json)>,
    name: Seq<char>,
    other: Seq<char>,
)
    requires
        other != name,
    ensures
        entry(without(entries, name), other) == entry(entries, other),
        forall|i: int|
            0 <= i < without(entries, name).len() ==> (#[trigger] without(entries, name)[i]).0@
                != name,
{
    lemma_without(entries, name, other);
    lemma_names_left(entries, name);
}

proof fn lemma_names_left(entries: Seq<(String, Json)>, name: Seq<char>)
    ensures
        forall|i: int|
            0 <= i < without(entries, name).len() ==> (#[trigger] without(entries, name)[i]).0@
                != name,
    decreases entries.len(),
{
    reveal(Seq::filter);
    if entries.len() > 0 {
        let front = entries.drop_last();
        lemma_names_left(front, name);
        let before = without(front, name);
        let kept = without(entries, name);
        assert(kept == before || kept == before.push(entries.last()));
        assert forall|i: int| 0 <= i < kept.len() implies (#[trigger] kept[i]).0@ != name by {
            if i < before.len() {
                assert(kept[i] == before[i]);
            }
        }
    }
}

} // verus!
