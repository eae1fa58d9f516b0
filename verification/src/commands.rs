//! The commands of the plugin: their names, and how their arguments are read.

use vstd::prelude::*;

use crate::commands::telegram::BatchItem;
use crate::json::{
    as_bool, as_i64, as_str, as_u64, cut_i32, cut_u8, either, entry, field, get, get_either, integer,
    lemma_low_bits, low_i32, read_bool, read_i64, read_str, read_u64, whole_between, Json, Number,
};
use crate::text::{joined, joined3, opt_text, same_text};

pub mod telegram;

verus! {

// ------------------------------------------------------------ arguments

/// How an argument is read. Arguments that are needed are refused where they are
/// missing or of another kind; so are those of another kind that have a default, but
/// for texts, truth values and numbers that are cut.
#[derive(Debug, Clone, Copy)]
pub enum Rule {
    NeedI64,
    NeedI32,
    NeedU64,
    NeedUsize,
    NeedStr,
    NeedI32List,
    /// Lists of numbers, of which those of two count.
    NeedPairs,
    /// Chats with their types; what is not one is left out.
    NeedPinned,
    /// The files of a batch.
    NeedItems,
    I64Or(i64),
    I32Or(i32),
    U32Or(u32),
    BoolOr(bool),
    StrOr(&'static str),
    /// A number of which the low 32 bits count.
    CutI32Or(i32),
    OptBool,
    OptStr,
    OptI64,
    OptU64,
    /// Numbers of which the low 32 bits count; what is no number is left out.
    IntList,
    /// Numbers of which the low 8 bits count; what is no number is left out.
    Bytes,
    /// Where a page of chats begins.
    OffsetPeer,
    /// A value that may be missing and is read elsewhere.
    OptRaw,
}

/// An argument: the two names that it may have, the one by which it is called missing,
/// and how it is read.
#[derive(Debug, Clone, Copy)]
pub struct ArgSpec {
    pub first: &'static str,
    pub second: &'static str,
    pub label: &'static str,
    pub rule: Rule,
}

pub open spec fn arg(
    first: &'static str,
    second: &'static str,
    label: &'static str,
    rule: Rule,
) -> ArgSpec {
    ArgSpec { first, second, label, rule }
}

fn arg_spec(
    first: &'static str,
    second: &'static str,
    label: &'static str,
    rule: Rule,
) -> (r: ArgSpec)
    ensures
        r == arg(first, second, label, rule),
{
    ArgSpec { first, second, label, rule }
}

/// An argument that was read.
#[derive(Debug)]
pub enum ArgValue {
    I64(i64),
    I32(i32),
    U32(u32),
    U64(u64),
    Bool(bool),
    Str(String),
    OptBool(Option<bool>),
    OptStr(Option<String>),
    OptI64(Option<i64>),
    OptU64(Option<u64>),
    I32List(Vec<i32>),
    Bytes(Vec<u8>),
    Pairs(Vec<(i64, i64)>),
    Pinned(Vec<(i64, String)>),
    Peer(Option<(i64, String, i64)>),
    Items(Vec<BatchItem>),
    /// Whether there is a value to be read elsewhere.
    Raw(bool),
}

/// Why an argument was refused.
#[derive(Debug, Clone, Copy)]
pub enum ArgFault {
    Missing(ArgSpec),
    Invalid(ArgSpec),
}

// ------------------------------------------------------------ lists

/// The numbers of a list, where all are numbers from `low` to `high`.
pub open spec fn all_whole(a: Seq<Json>, low: int, high: int) -> Option<Seq<int>>
    decreases a.len(),
{
    if a.len() == 0 {
        Some(Seq::empty())
    } else {
        match (all_whole(a.drop_last(), low, high), whole_between(a.last(), low, high)) {
            (Some(before), Some(n)) => Some(before.push(n)),
            _ => None,
        }
    }
}

pub open spec fn ints_of_i32(v: Seq<i32>) -> Seq<int> {
    v.map_values(|n: i32| n as int)
}

pub open spec fn ints_of_i64(v: Seq<i64>) -> Seq<int> {
    v.map_values(|n: i64| n as int)
}

pub open spec fn ints_of_u8(v: Seq<u8>) -> Seq<int> {
    v.map_values(|n: u8| n as int)
}

proof fn lemma_all_whole_prefix(a: Seq<Json>, n: int, low: int, high: int)
    requires
        0 <= n <= a.len(),
        all_whole(a.take(n), low, high) is None,
    ensures
        all_whole(a, low, high) is None,
    decreases a.len(),
{
    if n < a.len() {
        assert(a.drop_last().take(n) =~= a.take(n));
        lemma_all_whole_prefix(a.drop_last(), n, low, high);
    } else {
        assert(a.take(n) =~= a);
    }
}

fn read_i32_list(a: &Vec<Json>) -> (r: Option<Vec<i32>>)
    ensures
        match all_whole(a@, i32::MIN as int, i32::MAX as int) {
            Some(s) => r matches Some(v) && ints_of_i32(v@) == s,
            None => r is None,
        },
{
    let mut out: Vec<i32> = Vec::new();
    let mut i: usize = 0;
    proof {
        assert(ints_of_i32(out@) =~= Seq::empty());
    }
    while i < a.len()
        invariant
            i <= a@.len(),
            all_whole(a@.take(i as int), i32::MIN as int, i32::MAX as int) == Some(
                ints_of_i32(out@),
            ),
        decreases a@.len() - i,
    {
        proof {
            assert(a@.take(i + 1).drop_last() =~= a@.take(i as int));
        }
        match integer(&a[i], i32::MIN as i128, i32::MAX as i128) {
            Some(n) => {
                let ghost before = ints_of_i32(out@);
                out.push(n as i32);
                proof {
                    assert(ints_of_i32(out@) =~= before.push(n as int));
                }
            },
            None => {
                proof {
                    lemma_all_whole_prefix(a@, i + 1, i32::MIN as int, i32::MAX as int);
                }
                return None;
            },
        }
        i = i + 1;
    }
    proof {
        assert(a@.take(i as int) =~= a@);
    }
    Some(out)
}

fn read_i64_list(a: &Vec<Json>) -> (r: Option<Vec<i64>>)
    ensures
        match all_whole(a@, i64::MIN as int, i64::MAX as int) {
            Some(s) => r matches Some(v) && ints_of_i64(v@) == s,
            None => r is None,
        },
{
    let mut out: Vec<i64> = Vec::new();
    let mut i: usize = 0;
    proof {
        assert(ints_of_i64(out@) =~= Seq::empty());
    }
    while i < a.len()
        invariant
            i <= a@.len(),
            all_whole(a@.take(i as int), i64::MIN as int, i64::MAX as int) == Some(
                ints_of_i64(out@),
            ),
        decreases a@.len() - i,
    {
        proof {
            assert(a@.take(i + 1).drop_last() =~= a@.take(i as int));
        }
        match integer(&a[i], i64::MIN as i128, i64::MAX as i128) {
            Some(n) => {
                let ghost before = ints_of_i64(out@);
                out.push(n as i64);
                proof {
                    assert(ints_of_i64(out@) =~= before.push(n as int));
                }
            },
            None => {
                proof {
                    lemma_all_whole_prefix(a@, i + 1, i64::MIN as int, i64::MAX as int);
                }
                return None;
            },
        }
        i = i + 1;
    }
    proof {
        assert(a@.take(i as int) =~= a@);
    }
    Some(out)
}

/// The lists of two numbers among lists of numbers, where all are lists of numbers.
pub open spec fn pairs_of(rows: Seq<Json>) -> Option<Seq<(int, int)>>
    decreases rows.len(),
{
    if rows.len() == 0 {
        Some(Seq::empty())
    } else {
        match (pairs_of(rows.drop_last()), rows.last()) {
            (Some(before), Json::Array(row)) => match all_whole(
                row@,
                i64::MIN as int,
                i64::MAX as int,
            ) {
                Some(n) => if n.len() == 2 {
                    Some(before.push((n[0], n[1])))
                } else {
                    Some(before)
                },
                None => None,
            },
            _ => None,
        }
    }
}

pub open spec fn int_pairs(v: Seq<(i64, i64)>) -> Seq<(int, int)> {
    v.map_values(|p: (i64, i64)| (p.0 as int, p.1 as int))
}

proof fn lemma_pairs_prefix(rows: Seq<Json>, n: int)
    requires
        0 <= n <= rows.len(),
        pairs_of(rows.take(n)) is None,
    ensures
        pairs_of(rows) is None,
    decreases rows.len(),
{
    if n < rows.len() {
        assert(rows.drop_last().take(n) =~= rows.take(n));
        lemma_pairs_prefix(rows.drop_last(), n);
    } else {
        assert(rows.take(n) =~= rows);
    }
}

fn read_pairs(rows: &Vec<Json>) -> (r: Option<Vec<(i64, i64)>>)
    ensures
        match pairs_of(rows@) {
            Some(s) => r matches Some(v) && int_pairs(v@) == s,
            None => r is None,
        },
{
    let mut out: Vec<(i64, i64)> = Vec::new();
    let mut i: usize = 0;
    proof {
        assert(int_pairs(out@) =~= Seq::empty());
    }
    while i < rows.len()
        invariant
            i <= rows@.len(),
            pairs_of(rows@.take(i as int)) == Some(int_pairs(out@)),
        decreases rows@.len() - i,
    {
        proof {
            assert(rows@.take(i + 1).drop_last() =~= rows@.take(i as int));
            if pairs_of(rows@.take(i + 1)) is None {
                lemma_pairs_prefix(rows@, i + 1);
            }
        }
        let row = match &rows[i] {
            Json::Array(row) => row,
            _ => return None,
        };
        match read_i64_list(row) {
            Some(n) => if n.len() == 2 {
                let ghost before = int_pairs(out@);
                proof {
                    let s = ints_of_i64(n@);
                    assert(s[0] == n@[0] && s[1] == n@[1]);
                }
                out.push((n[0], n[1]));
                proof {
                    assert(int_pairs(out@) =~= before.push((n@[0] as int, n@[1] as int)));
                }
            },
            None => return None,
        }
        i = i + 1;
    }
    proof {
        assert(rows@.take(i as int) =~= rows@);
    }
    Some(out)
}

/// A chat with its type.
pub open spec fn pinned_entry(v: Json) -> Option<(i64, Seq<char>)> {
    match (either(v, "chat_id"@, "chatId"@), either(v, "chat_type"@, "chatType"@)) {
        (Some(id), Some(kind)) => match (as_i64(id), as_str(kind)) {
            (Some(n), Some(t)) => Some((n as i64, t)),
            _ => None,
        },
        _ => None,
    }
}

/// The chats with their types among the values of a list.
pub open spec fn pinned_entries(a: Seq<Json>) -> Seq<(i64, Seq<char>)>
    decreases a.len(),
{
    if a.len() == 0 {
        Seq::empty()
    } else {
        let before = pinned_entries(a.drop_last());
        match pinned_entry(a.last()) {
            Some(e) => before.push(e),
            None => before,
        }
    }
}

pub open spec fn named_pairs(v: Seq<(i64, String)>) -> Seq<(i64, Seq<char>)> {
    v.map_values(|p: (i64, String)| (p.0, p.1@))
}

fn read_pinned_entry(v: &Json) -> (r: Option<(i64, String)>)
    ensures
        match pinned_entry(*v) {
            Some(e) => r matches Some(p) && (p.0, p.1@) == e,
            None => r is None,
        },
{
    let id = match get_either(v, "chat_id", "chatId") {
        Some(x) => read_i64(x),
        None => None,
    };
    let kind = match get_either(v, "chat_type", "chatType") {
        Some(x) => read_str(x),
        None => None,
    };
    match (id, kind) {
        (Some(n), Some(t)) => Some((n, t)),
        _ => None,
    }
}

fn read_pinned(a: &Vec<Json>) -> (r: Vec<(i64, String)>)
    ensures
        named_pairs(r@) == pinned_entries(a@),
{
    let mut out: Vec<(i64, String)> = Vec::new();
    let mut i: usize = 0;
    proof {
        assert(named_pairs(out@) =~= Seq::empty());
    }
    while i < a.len()
        invariant
            i <= a@.len(),
            named_pairs(out@) == pinned_entries(a@.take(i as int)),
        decreases a@.len() - i,
    {
        proof {
            assert(a@.take(i + 1).drop_last() =~= a@.take(i as int));
        }
        if let Some(e) = read_pinned_entry(&a[i]) {
            let ghost before = named_pairs(out@);
            let ghost shown = (e.0, e.1@);
            out.push(e);
            proof {
                assert(named_pairs(out@) =~= before.push(shown));
            }
        }
        i = i + 1;
    }
    proof {
        assert(a@.take(i as int) =~= a@);
    }
    out
}

/// A file of a batch: the number of its message, its name and its size.
pub open spec fn item_parts(
    message_id: Option<Json>,
    file_name: Option<Json>,
    file_size: Option<Json>,
) -> Option<(int, Seq<char>, int)> {
    match (message_id, file_name, file_size) {
        (Some(m), Some(n), Some(s)) => match (
            whole_between(m, i32::MIN as int, i32::MAX as int),
            as_str(n),
            whole_between(s, 0, u64::MAX as int),
        ) {
            (Some(id), Some(name), Some(size)) => Some((id, name, size)),
            _ => None,
        },
        _ => None,
    }
}

/// A file of a batch, given by its parts' names or as a list of its parts.
pub open spec fn item_of(v: Json) -> Option<(int, Seq<char>, int)> {
    match v {
        Json::Object(_) => item_parts(
            field(v, "message_id"@),
            field(v, "file_name"@),
            field(v, "file_size"@),
        ),
        Json::Array(a) => if a@.len() == 3 {
            item_parts(Some(a@[0]), Some(a@[1]), Some(a@[2]))
        } else {
            None
        },
        _ => None,
    }
}

/// The files of a batch, where all values of a list are such files.
pub open spec fn items_of(a: Seq<Json>) -> Option<Seq<(int, Seq<char>, int)>>
    decreases a.len(),
{
    if a.len() == 0 {
        Some(Seq::empty())
    } else {
        match (items_of(a.drop_last()), item_of(a.last())) {
            (Some(before), Some(item)) => Some(before.push(item)),
            _ => None,
        }
    }
}

pub open spec fn shown_item(i: BatchItem) -> (int, Seq<char>, int) {
    (i.message_id as int, i.file_name@, i.file_size as int)
}

pub open spec fn shown_items(v: Seq<BatchItem>) -> Seq<(int, Seq<char>, int)> {
    v.map_values(|i: BatchItem| shown_item(i))
}

proof fn lemma_items_prefix(a: Seq<Json>, n: int)
    requires
        0 <= n <= a.len(),
        items_of(a.take(n)) is None,
    ensures
        items_of(a) is None,
    decreases a.len(),
{
    if n < a.len() {
        assert(a.drop_last().take(n) =~= a.take(n));
        lemma_items_prefix(a.drop_last(), n);
    } else {
        assert(a.take(n) =~= a);
    }
}

fn read_item(v: &Json) -> (r: Option<BatchItem>)
    ensures
        match item_of(*v) {
            Some(i) => r matches Some(b) && shown_item(b) == i,
            None => r is None,
        },
{
    let (m, n, s) = match v {
        Json::Object(_) => match (
            get(v, "message_id"),
            get(v, "file_name"),
            get(v, "file_size"),
        ) {
            (Some(m), Some(n), Some(s)) => (m, n, s),
            _ => return None,
        },
        Json::Array(a) => if a.len() == 3 {
            (&a[0], &a[1], &a[2])
        } else {
            return None;
        },
        _ => return None,
    };
    let message_id = integer(m, i32::MIN as i128, i32::MAX as i128);
    let file_size = integer(s, 0, u64::MAX as i128);
    match (message_id, read_str(n), file_size) {
        (Some(id), Some(file_name), Some(size)) => Some(
            BatchItem { message_id: id as i32, file_name, file_size: size as u64 },
        ),
        _ => None,
    }
}

fn read_items(a: &Vec<Json>) -> (r: Option<Vec<BatchItem>>)
    ensures
        match items_of(a@) {
            Some(s) => r matches Some(v) && shown_items(v@) == s,
            None => r is None,
        },
{
    let mut out: Vec<BatchItem> = Vec::new();
    let mut i: usize = 0;
    proof {
        assert(shown_items(out@) =~= Seq::empty());
    }
    while i < a.len()
        invariant
            i <= a@.len(),
            items_of(a@.take(i as int)) == Some(shown_items(out@)),
        decreases a@.len() - i,
    {
        proof {
            assert(a@.take(i + 1).drop_last() =~= a@.take(i as int));
            if items_of(a@.take(i + 1)) is None {
                lemma_items_prefix(a@, i + 1);
            }
        }
        match read_item(&a[i]) {
            Some(item) => {
                let ghost before = shown_items(out@);
                let ghost one = shown_item(item);
                out.push(item);
                proof {
                    assert(shown_items(out@) =~= before.push(one));
                }
            },
            None => return None,
        }
        i = i + 1;
    }
    proof {
        assert(a@.take(i as int) =~= a@);
    }
    Some(out)
}

/// The numbers of a list, each cut down; what is no number is left out.
pub open spec fn cut_numbers(a: Seq<Json>, cut: spec_fn(int) -> int) -> Seq<int>
    decreases a.len(),
{
    if a.len() == 0 {
        Seq::empty()
    } else {
        let before = cut_numbers(a.drop_last(), cut);
        match as_i64(a.last()) {
            Some(n) => before.push(cut(n)),
            None => before,
        }
    }
}

pub open spec fn to_i32() -> spec_fn(int) -> int {
    |n: int| low_i32(n)
}

pub open spec fn to_u8() -> spec_fn(int) -> int {
    |n: int| n % 256
}

fn read_int_list(a: &Vec<Json>) -> (r: Vec<i32>)
    ensures
        ints_of_i32(r@) == cut_numbers(a@, to_i32()),
{
    let mut out: Vec<i32> = Vec::new();
    let mut i: usize = 0;
    proof {
        assert(ints_of_i32(out@) =~= Seq::empty());
    }
    while i < a.len()
        invariant
            i <= a@.len(),
            ints_of_i32(out@) == cut_numbers(a@.take(i as int), to_i32()),
        decreases a@.len() - i,
    {
        proof {
            assert(a@.take(i + 1).drop_last() =~= a@.take(i as int));
        }
        if let Some(n) = read_i64(&a[i]) {
            let ghost before = ints_of_i32(out@);
            out.push(cut_i32(n));
            proof {
                assert(ints_of_i32(out@) =~= before.push(low_i32(n as int)));
            }
        }
        i = i + 1;
    }
    proof {
        assert(a@.take(i as int) =~= a@);
    }
    out
}

fn read_bytes(a: &Vec<Json>) -> (r: Vec<u8>)
    ensures
        ints_of_u8(r@) == cut_numbers(a@, to_u8()),
{
    let mut out: Vec<u8> = Vec::new();
    let mut i: usize = 0;
    proof {
        assert(ints_of_u8(out@) =~= Seq::empty());
    }
    while i < a.len()
        invariant
            i <= a@.len(),
            ints_of_u8(out@) == cut_numbers(a@.take(i as int), to_u8()),
        decreases a@.len() - i,
    {
        proof {
            assert(a@.take(i + 1).drop_last() =~= a@.take(i as int));
        }
        if let Some(n) = read_i64(&a[i]) {
            let ghost before = ints_of_u8(out@);
            out.push(cut_u8(n));
            proof {
                assert(ints_of_u8(out@) =~= before.push(n as int % 256));
            }
        }
        i = i + 1;
    }
    proof {
        assert(a@.take(i as int) =~= a@);
    }
    out
}

/// Where a page of chats begins: a peer with its type and access hash, all of them.
pub open spec fn offset_peer_of(v: Json) -> Option<(i64, Seq<char>, i64)> {
    match (
        either(v, "peer_id"@, "peerId"@),
        either(v, "peer_type"@, "peerType"@),
        either(v, "peer_hash"@, "peerHash"@),
    ) {
        (Some(id), Some(kind), Some(hash)) => match (as_i64(id), as_str(kind), as_i64(hash)) {
            (Some(i), Some(t), Some(h)) => Some((i as i64, t, h as i64)),
            _ => None,
        },
        _ => None,
    }
}

fn read_offset_peer(v: &Json) -> (r: Option<(i64, String, i64)>)
    ensures
        match offset_peer_of(*v) {
            Some(e) => r matches Some(p) && (p.0, p.1@, p.2) == e,
            None => r is None,
        },
{
    let id = match get_either(v, "peer_id", "peerId") {
        Some(x) => read_i64(x),
        None => None,
    };
    let kind = match get_either(v, "peer_type", "peerType") {
        Some(x) => read_str(x),
        None => None,
    };
    let hash = match get_either(v, "peer_hash", "peerHash") {
        Some(x) => read_i64(x),
        None => None,
    };
    match (id, kind, hash) {
        (Some(i), Some(t), Some(h)) => Some((i, t, h)),
        _ => None,
    }
}

// ------------------------------------------------------------ reading one argument

/// `r` is what a whole number from `low` to `high` is read as, by `make`; a value of
/// another kind is refused.
pub open spec fn whole_matches(
    spec: ArgSpec,
    v: Json,
    low: int,
    high: int,
    make: spec_fn(int) -> ArgValue,
    r: Result<ArgValue, ArgFault>,
) -> bool {
    match whole_between(v, low, high) {
        Some(n) => r == Ok::<_, ArgFault>(make(n)),
        None => r == Err::<ArgValue, _>(ArgFault::Invalid(spec)),
    }
}

/// `r` is what a needed argument that is there is read as.
pub open spec fn needed_matches(spec: ArgSpec, v: Json, r: Result<ArgValue, ArgFault>) -> bool {
    let refused = r == Err::<ArgValue, _>(ArgFault::Invalid(spec));
    match spec.rule {
        Rule::NeedI64 => whole_matches(
            spec,
            v,
            i64::MIN as int,
            i64::MAX as int,
            |n: int| ArgValue::I64(n as i64),
            r,
        ),
        Rule::NeedI32 => whole_matches(
            spec,
            v,
            i32::MIN as int,
            i32::MAX as int,
            |n: int| ArgValue::I32(n as i32),
            r,
        ),
        Rule::NeedU64 => whole_matches(
            spec,
            v,
            0,
            u64::MAX as int,
            |n: int| ArgValue::U64(n as u64),
            r,
        ),
        Rule::NeedUsize => whole_matches(
            spec,
            v,
            0,
            usize::MAX as int,
            |n: int| ArgValue::U64(n as u64),
            r,
        ),
        Rule::NeedStr => match as_str(v) {
            Some(t) => r matches Ok(ArgValue::Str(s)) && s@ == t,
            None => refused,
        },
        Rule::NeedI32List => match v {
            Json::Array(a) => match all_whole(a@, i32::MIN as int, i32::MAX as int) {
                Some(s) => r matches Ok(ArgValue::I32List(l)) && ints_of_i32(l@) == s,
                None => refused,
            },
            _ => refused,
        },
        Rule::NeedPairs => match v {
            Json::Array(a) => match pairs_of(a@) {
                Some(s) => r matches Ok(ArgValue::Pairs(l)) && int_pairs(l@) == s,
                None => refused,
            },
            _ => refused,
        },
        Rule::NeedPinned => match v {
            Json::Array(a) => r matches Ok(ArgValue::Pinned(l)) && named_pairs(l@)
                == pinned_entries(a@),
            _ => refused,
        },
        _ => match v {
            Json::Array(a) => match items_of(a@) {
                Some(s) => r matches Ok(ArgValue::Items(l)) && shown_items(l@) == s,
                None => refused,
            },
            _ => refused,
        },
    }
}

pub open spec fn is_needed(rule: Rule) -> bool {
    rule is NeedI64 || rule is NeedI32 || rule is NeedU64 || rule is NeedUsize || rule is NeedStr
        || rule is NeedI32List || rule is NeedPairs || rule is NeedPinned || rule is NeedItems
}

/// `r` is what an argument that may be missing is read as.
pub open spec fn optional_matches(
    spec: ArgSpec,
    found: Option<Json>,
    r: Result<ArgValue, ArgFault>,
) -> bool {
    match spec.rule {
        Rule::I64Or(d) => match found {
            None => r == Ok::<_, ArgFault>(ArgValue::I64(d)),
            Some(v) => whole_matches(
                spec,
                v,
                i64::MIN as int,
                i64::MAX as int,
                |n: int| ArgValue::I64(n as i64),
                r,
            ),
        },
        Rule::I32Or(d) => match found {
            None => r == Ok::<_, ArgFault>(ArgValue::I32(d)),
            Some(v) => whole_matches(
                spec,
                v,
                i32::MIN as int,
                i32::MAX as int,
                |n: int| ArgValue::I32(n as i32),
                r,
            ),
        },
        Rule::U32Or(d) => match found {
            None => r == Ok::<_, ArgFault>(ArgValue::U32(d)),
            Some(v) => whole_matches(
                spec,
                v,
                0,
                u32::MAX as int,
                |n: int| ArgValue::U32(n as u32),
                r,
            ),
        },
        Rule::BoolOr(d) => r == Ok::<_, ArgFault>(
            ArgValue::Bool(
                match found {
                    Some(v) => match as_bool(v) {
                        Some(b) => b,
                        None => d,
                    },
                    None => d,
                },
            ),
        ),
        Rule::StrOr(d) => r matches Ok(ArgValue::Str(s)) && s@ == (match found {
            Some(v) => match as_str(v) {
                Some(t) => t,
                None => d@,
            },
            None => d@,
        }),
        Rule::CutI32Or(d) => r == Ok::<_, ArgFault>(
            ArgValue::I32(
                match found {
                    Some(v) => match as_i64(v) {
                        Some(n) => low_i32(n) as i32,
                        None => d,
                    },
                    None => d,
                },
            ),
        ),
        Rule::OptBool => r == Ok::<_, ArgFault>(
            ArgValue::OptBool(
                match found {
                    Some(v) => as_bool(v),
                    None => None,
                },
            ),
        ),
        Rule::OptStr => r matches Ok(ArgValue::OptStr(s)) && opt_text(s) == (match found {
            Some(v) => as_str(v),
            None => None,
        }),
        Rule::OptI64 => r == Ok::<_, ArgFault>(
            ArgValue::OptI64(
                match found {
                    Some(v) => match as_i64(v) {
                        Some(n) => Some(n as i64),
                        None => None,
                    },
                    None => None,
                },
            ),
        ),
        Rule::OptU64 => r == Ok::<_, ArgFault>(
            ArgValue::OptU64(
                match found {
                    Some(v) => match as_u64(v) {
                        Some(n) => Some(n as u64),
                        None => None,
                    },
                    None => None,
                },
            ),
        ),
        Rule::IntList => r matches Ok(ArgValue::I32List(l)) && ints_of_i32(l@) == (match found {
            Some(Json::Array(a)) => cut_numbers(a@, to_i32()),
            _ => Seq::empty(),
        }),
        Rule::Bytes => r matches Ok(ArgValue::Bytes(l)) && ints_of_u8(l@) == (match found {
            Some(Json::Array(a)) => cut_numbers(a@, to_u8()),
            _ => Seq::empty(),
        }),
        Rule::OffsetPeer => r matches Ok(ArgValue::Peer(p)) && (match p {
            Some((id, kind, hash)) => Some((id, kind@, hash)),
            None => None,
        }) == (match found {
            Some(v) => offset_peer_of(v),
            None => None,
        }),
        _ => r == Ok::<_, ArgFault>(ArgValue::Raw(found is Some)),
    }
}

/// `r` is what an argument of a command is read as.
pub open spec fn argument_matches(spec: ArgSpec, args: Json, r: Result<ArgValue, ArgFault>) -> bool {
    let found = either(args, spec.first@, spec.second@);
    if is_needed(spec.rule) {
        match found {
            None => r == Err::<ArgValue, _>(ArgFault::Missing(spec)),
            Some(v) => needed_matches(spec, v, r),
        }
    } else {
        optional_matches(spec, found, r)
    }
}

fn read_needed(spec: &ArgSpec, v: &Json) -> (r: Result<ArgValue, ArgFault>)
    requires
        is_needed(spec.rule),
    ensures
        needed_matches(*spec, *v, r),
{
    let refused = Err(ArgFault::Invalid(*spec));
    match spec.rule {
        Rule::NeedI64 => match integer(v, i64::MIN as i128, i64::MAX as i128) {
            Some(n) => Ok(ArgValue::I64(n as i64)),
            None => refused,
        },
        Rule::NeedI32 => match integer(v, i32::MIN as i128, i32::MAX as i128) {
            Some(n) => Ok(ArgValue::I32(n as i32)),
            None => refused,
        },
        Rule::NeedU64 => match integer(v, 0, u64::MAX as i128) {
            Some(n) => Ok(ArgValue::U64(n as u64)),
            None => refused,
        },
        Rule::NeedUsize => match integer(v, 0, usize::MAX as i128) {
            Some(n) => Ok(ArgValue::U64(n as u64)),
            None => refused,
        },
        Rule::NeedStr => match read_str(v) {
            Some(s) => Ok(ArgValue::Str(s)),
            None => refused,
        },
        Rule::NeedI32List => match v {
            Json::Array(a) => match read_i32_list(a) {
                Some(l) => Ok(ArgValue::I32List(l)),
                None => refused,
            },
            _ => refused,
        },
        Rule::NeedPairs => match v {
            Json::Array(a) => match read_pairs(a) {
                Some(l) => Ok(ArgValue::Pairs(l)),
                None => refused,
            },
            _ => refused,
        },
        Rule::NeedPinned => match v {
            Json::Array(a) => Ok(ArgValue::Pinned(read_pinned(a))),
            _ => refused,
        },
        _ => match v {
            Json::Array(a) => match read_items(a) {
                Some(l) => Ok(ArgValue::Items(l)),
                None => refused,
            },
            _ => refused,
        },
    }
}

fn read_whole_or(spec: &ArgSpec, v: &Json, low: i128, high: i128) -> (r: Result<i128, ArgFault>)
    ensures
        match whole_between(*v, low as int, high as int) {
            Some(n) => r == Ok::<_, ArgFault>(n as i128) && low <= n <= high,
            None => r == Err::<i128, _>(ArgFault::Invalid(*spec)),
        },
{
    match integer(v, low, high) {
        Some(n) => Ok(n),
        None => Err(ArgFault::Invalid(*spec)),
    }
}

fn read_optional(spec: &ArgSpec, found: Option<&Json>) -> (r: Result<ArgValue, ArgFault>)
    requires
        !is_needed(spec.rule),
    ensures
        optional_matches(
            *spec,
            match found {
                Some(v) => Some(*v),
                None => None,
            },
            r,
        ),
{
    match spec.rule {
        Rule::I64Or(d) => match found {
            None => Ok(ArgValue::I64(d)),
            Some(v) => match read_whole_or(spec, v, i64::MIN as i128, i64::MAX as i128) {
                Ok(n) => Ok(ArgValue::I64(n as i64)),
                Err(e) => Err(e),
            },
        },
        Rule::I32Or(d) => match found {
            None => Ok(ArgValue::I32(d)),
            Some(v) => match read_whole_or(spec, v, i32::MIN as i128, i32::MAX as i128) {
                Ok(n) => Ok(ArgValue::I32(n as i32)),
                Err(e) => Err(e),
            },
        },
        Rule::U32Or(d) => match found {
            None => Ok(ArgValue::U32(d)),
            Some(v) => match read_whole_or(spec, v, 0, u32::MAX as i128) {
                Ok(n) => Ok(ArgValue::U32(n as u32)),
                Err(e) => Err(e),
            },
        },
        Rule::BoolOr(d) => {
            let b = match found {
                Some(v) => read_bool(v),
                None => None,
            };
            match b {
                Some(x) => Ok(ArgValue::Bool(x)),
                None => Ok(ArgValue::Bool(d)),
            }
        },
        Rule::StrOr(d) => {
            let s = match found {
                Some(v) => read_str(v),
                None => None,
            };
            match s {
                Some(t) => Ok(ArgValue::Str(t)),
                None => Ok(ArgValue::Str(d.to_owned())),
            }
        },
        Rule::CutI32Or(d) => {
            let n = match found {
                Some(v) => read_i64(v),
                None => None,
            };
            match n {
                Some(x) => Ok(ArgValue::I32(cut_i32(x))),
                None => Ok(ArgValue::I32(d)),
            }
        },
        Rule::OptBool => match found {
            Some(v) => Ok(ArgValue::OptBool(read_bool(v))),
            None => Ok(ArgValue::OptBool(None)),
        },
        Rule::OptStr => match found {
            Some(v) => Ok(ArgValue::OptStr(read_str(v))),
            None => Ok(ArgValue::OptStr(None)),
        },
        Rule::OptI64 => match found {
            Some(v) => Ok(ArgValue::OptI64(read_i64(v))),
            None => Ok(ArgValue::OptI64(None)),
        },
        Rule::OptU64 => match found {
            Some(v) => Ok(ArgValue::OptU64(read_u64(v))),
            None => Ok(ArgValue::OptU64(None)),
        },
        Rule::IntList => match found {
            Some(Json::Array(a)) => Ok(ArgValue::I32List(read_int_list(a))),
            _ => {
                let none: Vec<i32> = Vec::new();
                proof {
                    assert(ints_of_i32(none@) =~= Seq::empty());
                }
                Ok(ArgValue::I32List(none))
            },
        },
        Rule::Bytes => match found {
            Some(Json::Array(a)) => Ok(ArgValue::Bytes(read_bytes(a))),
            _ => {
                let none: Vec<u8> = Vec::new();
                proof {
                    assert(ints_of_u8(none@) =~= Seq::empty());
                }
                Ok(ArgValue::Bytes(none))
            },
        },
        Rule::OffsetPeer => match found {
            Some(v) => Ok(ArgValue::Peer(read_offset_peer(v))),
            None => Ok(ArgValue::Peer(None)),
        },
        _ => Ok(ArgValue::Raw(found.is_some())),
    }
}

/// Reads one argument of a command.
pub fn read_argument(spec: &ArgSpec, args: &Json) -> (r: Result<ArgValue, ArgFault>)
    ensures
        argument_matches(*spec, *args, r),
{
    let found = get_either(args, spec.first, spec.second);
    let needed = match spec.rule {
        Rule::NeedI64 | Rule::NeedI32 | Rule::NeedU64 | Rule::NeedUsize | Rule::NeedStr
        | Rule::NeedI32List | Rule::NeedPairs | Rule::NeedPinned | Rule::NeedItems => true,
        _ => false,
    };
    if needed {
        match found {
            None => Err(ArgFault::Missing(*spec)),
            Some(v) => read_needed(spec, v),
        }
    } else {
        read_optional(spec, found)
    }
}

/// `r` is what the arguments of a command are read as: all of them, or the fault of the
/// first that is refused.
pub open spec fn arguments_match(
    specs: Seq<ArgSpec>,
    args: Json,
    r: Result<Vec<ArgValue>, ArgFault>,
) -> bool {
    match r {
        Ok(values) => {
            &&& values@.len() == specs.len()
            &&& forall|i: int|
                0 <= i < specs.len() ==> argument_matches(
                    specs[i],
                    args,
                    Ok(#[trigger] values@[i]),
                )
        },
        Err(fault) => exists|k: int| #[trigger]
            first_fault_at(specs, args, k) && argument_matches(specs[k], args, Err(fault)),
    }
}

/// An argument can be read.
pub open spec fn readable(spec: ArgSpec, args: Json) -> bool {
    exists|v: ArgValue| argument_matches(spec, args, Ok(v))
}

/// The arguments before the one at `k` can be read, and that one cannot.
pub open spec fn first_fault_at(specs: Seq<ArgSpec>, args: Json, k: int) -> bool {
    &&& 0 <= k < specs.len()
    &&& !readable(specs[k], args)
    &&& forall|i: int| 0 <= i < k ==> readable(#[trigger] specs[i], args)
}

/// Reads arguments in their order, up to the first that is refused.
pub fn read_arguments(specs: &Vec<ArgSpec>, args: &Json) -> (r: Result<Vec<ArgValue>, ArgFault>)
    ensures
        arguments_match(specs@, *args, r),
{
    let mut values: Vec<ArgValue> = Vec::new();
    let mut i: usize = 0;
    while i < specs.len()
        invariant
            i <= specs@.len(),
            values@.len() == i,
            forall|j: int|
                0 <= j < i ==> argument_matches(specs@[j], *args, Ok(#[trigger] values@[j])),
        decreases specs@.len() - i,
    {
        match read_argument(&specs[i], args) {
            Ok(v) => values.push(v),
            Err(fault) => {
                proof {
                    assert forall|j: int| 0 <= j < i implies readable(
                        #[trigger] specs@[j],
                        *args,
                    ) by {
                        assert(argument_matches(specs@[j], *args, Ok(values@[j])));
                    }
                    assert(argument_matches(specs@[i as int], *args, Err(fault)));
                    assert(first_fault_at(specs@, *args, i as int));
                }
                return Err(fault);
            },
        }
        i = i + 1;
    }
    Ok(values)
}

// ------------------------------------------------------------ the commands

/// The commands.
#[derive(Debug, Clone, Copy, PartialEq, Eq, Structural)]
pub enum Command {
    CheckSession,
    QrStart,
    QrPoll,
    SendCode,
    VerifyCode,
    Verify2fa,
    Logout,
    ListChats,
    ListMedia,
    DiagListMedia,
    ExpandAlbum,
    TakeoutStart,
    TakeoutFinish,
    CancelOp,
    FullChannelInfo,
    SetMute,
    TogglePin,
    SetArchived,
    ReorderPinned,
    DownloadMedia,
    DownloadBatch,
    CancelBatch,
    GetThumbnail,
    SearchMedia,
    GetChatPhoto,
    ClearThumbnailCache,
    GetSelf,
    StreamInfo,
    ListChatsPage,
    RestorePeerHashes,
    CreateFolder,
    DeleteChannel,
    RenameChannel,
    LeaveChannel,
    DeleteHistory,
    ListParticipants,
    SetBlocked,
    ReportPeer,
    PerfGet,
    PerfSet,
    BandwidthStats,
    BandwidthSetQuota,
    BandwidthReset,
    CloneStart,
    CloneStatus,
    CloneList,
    ClonePause,
    CloneCancel,
    CloneDelete,
    AccountsList,
    AccountsSaveCurrent,
    AccountsRestore,
    AccountsRemove,
    AccountsRename,
    AccountsBackupNow,
    AccountsListBackups,
    SyncState,
    SyncNow,
    SyncSettingsSet,
    DeleteMessages,
    ForwardMessages,
    EditCaption,
    SearchGlobal,
    SearchGlobalHits,
    UploadMedia,
}

/// All commands, in the order in which they are listed.
pub open spec fn all_commands() -> Seq<Command> {
    seq![
        Command::CheckSession,
        Command::QrStart,
        Command::QrPoll,
        Command::SendCode,
        Command::VerifyCode,
        Command::Verify2fa,
        Command::Logout,
        Command::ListChats,
        Command::ListMedia,
        Command::DiagListMedia,
        Command::ExpandAlbum,
        Command::TakeoutStart,
        Command::TakeoutFinish,
        Command::CancelOp,
        Command::FullChannelInfo,
        Command::SetMute,
        Command::TogglePin,
        Command::SetArchived,
        Command::ReorderPinned,
        Command::DownloadMedia,
        Command::DownloadBatch,
        Command::CancelBatch,
        Command::GetThumbnail,
        Command::SearchMedia,
        Command::GetChatPhoto,
        Command::ClearThumbnailCache,
        Command::GetSelf,
        Command::StreamInfo,
        Command::ListChatsPage,
        Command::RestorePeerHashes,
        Command::CreateFolder,
        Command::DeleteChannel,
        Command::RenameChannel,
        Command::LeaveChannel,
        Command::DeleteHistory,
        Command::ListParticipants,
        Command::SetBlocked,
        Command::ReportPeer,
        Command::PerfGet,
        Command::PerfSet,
        Command::BandwidthStats,
        Command::BandwidthSetQuota,
        Command::BandwidthReset,
        Command::CloneStart,
        Command::CloneStatus,
        Command::CloneList,
        Command::ClonePause,
        Command::CloneCancel,
        Command::CloneDelete,
        Command::AccountsList,
        Command::AccountsSaveCurrent,
        Command::AccountsRestore,
        Command::AccountsRemove,
        Command::AccountsRename,
        Command::AccountsBackupNow,
        Command::AccountsListBackups,
        Command::SyncState,
        Command::SyncNow,
        Command::SyncSettingsSet,
        Command::DeleteMessages,
        Command::ForwardMessages,
        Command::EditCaption,
        Command::SearchGlobal,
        Command::SearchGlobalHits,
        Command::UploadMedia,
    ]
}

/// The name of a command.
pub open spec fn name_of(c: Command) -> Seq<char> {
    match c {
        Command::CheckSession => "telegram_check_session"@,
        Command::QrStart => "telegram_qr_start"@,
        Command::QrPoll => "telegram_qr_poll"@,
        Command::SendCode => "telegram_send_code"@,
        Command::VerifyCode => "telegram_verify_code"@,
        Command::Verify2fa => "telegram_verify_2fa"@,
        Command::Logout => "telegram_logout"@,
        Command::ListChats => "telegram_list_chats"@,
        Command::ListMedia => "telegram_list_media"@,
        Command::DiagListMedia => "telegram_diag_list_media"@,
        Command::ExpandAlbum => "telegram_expand_album"@,
        Command::TakeoutStart => "telegram_takeout_start"@,
        Command::TakeoutFinish => "telegram_takeout_finish"@,
        Command::CancelOp => "telegram_cancel_op"@,
        Command::FullChannelInfo => "telegram_full_channel_info"@,
        Command::SetMute => "telegram_set_mute"@,
        Command::TogglePin => "telegram_toggle_pin"@,
        Command::SetArchived => "telegram_set_archived"@,
        Command::ReorderPinned => "telegram_reorder_pinned"@,
        Command::DownloadMedia => "telegram_download_media"@,
        Command::DownloadBatch => "telegram_download_batch"@,
        Command::CancelBatch => "telegram_cancel_batch"@,
        Command::GetThumbnail => "telegram_get_thumbnail"@,
        Command::SearchMedia => "telegram_search_media"@,
        Command::GetChatPhoto => "telegram_get_chat_photo"@,
        Command::ClearThumbnailCache => "telegram_clear_thumbnail_cache"@,
        Command::GetSelf => "telegram_get_self"@,
        Command::StreamInfo => "telegram_stream_info"@,
        Command::ListChatsPage => "telegram_list_chats_page"@,
        Command::RestorePeerHashes => "telegram_restore_peer_hashes"@,
        Command::CreateFolder => "telegram_create_folder"@,
        Command::DeleteChannel => "telegram_delete_channel"@,
        Command::RenameChannel => "telegram_rename_channel"@,
        Command::LeaveChannel => "telegram_leave_channel"@,
        Command::DeleteHistory => "telegram_delete_history"@,
        Command::ListParticipants => "telegram_list_participants"@,
        Command::SetBlocked => "telegram_set_blocked"@,
        Command::ReportPeer => "telegram_report_peer"@,
        Command::PerfGet => "telegram_perf_get"@,
        Command::PerfSet => "telegram_perf_set"@,
        Command::BandwidthStats => "telegram_bandwidth_stats"@,
        Command::BandwidthSetQuota => "telegram_bandwidth_set_quota"@,
        Command::BandwidthReset => "telegram_bandwidth_reset"@,
        Command::CloneStart => "telegram_clone_start"@,
        Command::CloneStatus => "telegram_clone_status"@,
        Command::CloneList => "telegram_clone_list"@,
        Command::ClonePause => "telegram_clone_pause"@,
        Command::CloneCancel => "telegram_clone_cancel"@,
        Command::CloneDelete => "telegram_clone_delete"@,
        Command::AccountsList => "telegram_accounts_list"@,
        Command::AccountsSaveCurrent => "telegram_accounts_save_current"@,
        Command::AccountsRestore => "telegram_accounts_restore"@,
        Command::AccountsRemove => "telegram_accounts_remove"@,
        Command::AccountsRename => "telegram_accounts_rename"@,
        Command::AccountsBackupNow => "telegram_accounts_backup_now"@,
        Command::AccountsListBackups => "telegram_accounts_list_backups"@,
        Command::SyncState => "telegram_sync_state"@,
        Command::SyncNow => "telegram_sync_now"@,
        Command::SyncSettingsSet => "telegram_sync_settings_set"@,
        Command::DeleteMessages => "telegram_delete_messages"@,
        Command::ForwardMessages => "telegram_forward_messages"@,
        Command::EditCaption => "telegram_edit_caption"@,
        Command::SearchGlobal => "telegram_search_global"@,
        Command::SearchGlobalHits => "telegram_search_global_hits"@,
        Command::UploadMedia => "telegram_upload_media"@,
    }
}

/// The arguments of a command, in the order in which they are read.
pub open spec fn arguments_of(c: Command) -> Seq<ArgSpec> {
    match c {
        Command::CheckSession => Seq::empty(),
        Command::QrStart => Seq::empty(),
        Command::QrPoll => Seq::empty(),
        Command::SendCode => seq![arg("phone", "phone", "phone", Rule::NeedStr)],
        Command::VerifyCode => seq![arg("code", "code", "code", Rule::NeedStr)],
        Command::Verify2fa => seq![arg("password", "password", "password", Rule::NeedStr)],
        Command::Logout => Seq::empty(),
        Command::ListChats => Seq::empty(),
        Command::ListMedia => seq![
            arg("chat_id", "chatId", "chatId", Rule::NeedI64),
            arg("chat_type", "chatType", "chatType", Rule::NeedStr),
            arg("media_type", "mediaType", "mediaType", Rule::OptStr),
            arg("offset", "offset", "offset", Rule::I32Or(0)),
            arg("limit", "limit", "limit", Rule::U32Or(50)),
        ],
        Command::DiagListMedia => seq![
            arg("chat_id", "chatId", "chatId", Rule::NeedI64),
            arg("chat_type", "chatType", "chatType", Rule::NeedStr),
        ],
        Command::ExpandAlbum => seq![
            arg("chat_id", "chatId", "chatId", Rule::NeedI64),
            arg("chat_type", "chatType", "chatType", Rule::NeedStr),
            arg("message_id", "messageId", "messageId", Rule::NeedI32),
        ],
        Command::TakeoutStart => Seq::empty(),
        Command::TakeoutFinish => seq![arg("success", "success", "success", Rule::BoolOr(false))],
        Command::CancelOp => seq![arg("op_id", "opId", "op_id", Rule::NeedStr)],
        Command::FullChannelInfo => seq![
            arg("chat_id", "chatId", "chatId", Rule::NeedI64),
            arg("chat_type", "chatType", "chatType", Rule::NeedStr),
        ],
        Command::SetMute => seq![
            arg("chat_id", "chatId", "chatId", Rule::NeedI64),
            arg("chat_type", "chatType", "chatType", Rule::NeedStr),
            arg("mute_until", "muteUntil", "muteUntil", Rule::I64Or(0)),
        ],
        Command::TogglePin => seq![
            arg("chat_id", "chatId", "chatId", Rule::NeedI64),
            arg("chat_type", "chatType", "chatType", Rule::NeedStr),
            arg("pinned", "pinned", "pinned", Rule::BoolOr(false)),
        ],
        Command::SetArchived => seq![
            arg("chat_id", "chatId", "chatId", Rule::NeedI64),
            arg("chat_type", "chatType", "chatType", Rule::NeedStr),
            arg("archived", "archived", "archived", Rule::BoolOr(false)),
        ],
        Command::ReorderPinned => seq![arg("items", "items", "items", Rule::NeedPinned)],
        Command::DownloadMedia => seq![
            arg("chat_id", "chatId", "chatId", Rule::NeedI64),
            arg("chat_type", "chatType", "chatType", Rule::NeedStr),
            arg("message_id", "messageId", "messageId", Rule::NeedI32),
            arg("file_name", "fileName", "fileName", Rule::NeedStr),
            arg("output_dir", "outputDir", "outputDir", Rule::NeedStr),
            arg("op_id", "opId", "opId", Rule::OptStr),
        ],
        Command::DownloadBatch => seq![
            arg("chat_id", "chatId", "chatId", Rule::NeedI64),
            arg("chat_type", "chatType", "chatType", Rule::NeedStr),
            arg("chat_title", "chatTitle", "chatTitle", Rule::NeedStr),
            arg("items", "items", "items", Rule::NeedItems),
            arg("output_dir", "outputDir", "outputDir", Rule::NeedStr),
            arg("resume", "resume", "resume", Rule::BoolOr(false)),
        ],
        Command::CancelBatch => seq![arg("batch_id", "batchId", "batchId", Rule::NeedU64)],
        Command::GetThumbnail => seq![
            arg("chat_id", "chatId", "chatId", Rule::NeedI64),
            arg("chat_type", "chatType", "chatType", Rule::NeedStr),
            arg("message_id", "messageId", "messageId", Rule::NeedI32),
        ],
        Command::SearchMedia => seq![
            arg("chat_id", "chatId", "chatId", Rule::NeedI64),
            arg("chat_type", "chatType", "chatType", Rule::NeedStr),
            arg("query", "query", "query", Rule::NeedStr),
            arg("media_type", "mediaType", "mediaType", Rule::OptStr),
            arg("limit", "limit", "limit", Rule::U32Or(50)),
        ],
        Command::GetChatPhoto => seq![
            arg("chat_id", "chatId", "chatId", Rule::NeedI64),
            arg("chat_type", "chatType", "chatType", Rule::NeedStr),
        ],
        Command::ClearThumbnailCache => Seq::empty(),
        Command::GetSelf => Seq::empty(),
        Command::StreamInfo => Seq::empty(),
        Command::ListChatsPage => seq![
            arg("offset_date", "offsetDate", "offsetDate", Rule::CutI32Or(0)),
            arg("offset_id", "offsetId", "offsetId", Rule::CutI32Or(0)),
            arg("limit", "limit", "limit", Rule::CutI32Or(40)),
            arg("offset_peer", "offsetPeer", "offsetPeer", Rule::OffsetPeer),
        ],
        Command::RestorePeerHashes => seq![arg("items", "items", "items", Rule::NeedPairs)],
        Command::CreateFolder => seq![arg("name", "name", "name", Rule::NeedStr)],
        Command::DeleteChannel => seq![arg("chatId", "chat_id", "chatId", Rule::NeedI64)],
        Command::RenameChannel => seq![
            arg("chatId", "chat_id", "chatId", Rule::NeedI64),
            arg("title", "title", "title", Rule::NeedStr),
        ],
        Command::LeaveChannel => seq![
            arg("chatId", "chat_id", "chatId", Rule::NeedI64),
            arg("chatType", "chat_type", "chatType", Rule::NeedStr),
        ],
        Command::DeleteHistory => seq![
            arg("chatId", "chat_id", "chatId", Rule::NeedI64),
            arg("chatType", "chat_type", "chatType", Rule::NeedStr),
            arg("justClear", "just_clear", "justClear", Rule::BoolOr(false)),
            arg("revoke", "revoke", "revoke", Rule::BoolOr(false)),
        ],
        Command::ListParticipants => seq![
            arg("chatId", "chat_id", "chatId", Rule::NeedI64),
            arg("filter", "filter", "filter", Rule::StrOr("recent")),
            arg("offset", "offset", "offset", Rule::CutI32Or(0)),
            arg("limit", "limit", "limit", Rule::CutI32Or(50)),
            arg("search", "search", "search", Rule::OptStr),
        ],
        Command::SetBlocked => seq![
            arg("chatId", "chat_id", "chatId", Rule::NeedI64),
            arg("chatType", "chat_type", "chatType", Rule::NeedStr),
            arg("blocked", "blocked", "blocked", Rule::BoolOr(true)),
        ],
        Command::ReportPeer => seq![
            arg("chatId", "chat_id", "chatId", Rule::NeedI64),
            arg("chatType", "chat_type", "chatType", Rule::NeedStr),
            arg("messageIds", "message_ids", "messageIds", Rule::IntList),
            arg("option", "option", "option", Rule::Bytes),
            arg("message", "message", "message", Rule::StrOr("")),
        ],
        Command::PerfGet => Seq::empty(),
        Command::PerfSet => seq![arg("maxThreads", "max_threads", "maxThreads", Rule::NeedUsize)],
        Command::BandwidthStats => Seq::empty(),
        Command::BandwidthSetQuota => seq![arg("gb", "quotaGb", "gb", Rule::NeedU64)],
        Command::BandwidthReset => Seq::empty(),
        Command::CloneStart => seq![
            arg("sourceId", "source_id", "sourceId", Rule::NeedI64),
            arg("sourceType", "source_type", "sourceType", Rule::NeedStr),
            arg("sourceTitle", "source_title", "sourceTitle", Rule::StrOr("Origem")),
            arg("destId", "dest_id", "destId", Rule::OptI64),
            arg("destType", "dest_type", "destType", Rule::OptStr),
            arg("destTitle", "dest_title", "destTitle", Rule::OptStr),
            arg("resumeId", "resume_id", "resumeId", Rule::OptStr),
            arg("options", "options", "options", Rule::OptRaw),
        ],
        Command::CloneStatus => seq![arg("sessionId", "session_id", "sessionId", Rule::NeedStr)],
        Command::CloneList => Seq::empty(),
        Command::ClonePause => seq![arg("sessionId", "session_id", "sessionId", Rule::NeedStr)],
        Command::CloneCancel => seq![arg("sessionId", "session_id", "sessionId", Rule::NeedStr)],
        Command::CloneDelete => seq![arg("sessionId", "session_id", "sessionId", Rule::NeedStr)],
        Command::AccountsList => Seq::empty(),
        Command::AccountsSaveCurrent => seq![
            arg("label", "label", "label", Rule::StrOr("")),
            arg("phone", "phone", "phone", Rule::OptStr),
            arg("userId", "user_id", "userId", Rule::OptI64),
        ],
        Command::AccountsRestore => seq![arg("id", "id", "id", Rule::NeedStr)],
        Command::AccountsRemove => seq![arg("id", "id", "id", Rule::NeedStr)],
        Command::AccountsRename => seq![
            arg("id", "id", "id", Rule::NeedStr),
            arg("label", "label", "label", Rule::NeedStr),
        ],
        Command::AccountsBackupNow => Seq::empty(),
        Command::AccountsListBackups => Seq::empty(),
        Command::SyncState => Seq::empty(),
        Command::SyncNow => Seq::empty(),
        Command::SyncSettingsSet => seq![
            arg("enabled", "enabled", "enabled", Rule::OptBool),
            arg("intervalMin", "interval_min", "intervalMin", Rule::OptU64),
        ],
        Command::DeleteMessages => seq![
            arg("chat_id", "chatId", "chatId", Rule::NeedI64),
            arg("chat_type", "chatType", "chatType", Rule::NeedStr),
            arg("message_ids", "messageIds", "messageIds", Rule::NeedI32List),
            arg("revoke", "revoke", "revoke", Rule::BoolOr(true)),
        ],
        Command::ForwardMessages => seq![
            arg("from_chat_id", "fromChatId", "fromChatId", Rule::NeedI64),
            arg("from_chat_type", "fromChatType", "fromChatType", Rule::NeedStr),
            arg("to_chat_id", "toChatId", "toChatId", Rule::NeedI64),
            arg("to_chat_type", "toChatType", "toChatType", Rule::NeedStr),
            arg("message_ids", "messageIds", "messageIds", Rule::NeedI32List),
            arg("drop_author", "dropAuthor", "dropAuthor", Rule::BoolOr(false)),
            arg("drop_captions", "dropCaptions", "dropCaptions", Rule::BoolOr(false)),
        ],
        Command::EditCaption => seq![
            arg("chat_id", "chatId", "chatId", Rule::NeedI64),
            arg("chat_type", "chatType", "chatType", Rule::NeedStr),
            arg("message_id", "messageId", "messageId", Rule::NeedI32),
            arg("caption", "caption", "caption", Rule::NeedStr),
        ],
        Command::SearchGlobal => seq![
            arg("query", "query", "query", Rule::NeedStr),
            arg("limit", "limit", "limit", Rule::U32Or(50)),
        ],
        Command::SearchGlobalHits => seq![
            arg("query", "query", "query", Rule::NeedStr),
            arg("limit", "limit", "limit", Rule::U32Or(50)),
        ],
        Command::UploadMedia => seq![
            arg("chat_id", "chatId", "chatId", Rule::NeedI64),
            arg("chat_type", "chatType", "chatType", Rule::NeedStr),
            arg("file_path", "filePath", "filePath", Rule::NeedStr),
            arg("caption", "caption", "caption", Rule::OptStr),
        ],
    }
}

/// The name of a command.
pub fn command_name(c: Command) -> (r: &'static str)
    ensures
        r@ == name_of(c),
{
    match c {
        Command::CheckSession => "telegram_check_session",
        Command::QrStart => "telegram_qr_start",
        Command::QrPoll => "telegram_qr_poll",
        Command::SendCode => "telegram_send_code",
        Command::VerifyCode => "telegram_verify_code",
        Command::Verify2fa => "telegram_verify_2fa",
        Command::Logout => "telegram_logout",
        Command::ListChats => "telegram_list_chats",
        Command::ListMedia => "telegram_list_media",
        Command::DiagListMedia => "telegram_diag_list_media",
        Command::ExpandAlbum => "telegram_expand_album",
        Command::TakeoutStart => "telegram_takeout_start",
        Command::TakeoutFinish => "telegram_takeout_finish",
        Command::CancelOp => "telegram_cancel_op",
        Command::FullChannelInfo => "telegram_full_channel_info",
        Command::SetMute => "telegram_set_mute",
        Command::TogglePin => "telegram_toggle_pin",
        Command::SetArchived => "telegram_set_archived",
        Command::ReorderPinned => "telegram_reorder_pinned",
        Command::DownloadMedia => "telegram_download_media",
        Command::DownloadBatch => "telegram_download_batch",
        Command::CancelBatch => "telegram_cancel_batch",
        Command::GetThumbnail => "telegram_get_thumbnail",
        Command::SearchMedia => "telegram_search_media",
        Command::GetChatPhoto => "telegram_get_chat_photo",
        Command::ClearThumbnailCache => "telegram_clear_thumbnail_cache",
        Command::GetSelf => "telegram_get_self",
        Command::StreamInfo => "telegram_stream_info",
        Command::ListChatsPage => "telegram_list_chats_page",
        Command::RestorePeerHashes => "telegram_restore_peer_hashes",
        Command::CreateFolder => "telegram_create_folder",
        Command::DeleteChannel => "telegram_delete_channel",
        Command::RenameChannel => "telegram_rename_channel",
        Command::LeaveChannel => "telegram_leave_channel",
        Command::DeleteHistory => "telegram_delete_history",
        Command::ListParticipants => "telegram_list_participants",
        Command::SetBlocked => "telegram_set_blocked",
        Command::ReportPeer => "telegram_report_peer",
        Command::PerfGet => "telegram_perf_get",
        Command::PerfSet => "telegram_perf_set",
        Command::BandwidthStats => "telegram_bandwidth_stats",
        Command::BandwidthSetQuota => "telegram_bandwidth_set_quota",
        Command::BandwidthReset => "telegram_bandwidth_reset",
        Command::CloneStart => "telegram_clone_start",
        Command::CloneStatus => "telegram_clone_status",
        Command::CloneList => "telegram_clone_list",
        Command::ClonePause => "telegram_clone_pause",
        Command::CloneCancel => "telegram_clone_cancel",
        Command::CloneDelete => "telegram_clone_delete",
        Command::AccountsList => "telegram_accounts_list",
        Command::AccountsSaveCurrent => "telegram_accounts_save_current",
        Command::AccountsRestore => "telegram_accounts_restore",
        Command::AccountsRemove => "telegram_accounts_remove",
        Command::AccountsRename => "telegram_accounts_rename",
        Command::AccountsBackupNow => "telegram_accounts_backup_now",
        Command::AccountsListBackups => "telegram_accounts_list_backups",
        Command::SyncState => "telegram_sync_state",
        Command::SyncNow => "telegram_sync_now",
        Command::SyncSettingsSet => "telegram_sync_settings_set",
        Command::DeleteMessages => "telegram_delete_messages",
        Command::ForwardMessages => "telegram_forward_messages",
        Command::EditCaption => "telegram_edit_caption",
        Command::SearchGlobal => "telegram_search_global",
        Command::SearchGlobalHits => "telegram_search_global_hits",
        Command::UploadMedia => "telegram_upload_media",
    }
}

/// The arguments of a command, in the order in which they are read.
pub fn command_arguments(c: Command) -> (r: Vec<ArgSpec>)
    ensures
        r@ == arguments_of(c),
{
    let v: Vec<ArgSpec> = match c {
        Command::CheckSession => Vec::new(),
        Command::QrStart => Vec::new(),
        Command::QrPoll => Vec::new(),
        Command::SendCode => {
            let mut v: Vec<ArgSpec> = Vec::new();
            v.push(arg_spec("phone", "phone", "phone", Rule::NeedStr));
            v
        },
        Command::VerifyCode => {
            let mut v: Vec<ArgSpec> = Vec::new();
            v.push(arg_spec("code", "code", "code", Rule::NeedStr));
            v
        },
        Command::Verify2fa => {
            let mut v: Vec<ArgSpec> = Vec::new();
            v.push(arg_spec("password", "password", "password", Rule::NeedStr));
            v
        },
        Command::Logout => Vec::new(),
        Command::ListChats => Vec::new(),
        Command::ListMedia => {
            let mut v: Vec<ArgSpec> = Vec::new();
            v.push(arg_spec("chat_id", "chatId", "chatId", Rule::NeedI64));
            v.push(arg_spec("chat_type", "chatType", "chatType", Rule::NeedStr));
            v.push(arg_spec("media_type", "mediaType", "mediaType", Rule::OptStr));
            v.push(arg_spec("offset", "offset", "offset", Rule::I32Or(0)));
            v.push(arg_spec("limit", "limit", "limit", Rule::U32Or(50)));
            v
        },
        Command::DiagListMedia => {
            let mut v: Vec<ArgSpec> = Vec::new();
            v.push(arg_spec("chat_id", "chatId", "chatId", Rule::NeedI64));
            v.push(arg_spec("chat_type", "chatType", "chatType", Rule::NeedStr));
            v
        },
        Command::ExpandAlbum => {
            let mut v: Vec<ArgSpec> = Vec::new();
            v.push(arg_spec("chat_id", "chatId", "chatId", Rule::NeedI64));
            v.push(arg_spec("chat_type", "chatType", "chatType", Rule::NeedStr));
            v.push(arg_spec("message_id", "messageId", "messageId", Rule::NeedI32));
            v
        },
        Command::TakeoutStart => Vec::new(),
        Command::TakeoutFinish => {
            let mut v: Vec<ArgSpec> = Vec::new();
            v.push(arg_spec("success", "success", "success", Rule::BoolOr(false)));
            v
        },
        Command::CancelOp => {
            let mut v: Vec<ArgSpec> = Vec::new();
            v.push(arg_spec("op_id", "opId", "op_id", Rule::NeedStr));
            v
        },
        Command::FullChannelInfo => {
            let mut v: Vec<ArgSpec> = Vec::new();
            v.push(arg_spec("chat_id", "chatId", "chatId", Rule::NeedI64));
            v.push(arg_spec("chat_type", "chatType", "chatType", Rule::NeedStr));
            v
        },
        Command::SetMute => {
            let mut v: Vec<ArgSpec> = Vec::new();
            v.push(arg_spec("chat_id", "chatId", "chatId", Rule::NeedI64));
            v.push(arg_spec("chat_type", "chatType", "chatType", Rule::NeedStr));
            v.push(arg_spec("mute_until", "muteUntil", "muteUntil", Rule::I64Or(0)));
            v
        },
        Command::TogglePin => {
            let mut v: Vec<ArgSpec> = Vec::new();
            v.push(arg_spec("chat_id", "chatId", "chatId", Rule::NeedI64));
            v.push(arg_spec("chat_type", "chatType", "chatType", Rule::NeedStr));
            v.push(arg_spec("pinned", "pinned", "pinned", Rule::BoolOr(false)));
            v
        },
        Command::SetArchived => {
            let mut v: Vec<ArgSpec> = Vec::new();
            v.push(arg_spec("chat_id", "chatId", "chatId", Rule::NeedI64));
            v.push(arg_spec("chat_type", "chatType", "chatType", Rule::NeedStr));
            v.push(arg_spec("archived", "archived", "archived", Rule::BoolOr(false)));
            v
        },
        Command::ReorderPinned => {
            let mut v: Vec<ArgSpec> = Vec::new();
            v.push(arg_spec("items", "items", "items", Rule::NeedPinned));
            v
        },
        Command::DownloadMedia => {
            let mut v: Vec<ArgSpec> = Vec::new();
            v.push(arg_spec("chat_id", "chatId", "chatId", Rule::NeedI64));
            v.push(arg_spec("chat_type", "chatType", "chatType", Rule::NeedStr));
            v.push(arg_spec("message_id", "messageId", "messageId", Rule::NeedI32));
            v.push(arg_spec("file_name", "fileName", "fileName", Rule::NeedStr));
            v.push(arg_spec("output_dir", "outputDir", "outputDir", Rule::NeedStr));
            v.push(arg_spec("op_id", "opId", "opId", Rule::OptStr));
            v
        },
        Command::DownloadBatch => {
            let mut v: Vec<ArgSpec> = Vec::new();
            v.push(arg_spec("chat_id", "chatId", "chatId", Rule::NeedI64));
            v.push(arg_spec("chat_type", "chatType", "chatType", Rule::NeedStr));
            v.push(arg_spec("chat_title", "chatTitle", "chatTitle", Rule::NeedStr));
            v.push(arg_spec("items", "items", "items", Rule::NeedItems));
            v.push(arg_spec("output_dir", "outputDir", "outputDir", Rule::NeedStr));
            v.push(arg_spec("resume", "resume", "resume", Rule::BoolOr(false)));
            v
        },
        Command::CancelBatch => {
            let mut v: Vec<ArgSpec> = Vec::new();
            v.push(arg_spec("batch_id", "batchId", "batchId", Rule::NeedU64));
            v
        },
        Command::GetThumbnail => {
            let mut v: Vec<ArgSpec> = Vec::new();
            v.push(arg_spec("chat_id", "chatId", "chatId", Rule::NeedI64));
            v.push(arg_spec("chat_type", "chatType", "chatType", Rule::NeedStr));
            v.push(arg_spec("message_id", "messageId", "messageId", Rule::NeedI32));
            v
        },
        Command::SearchMedia => {
            let mut v: Vec<ArgSpec> = Vec::new();
            v.push(arg_spec("chat_id", "chatId", "chatId", Rule::NeedI64));
            v.push(arg_spec("chat_type", "chatType", "chatType", Rule::NeedStr));
            v.push(arg_spec("query", "query", "query", Rule::NeedStr));
            v.push(arg_spec("media_type", "mediaType", "mediaType", Rule::OptStr));
            v.push(arg_spec("limit", "limit", "limit", Rule::U32Or(50)));
            v
        },
        Command::GetChatPhoto => {
            let mut v: Vec<ArgSpec> = Vec::new();
            v.push(arg_spec("chat_id", "chatId", "chatId", Rule::NeedI64));
            v.push(arg_spec("chat_type", "chatType", "chatType", Rule::NeedStr));
            v
        },
        Command::ClearThumbnailCache => Vec::new(),
        Command::GetSelf => Vec::new(),
        Command::StreamInfo => Vec::new(),
        Command::ListChatsPage => {
            let mut v: Vec<ArgSpec> = Vec::new();
            v.push(arg_spec("offset_date", "offsetDate", "offsetDate", Rule::CutI32Or(0)));
            v.push(arg_spec("offset_id", "offsetId", "offsetId", Rule::CutI32Or(0)));
            v.push(arg_spec("limit", "limit", "limit", Rule::CutI32Or(40)));
            v.push(arg_spec("offset_peer", "offsetPeer", "offsetPeer", Rule::OffsetPeer));
            v
        },
        Command::RestorePeerHashes => {
            let mut v: Vec<ArgSpec> = Vec::new();
            v.push(arg_spec("items", "items", "items", Rule::NeedPairs));
            v
        },
        Command::CreateFolder => {
            let mut v: Vec<ArgSpec> = Vec::new();
            v.push(arg_spec("name", "name", "name", Rule::NeedStr));
            v
        },
        Command::DeleteChannel => {
            let mut v: Vec<ArgSpec> = Vec::new();
            v.push(arg_spec("chatId", "chat_id", "chatId", Rule::NeedI64));
            v
        },
        Command::RenameChannel => {
            let mut v: Vec<ArgSpec> = Vec::new();
            v.push(arg_spec("chatId", "chat_id", "chatId", Rule::NeedI64));
            v.push(arg_spec("title", "title", "title", Rule::NeedStr));
            v
        },
        Command::LeaveChannel => {
            let mut v: Vec<ArgSpec> = Vec::new();
            v.push(arg_spec("chatId", "chat_id", "chatId", Rule::NeedI64));
            v.push(arg_spec("chatType", "chat_type", "chatType", Rule::NeedStr));
            v
        },
        Command::DeleteHistory => {
            let mut v: Vec<ArgSpec> = Vec::new();
            v.push(arg_spec("chatId", "chat_id", "chatId", Rule::NeedI64));
            v.push(arg_spec("chatType", "chat_type", "chatType", Rule::NeedStr));
            v.push(arg_spec("justClear", "just_clear", "justClear", Rule::BoolOr(false)));
            v.push(arg_spec("revoke", "revoke", "revoke", Rule::BoolOr(false)));
            v
        },
        Command::ListParticipants => {
            let mut v: Vec<ArgSpec> = Vec::new();
            v.push(arg_spec("chatId", "chat_id", "chatId", Rule::NeedI64));
            v.push(arg_spec("filter", "filter", "filter", Rule::StrOr("recent")));
            v.push(arg_spec("offset", "offset", "offset", Rule::CutI32Or(0)));
            v.push(arg_spec("limit", "limit", "limit", Rule::CutI32Or(50)));
            v.push(arg_spec("search", "search", "search", Rule::OptStr));
            v
        },
        Command::SetBlocked => {
            let mut v: Vec<ArgSpec> = Vec::new();
            v.push(arg_spec("chatId", "chat_id", "chatId", Rule::NeedI64));
            v.push(arg_spec("chatType", "chat_type", "chatType", Rule::NeedStr));
            v.push(arg_spec("blocked", "blocked", "blocked", Rule::BoolOr(true)));
            v
        },
        Command::ReportPeer => {
            let mut v: Vec<ArgSpec> = Vec::new();
            v.push(arg_spec("chatId", "chat_id", "chatId", Rule::NeedI64));
            v.push(arg_spec("chatType", "chat_type", "chatType", Rule::NeedStr));
            v.push(arg_spec("messageIds", "message_ids", "messageIds", Rule::IntList));
            v.push(arg_spec("option", "option", "option", Rule::Bytes));
            v.push(arg_spec("message", "message", "message", Rule::StrOr("")));
            v
        },
        Command::PerfGet => Vec::new(),
        Command::PerfSet => {
            let mut v: Vec<ArgSpec> = Vec::new();
            v.push(arg_spec("maxThreads", "max_threads", "maxThreads", Rule::NeedUsize));
            v
        },
        Command::BandwidthStats => Vec::new(),
        Command::BandwidthSetQuota => {
            let mut v: Vec<ArgSpec> = Vec::new();
            v.push(arg_spec("gb", "quotaGb", "gb", Rule::NeedU64));
            v
        },
        Command::BandwidthReset => Vec::new(),
        Command::CloneStart => {
            let mut v: Vec<ArgSpec> = Vec::new();
            v.push(arg_spec("sourceId", "source_id", "sourceId", Rule::NeedI64));
            v.push(arg_spec("sourceType", "source_type", "sourceType", Rule::NeedStr));
            v.push(arg_spec("sourceTitle", "source_title", "sourceTitle", Rule::StrOr("Origem")));
            v.push(arg_spec("destId", "dest_id", "destId", Rule::OptI64));
            v.push(arg_spec("destType", "dest_type", "destType", Rule::OptStr));
            v.push(arg_spec("destTitle", "dest_title", "destTitle", Rule::OptStr));
            v.push(arg_spec("resumeId", "resume_id", "resumeId", Rule::OptStr));
            v.push(arg_spec("options", "options", "options", Rule::OptRaw));
            v
        },
        Command::CloneStatus => {
            let mut v: Vec<ArgSpec> = Vec::new();
            v.push(arg_spec("sessionId", "session_id", "sessionId", Rule::NeedStr));
            v
        },
        Command::CloneList => Vec::new(),
        Command::ClonePause => {
            let mut v: Vec<ArgSpec> = Vec::new();
            v.push(arg_spec("sessionId", "session_id", "sessionId", Rule::NeedStr));
            v
        },
        Command::CloneCancel => {
            let mut v: Vec<ArgSpec> = Vec::new();
            v.push(arg_spec("sessionId", "session_id", "sessionId", Rule::NeedStr));
            v
        },
        Command::CloneDelete => {
            let mut v: Vec<ArgSpec> = Vec::new();
            v.push(arg_spec("sessionId", "session_id", "sessionId", Rule::NeedStr));
            v
        },
        Command::AccountsList => Vec::new(),
        Command::AccountsSaveCurrent => {
            let mut v: Vec<ArgSpec> = Vec::new();
            v.push(arg_spec("label", "label", "label", Rule::StrOr("")));
            v.push(arg_spec("phone", "phone", "phone", Rule::OptStr));
            v.push(arg_spec("userId", "user_id", "userId", Rule::OptI64));
            v
        },
        Command::AccountsRestore => {
            let mut v: Vec<ArgSpec> = Vec::new();
            v.push(arg_spec("id", "id", "id", Rule::NeedStr));
            v
        },
        Command::AccountsRemove => {
            let mut v: Vec<ArgSpec> = Vec::new();
            v.push(arg_spec("id", "id", "id", Rule::NeedStr));
            v
        },
        Command::AccountsRename => {
            let mut v: Vec<ArgSpec> = Vec::new();
            v.push(arg_spec("id", "id", "id", Rule::NeedStr));
            v.push(arg_spec("label", "label", "label", Rule::NeedStr));
            v
        },
        Command::AccountsBackupNow => Vec::new(),
        Command::AccountsListBackups => Vec::new(),
        Command::SyncState => Vec::new(),
        Command::SyncNow => Vec::new(),
        Command::SyncSettingsSet => {
            let mut v: Vec<ArgSpec> = Vec::new();
            v.push(arg_spec("enabled", "enabled", "enabled", Rule::OptBool));
            v.push(arg_spec("intervalMin", "interval_min", "intervalMin", Rule::OptU64));
            v
        },
        Command::DeleteMessages => {
            let mut v: Vec<ArgSpec> = Vec::new();
            v.push(arg_spec("chat_id", "chatId", "chatId", Rule::NeedI64));
            v.push(arg_spec("chat_type", "chatType", "chatType", Rule::NeedStr));
            v.push(arg_spec("message_ids", "messageIds", "messageIds", Rule::NeedI32List));
            v.push(arg_spec("revoke", "revoke", "revoke", Rule::BoolOr(true)));
            v
        },
        Command::ForwardMessages => {
            let mut v: Vec<ArgSpec> = Vec::new();
            v.push(arg_spec("from_chat_id", "fromChatId", "fromChatId", Rule::NeedI64));
            v.push(arg_spec("from_chat_type", "fromChatType", "fromChatType", Rule::NeedStr));
            v.push(arg_spec("to_chat_id", "toChatId", "toChatId", Rule::NeedI64));
            v.push(arg_spec("to_chat_type", "toChatType", "toChatType", Rule::NeedStr));
            v.push(arg_spec("message_ids", "messageIds", "messageIds", Rule::NeedI32List));
            v.push(arg_spec("drop_author", "dropAuthor", "dropAuthor", Rule::BoolOr(false)));
            v.push(arg_spec("drop_captions", "dropCaptions", "dropCaptions", Rule::BoolOr(false)));
            v
        },
        Command::EditCaption => {
            let mut v: Vec<ArgSpec> = Vec::new();
            v.push(arg_spec("chat_id", "chatId", "chatId", Rule::NeedI64));
            v.push(arg_spec("chat_type", "chatType", "chatType", Rule::NeedStr));
            v.push(arg_spec("message_id", "messageId", "messageId", Rule::NeedI32));
            v.push(arg_spec("caption", "caption", "caption", Rule::NeedStr));
            v
        },
        Command::SearchGlobal => {
            let mut v: Vec<ArgSpec> = Vec::new();
            v.push(arg_spec("query", "query", "query", Rule::NeedStr));
            v.push(arg_spec("limit", "limit", "limit", Rule::U32Or(50)));
            v
        },
        Command::SearchGlobalHits => {
            let mut v: Vec<ArgSpec> = Vec::new();
            v.push(arg_spec("query", "query", "query", Rule::NeedStr));
            v.push(arg_spec("limit", "limit", "limit", Rule::U32Or(50)));
            v
        },
        Command::UploadMedia => {
            let mut v: Vec<ArgSpec> = Vec::new();
            v.push(arg_spec("chat_id", "chatId", "chatId", Rule::NeedI64));
            v.push(arg_spec("chat_type", "chatType", "chatType", Rule::NeedStr));
            v.push(arg_spec("file_path", "filePath", "filePath", Rule::NeedStr));
            v.push(arg_spec("caption", "caption", "caption", Rule::OptStr));
            v
        },
    };
    proof {
        assert(v@ =~= arguments_of(c));
    }
    v
}

fn command_list() -> (r: Vec<Command>)
    ensures
        r@ == all_commands(),
{
    let v: Vec<Command> = vec![
        Command::CheckSession,
        Command::QrStart,
        Command::QrPoll,
        Command::SendCode,
        Command::VerifyCode,
        Command::Verify2fa,
        Command::Logout,
        Command::ListChats,
        Command::ListMedia,
        Command::DiagListMedia,
        Command::ExpandAlbum,
        Command::TakeoutStart,
        Command::TakeoutFinish,
        Command::CancelOp,
        Command::FullChannelInfo,
        Command::SetMute,
        Command::TogglePin,
        Command::SetArchived,
        Command::ReorderPinned,
        Command::DownloadMedia,
        Command::DownloadBatch,
        Command::CancelBatch,
        Command::GetThumbnail,
        Command::SearchMedia,
        Command::GetChatPhoto,
        Command::ClearThumbnailCache,
        Command::GetSelf,
        Command::StreamInfo,
        Command::ListChatsPage,
        Command::RestorePeerHashes,
        Command::CreateFolder,
        Command::DeleteChannel,
        Command::RenameChannel,
        Command::LeaveChannel,
        Command::DeleteHistory,
        Command::ListParticipants,
        Command::SetBlocked,
        Command::ReportPeer,
        Command::PerfGet,
        Command::PerfSet,
        Command::BandwidthStats,
        Command::BandwidthSetQuota,
        Command::BandwidthReset,
        Command::CloneStart,
        Command::CloneStatus,
        Command::CloneList,
        Command::ClonePause,
        Command::CloneCancel,
        Command::CloneDelete,
        Command::AccountsList,
        Command::AccountsSaveCurrent,
        Command::AccountsRestore,
        Command::AccountsRemove,
        Command::AccountsRename,
        Command::AccountsBackupNow,
        Command::AccountsListBackups,
        Command::SyncState,
        Command::SyncNow,
        Command::SyncSettingsSet,
        Command::DeleteMessages,
        Command::ForwardMessages,
        Command::EditCaption,
        Command::SearchGlobal,
        Command::SearchGlobalHits,
        Command::UploadMedia,
    ];
    proof {
        assert(v@ =~= all_commands());
    }
    v
}

/// The place of a command in the list.
spec fn place_of(c: Command) -> int {
    match c {
        Command::CheckSession => 0,
        Command::QrStart => 1,
        Command::QrPoll => 2,
        Command::SendCode => 3,
        Command::VerifyCode => 4,
        Command::Verify2fa => 5,
        Command::Logout => 6,
        Command::ListChats => 7,
        Command::ListMedia => 8,
        Command::DiagListMedia => 9,
        Command::ExpandAlbum => 10,
        Command::TakeoutStart => 11,
        Command::TakeoutFinish => 12,
        Command::CancelOp => 13,
        Command::FullChannelInfo => 14,
        Command::SetMute => 15,
        Command::TogglePin => 16,
        Command::SetArchived => 17,
        Command::ReorderPinned => 18,
        Command::DownloadMedia => 19,
        Command::DownloadBatch => 20,
        Command::CancelBatch => 21,
        Command::GetThumbnail => 22,
        Command::SearchMedia => 23,
        Command::GetChatPhoto => 24,
        Command::ClearThumbnailCache => 25,
        Command::GetSelf => 26,
        Command::StreamInfo => 27,
        Command::ListChatsPage => 28,
        Command::RestorePeerHashes => 29,
        Command::CreateFolder => 30,
        Command::DeleteChannel => 31,
        Command::RenameChannel => 32,
        Command::LeaveChannel => 33,
        Command::DeleteHistory => 34,
        Command::ListParticipants => 35,
        Command::SetBlocked => 36,
        Command::ReportPeer => 37,
        Command::PerfGet => 38,
        Command::PerfSet => 39,
        Command::BandwidthStats => 40,
        Command::BandwidthSetQuota => 41,
        Command::BandwidthReset => 42,
        Command::CloneStart => 43,
        Command::CloneStatus => 44,
        Command::CloneList => 45,
        Command::ClonePause => 46,
        Command::CloneCancel => 47,
        Command::CloneDelete => 48,
        Command::AccountsList => 49,
        Command::AccountsSaveCurrent => 50,
        Command::AccountsRestore => 51,
        Command::AccountsRemove => 52,
        Command::AccountsRename => 53,
        Command::AccountsBackupNow => 54,
        Command::AccountsListBackups => 55,
        Command::SyncState => 56,
        Command::SyncNow => 57,
        Command::SyncSettingsSet => 58,
        Command::DeleteMessages => 59,
        Command::ForwardMessages => 60,
        Command::EditCaption => 61,
        Command::SearchGlobal => 62,
        Command::SearchGlobalHits => 63,
        Command::UploadMedia => 64,
    }
}

proof fn lemma_listed_at(c: Command)
    ensures
        0 <= place_of(c) < all_commands().len(),
        all_commands()[place_of(c)] == c,
{
}

/// The first command of a list with a name.
pub open spec fn command_named(list: Seq<Command>, name: Seq<char>) -> Option<Command>
    decreases list.len(),
{
    if list.len() == 0 {
        None
    } else if name_of(list[0]) == name {
        Some(list[0])
    } else {
        command_named(list.drop_first(), name)
    }
}

/// Finds the command with a name.
pub fn find_command(name: &str) -> (r: Option<Command>)
    ensures
        r == command_named(all_commands(), name@),
{
    let list = command_list();
    let mut i: usize = 0;
    proof {
        assert(list@.skip(0) =~= list@);
    }
    while i < list.len()
        invariant
            i <= list@.len(),
            list@ == all_commands(),
            command_named(list@, name@) == command_named(list@.skip(i as int), name@),
        decreases list@.len() - i,
    {
        proof {
            assert(list@.skip(i as int).drop_first() =~= list@.skip(i + 1));
        }
        if same_text(command_name(list[i]), name) {
            return Some(list[i]);
        }
        i = i + 1;
    }
    None
}

/// The names of all commands.
pub fn commands() -> (r: Vec<String>)
    ensures
        r@.map_values(|s: String| s@) == all_commands().map_values(|c: Command| name_of(c)),
{
    let list = command_list();
    let mut out: Vec<String> = Vec::new();
    let mut i: usize = 0;
    while i < list.len()
        invariant
            i <= list@.len(),
            list@ == all_commands(),
            out@.map_values(|s: String| s@) =~= list@.take(i as int).map_values(
                |c: Command| name_of(c),
            ),
        decreases list@.len() - i,
    {
        let ghost before = out@.map_values(|s: String| s@);
        out.push(command_name(list[i]).to_owned());
        proof {
            assert(out@.map_values(|s: String| s@) =~= before.push(name_of(list@[i as int])));
        }
        i = i + 1;
    }
    proof {
        assert(list@.take(i as int) =~= list@);
    }
    out
}

/// Every command is listed.
pub proof fn lemma_all_commands_are_listed(c: Command)
    ensures
        all_commands().contains(c),
{
    let list = all_commands();
    assert(exists|i: int| 0 <= i < list.len() && list[i] == c) by {
        lemma_listed_at(c);
        let i = place_of(c);
        assert(list[i] == c);
    }
}

proof fn lemma_command_named(list: Seq<Command>, name: Seq<char>)
    ensures
        match command_named(list, name) {
            Some(c) => list.contains(c) && name_of(c) == name,
            None => forall|i: int| 0 <= i < list.len() ==> name_of(#[trigger] list[i]) != name,
        },
    decreases list.len(),
{
    if list.len() > 0 {
        if name_of(list[0]) == name {
            assert(list[0] == command_named(list, name)->0);
        } else {
            let rest = list.drop_first();
            lemma_command_named(rest, name);
            match command_named(rest, name) {
                Some(c) => {
                    let i = choose|i: int| 0 <= i < rest.len() && rest[i] == c;
                    assert(list[i + 1] == c);
                },
                None => {
                    assert forall|i: int| 0 <= i < list.len() implies name_of(#[trigger] list[i])
                        != name by {
                        if i > 0 {
                            assert(rest[i - 1] == list[i]);
                        }
                    }
                },
            }
        }
    }
}

/// The place of the command with a name, told by the name's length and a few of its letters.
spec fn place_told(n: Seq<char>) -> int {
    if n.len() == 15 {
        6
    } else if n.len() == 16 {
        2
    } else if n.len() == 17 {
        if n[14] == 'a' {
            1
        } else if n[14] == 'e' {
            26
        } else if n[14] == 'g' {
            38
        } else if n[14] == 'n' {
            57
        } else if n[14] == 's' {
            39
        } else {
            15
        }
    } else if n.len() == 18 {
        if n[10] == 'a' {
            13
        } else {
            3
        }
    } else if n.len() == 19 {
        if n[14] == '_' {
            45
        } else if n[14] == 'c' {
            7
        } else if n[14] == 'e' {
            16
        } else if n[14] == 'm' {
            8
        } else if n[14] == 's' {
            56
        } else {
            5
        }
    } else if n.len() == 20 {
        if n[17] == 'a' {
            43
        } else if n[17] == 'e' {
            37
        } else if n[17] == 'k' {
            36
        } else if n[17] == 'n' {
            27
        } else if n[17] == 'o' {
            4
        } else {
            46
        }
    } else if n.len() == 21 {
        if n[16] == 'a' {
            if n[10] == 'l' {
                47
            } else {
                10
            }
        } else if n[16] == 'b' {
            21
        } else if n[16] == 'e' {
            48
        } else if n[16] == 'h' {
            17
        } else if n[16] == 'm' {
            if n[10] == 'e' {
                23
            } else {
                64
            }
        } else if n[16] == 'p' {
            61
        } else {
            44
        }
    } else if n.len() == 22 {
        if n[12] == '_' {
            22
        } else if n[12] == 'a' {
            30
        } else if n[12] == 'c' {
            0
        } else if n[12] == 'e' {
            11
        } else if n[12] == 'o' {
            49
        } else if n[12] == 'r' {
            62
        } else {
            33
        }
    } else if n.len() == 23 {
        if n[11] == 'k' {
            12
        } else if n[11] == 'l' {
            if n[16] == 'c' {
                31
            } else {
                34
            }
        } else if n[11] == 'n' {
            32
        } else if n[11] == 'o' {
            18
        } else if n[11] == 't' {
            24
        } else {
            if n[18] == 'b' {
                20
            } else {
                19
            }
        }
    } else if n.len() == 24 {
        if n[10] == 'a' {
            if n[19] == 'r' {
                42
            } else {
                40
            }
        } else if n[10] == 'c' {
            if n[20] == 'm' {
                52
            } else {
                53
            }
        } else if n[10] == 'e' {
            59
        } else {
            if n[11] == 'a' {
                9
            } else {
                28
            }
        }
    } else if n.len() == 25 {
        if n[10] == 'c' {
            51
        } else {
            60
        }
    } else if n.len() == 26 {
        if n[10] == 'i' {
            35
        } else if n[10] == 'u' {
            14
        } else {
            58
        }
    } else if n.len() == 27 {
        63
    } else if n.len() == 28 {
        if n[10] == 'a' {
            41
        } else if n[10] == 'c' {
            54
        } else {
            29
        }
    } else if n.len() == 30 {
        if n[18] == 'l' {
            55
        } else if n[18] == 'm' {
            25
        } else {
            50
        }
    } else {
        0
    }
}

proof fn lemma_place_told(c: Command)
    ensures
        place_told(name_of(c)) == place_of(c),
{
    match c {
        Command::CheckSession => {
            reveal_strlit("telegram_check_session");
        },
        Command::QrStart => {
            reveal_strlit("telegram_qr_start");
        },
        Command::QrPoll => {
            reveal_strlit("telegram_qr_poll");
        },
        Command::SendCode => {
            reveal_strlit("telegram_send_code");
        },
        Command::VerifyCode => {
            reveal_strlit("telegram_verify_code");
        },
        Command::Verify2fa => {
            reveal_strlit("telegram_verify_2fa");
        },
        Command::Logout => {
            reveal_strlit("telegram_logout");
        },
        Command::ListChats => {
            reveal_strlit("telegram_list_chats");
        },
        Command::ListMedia => {
            reveal_strlit("telegram_list_media");
        },
        Command::DiagListMedia => {
            reveal_strlit("telegram_diag_list_media");
        },
        Command::ExpandAlbum => {
            reveal_strlit("telegram_expand_album");
        },
        Command::TakeoutStart => {
            reveal_strlit("telegram_takeout_start");
        },
        Command::TakeoutFinish => {
            reveal_strlit("telegram_takeout_finish");
        },
        Command::CancelOp => {
            reveal_strlit("telegram_cancel_op");
        },
        Command::FullChannelInfo => {
            reveal_strlit("telegram_full_channel_info");
        },
        Command::SetMute => {
            reveal_strlit("telegram_set_mute");
        },
        Command::TogglePin => {
            reveal_strlit("telegram_toggle_pin");
        },
        Command::SetArchived => {
            reveal_strlit("telegram_set_archived");
        },
        Command::ReorderPinned => {
            reveal_strlit("telegram_reorder_pinned");
        },
        Command::DownloadMedia => {
            reveal_strlit("telegram_download_media");
        },
        Command::DownloadBatch => {
            reveal_strlit("telegram_download_batch");
        },
        Command::CancelBatch => {
            reveal_strlit("telegram_cancel_batch");
        },
        Command::GetThumbnail => {
            reveal_strlit("telegram_get_thumbnail");
        },
        Command::SearchMedia => {
            reveal_strlit("telegram_search_media");
        },
        Command::GetChatPhoto => {
            reveal_strlit("telegram_get_chat_photo");
        },
        Command::ClearThumbnailCache => {
            reveal_strlit("telegram_clear_thumbnail_cache");
        },
        Command::GetSelf => {
            reveal_strlit("telegram_get_self");
        },
        Command::StreamInfo => {
            reveal_strlit("telegram_stream_info");
        },
        Command::ListChatsPage => {
            reveal_strlit("telegram_list_chats_page");
        },
        Command::RestorePeerHashes => {
            reveal_strlit("telegram_restore_peer_hashes");
        },
        Command::CreateFolder => {
            reveal_strlit("telegram_create_folder");
        },
        Command::DeleteChannel => {
            reveal_strlit("telegram_delete_channel");
        },
        Command::RenameChannel => {
            reveal_strlit("telegram_rename_channel");
        },
        Command::LeaveChannel => {
            reveal_strlit("telegram_leave_channel");
        },
        Command::DeleteHistory => {
            reveal_strlit("telegram_delete_history");
        },
        Command::ListParticipants => {
            reveal_strlit("telegram_list_participants");
        },
        Command::SetBlocked => {
            reveal_strlit("telegram_set_blocked");
        },
        Command::ReportPeer => {
            reveal_strlit("telegram_report_peer");
        },
        Command::PerfGet => {
            reveal_strlit("telegram_perf_get");
        },
        Command::PerfSet => {
            reveal_strlit("telegram_perf_set");
        },
        Command::BandwidthStats => {
            reveal_strlit("telegram_bandwidth_stats");
        },
        Command::BandwidthSetQuota => {
            reveal_strlit("telegram_bandwidth_set_quota");
        },
        Command::BandwidthReset => {
            reveal_strlit("telegram_bandwidth_reset");
        },
        Command::CloneStart => {
            reveal_strlit("telegram_clone_start");
        },
        Command::CloneStatus => {
            reveal_strlit("telegram_clone_status");
        },
        Command::CloneList => {
            reveal_strlit("telegram_clone_list");
        },
        Command::ClonePause => {
            reveal_strlit("telegram_clone_pause");
        },
        Command::CloneCancel => {
            reveal_strlit("telegram_clone_cancel");
        },
        Command::CloneDelete => {
            reveal_strlit("telegram_clone_delete");
        },
        Command::AccountsList => {
            reveal_strlit("telegram_accounts_list");
        },
        Command::AccountsSaveCurrent => {
            reveal_strlit("telegram_accounts_save_current");
        },
        Command::AccountsRestore => {
            reveal_strlit("telegram_accounts_restore");
        },
        Command::AccountsRemove => {
            reveal_strlit("telegram_accounts_remove");
        },
        Command::AccountsRename => {
            reveal_strlit("telegram_accounts_rename");
        },
        Command::AccountsBackupNow => {
            reveal_strlit("telegram_accounts_backup_now");
        },
        Command::AccountsListBackups => {
            reveal_strlit("telegram_accounts_list_backups");
        },
        Command::SyncState => {
            reveal_strlit("telegram_sync_state");
        },
        Command::SyncNow => {
            reveal_strlit("telegram_sync_now");
        },
        Command::SyncSettingsSet => {
            reveal_strlit("telegram_sync_settings_set");
        },
        Command::DeleteMessages => {
            reveal_strlit("telegram_delete_messages");
        },
        Command::ForwardMessages => {
            reveal_strlit("telegram_forward_messages");
        },
        Command::EditCaption => {
            reveal_strlit("telegram_edit_caption");
        },
        Command::SearchGlobal => {
            reveal_strlit("telegram_search_global");
        },
        Command::SearchGlobalHits => {
            reveal_strlit("telegram_search_global_hits");
        },
        Command::UploadMedia => {
            reveal_strlit("telegram_upload_media");
        },
    }
}

/// No two commands have the same name.
pub proof fn lemma_names_differ(a: Command, b: Command)
    requires
        name_of(a) == name_of(b),
    ensures
        a == b,
{
    lemma_place_told(a);
    lemma_place_told(b);
    lemma_listed_at(a);
    lemma_listed_at(b);
}

/// Every command is found under its name, and nothing is found under a name that no command
/// has.
pub proof fn lemma_listed_names_are_understood(name: Seq<char>)
    ensures
        forall|c: Command| #[trigger]
            name_of(c) == name ==> command_named(all_commands(), name) == Some(c),
        command_named(all_commands(), name) is Some ==> exists|c: Command|
            #[trigger] name_of(c) == name,
{
    lemma_command_named(all_commands(), name);
    if exists|c: Command| #[trigger] name_of(c) == name {
        let c = choose|c: Command| #[trigger] name_of(c) == name;
        lemma_all_commands_are_listed(c);
        let i = choose|i: int| 0 <= i < all_commands().len() && all_commands()[i] == c;
        assert(name_of(all_commands()[i]) == name);
    }
    assert forall|c: Command| #[trigger] name_of(c) == name implies command_named(
        all_commands(),
        name,
    ) == Some(c) by {
        lemma_names_differ(c, command_named(all_commands(), name)->0);
    }
}

/// Why a command was refused.
pub enum CommandError {
    Unknown(String),
    Argument(ArgFault),
}

/// Understands a command: which one it is, and its arguments.
pub fn handle_command(name: &str, args: &Json) -> (r: Result<(Command, Vec<ArgValue>), CommandError>)
    ensures
        match command_named(all_commands(), name@) {
            None => r matches Err(CommandError::Unknown(n)) && n@ == name@,
            Some(c) => match r {
                Ok((found, values)) => found == c && arguments_match(
                    arguments_of(c),
                    *args,
                    Ok(values),
                ),
                Err(CommandError::Argument(fault)) => arguments_match(
                    arguments_of(c),
                    *args,
                    Err(fault),
                ),
                Err(CommandError::Unknown(_)) => false,
            },
        },
{
    let command = match find_command(name) {
        Some(c) => c,
        None => return Err(CommandError::Unknown(name.to_owned())),
    };
    let specs = command_arguments(command);
    match read_arguments(&specs, args) {
        Ok(values) => Ok((command, values)),
        Err(fault) => Err(CommandError::Argument(fault)),
    }
}

/// What a command that has done its work answers.
#[derive(Debug, Clone, Copy, PartialEq, Eq, Structural)]
pub enum Answer {
    /// Nothing.
    Null,
    /// That it is done.
    Done,
    /// That it is done, and that the plugin has to start anew.
    DoneNeedsRestart,
    /// What it found.
    Value,
}

/// The commands that answer nothing.
pub open spec fn answers_nothing(c: Command) -> bool {
    c is SendCode || c is Logout || c is TakeoutFinish || c is SetMute || c is TogglePin
        || c is SetArchived || c is ReorderPinned || c is CancelBatch || c is ClearThumbnailCache
}

/// The commands that answer that they are done.
pub open spec fn answers_done(c: Command) -> bool {
    c is DeleteChannel || c is LeaveChannel || c is DeleteHistory || c is SetBlocked || c
        is ReportPeer || c is RenameChannel || c is RestorePeerHashes || c is ForwardMessages || c
        is EditCaption || c is CloneCancel || c is CloneDelete || c is AccountsRemove
}

/// What a command answers.
pub fn answer(c: Command) -> (r: Answer)
    ensures
        r == (if answers_nothing(c) {
            Answer::Null
        } else if answers_done(c) {
            Answer::Done
        } else if c is AccountsRestore {
            Answer::DoneNeedsRestart
        } else {
            Answer::Value
        }),
{
    match c {
        Command::SendCode | Command::Logout | Command::TakeoutFinish | Command::SetMute
        | Command::TogglePin | Command::SetArchived | Command::ReorderPinned | Command::CancelBatch
        | Command::ClearThumbnailCache => Answer::Null,
        Command::DeleteChannel | Command::LeaveChannel | Command::DeleteHistory
        | Command::SetBlocked | Command::ReportPeer | Command::RenameChannel
        | Command::RestorePeerHashes | Command::ForwardMessages | Command::EditCaption
        | Command::CloneCancel | Command::CloneDelete | Command::AccountsRemove => Answer::Done,
        Command::AccountsRestore => Answer::DoneNeedsRestart,
        _ => Answer::Value,
    }
}

/// What is reported of a command that is not known.
pub fn unknown_text(name: &str) -> (r: String)
    ensures
        r@ == "Unknown command: "@ + name@,
{
    joined("Unknown command: ", name)
}

/// What is reported of an argument that is missing.
pub fn missing_text(spec: &ArgSpec) -> (r: String)
    ensures
        r@ == "missing '"@ + spec.label@ + "'"@,
{
    joined3("missing '", spec.label, "'")
}

// ------------------------------------------------------------ laws of arguments

/// A list of numbers is read exactly where each of them is a whole number within the range,
/// and as these numbers in their order.
pub proof fn lemma_lists_of_numbers(a: Seq<Json>, low: int, high: int)
    ensures
        all_whole(a, low, high) is Some <==> forall|i: int|
            0 <= i < a.len() ==> whole_between(#[trigger] a[i], low, high) is Some,
        all_whole(a, low, high) matches Some(s) ==> s.len() == a.len() && forall|i: int|
            0 <= i < a.len() ==> whole_between(#[trigger] a[i], low, high) == Some(s[i]),
    decreases a.len(),
{
    if a.len() > 0 {
        let front = a.drop_last();
        lemma_lists_of_numbers(front, low, high);
        assert(forall|i: int| 0 <= i < front.len() ==> #[trigger] front[i] == a[i]);
        assert(a[a.len() - 1] == a.last());
        if all_whole(a, low, high) is Some {
            let s = all_whole(a, low, high)->0;
            let before = all_whole(front, low, high)->0;
            assert forall|i: int| 0 <= i < a.len() implies whole_between(#[trigger] a[i], low, high)
                == Some(s[i]) by {
                if i < front.len() {
                    assert(front[i] == a[i]);
                    assert(s[i] == before[i]);
                }
            }
        } else if forall|i: int|
            0 <= i < a.len() ==> whole_between(#[trigger] a[i], low, high) is Some {
            assert(whole_between(a[a.len() - 1], low, high) is Some);
            assert forall|i: int| 0 <= i < front.len() implies whole_between(
                #[trigger] front[i],
                low,
                high,
            ) is Some by {
                assert(front[i] == a[i]);
            }
        }
    }
}

/// The pairs of two lists are those of the one and then those of the other; a list of two
/// numbers is a pair, and one of another length is left out.
pub proof fn lemma_pairs_add_up(rows: Seq<Json>, more: Seq<Json>)
    ensures
        match (pairs_of(rows), pairs_of(more)) {
            (Some(a), Some(b)) => pairs_of(rows + more) == Some(a + b),
            _ => pairs_of(rows + more) is None,
        },
    decreases more.len(),
{
    if more.len() == 0 {
        assert(rows + more =~= rows);
        if pairs_of(rows) is Some {
            assert(pairs_of(rows)->0 + Seq::<(int, int)>::empty() =~= pairs_of(rows)->0);
        }
    } else {
        lemma_pairs_add_up(rows, more.drop_last());
        assert((rows + more).drop_last() =~= rows + more.drop_last());
        if pairs_of(rows) is Some && pairs_of(more) is Some {
            assert(pairs_of(rows + more)->0 =~= pairs_of(rows)->0 + pairs_of(more)->0);
        }
    }
}

/// One list of numbers is a pair where it holds two, nothing where it holds more or fewer,
/// and refused where it holds anything else.
pub proof fn lemma_one_pair(row: Vec<Json>)
    ensures
        match all_whole(row@, i64::MIN as int, i64::MAX as int) {
            Some(n) => pairs_of(seq![Json::Array(row)]) == Some(
                if row@.len() == 2 {
                    seq![(n[0], n[1])]
                } else {
                    Seq::empty()
                },
            ),
            None => pairs_of(seq![Json::Array(row)]) is None,
        },
{
    lemma_lists_of_numbers(row@, i64::MIN as int, i64::MAX as int);
    let rows = seq![Json::Array(row)];
    assert(rows.drop_last() =~= Seq::<Json>::empty());
    assert(pairs_of(Seq::empty()) == Some(Seq::<(int, int)>::empty()));
    if pairs_of(rows) is Some && row@.len() == 2 {
        let n = all_whole(row@, i64::MIN as int, i64::MAX as int)->0;
        assert(pairs_of(rows)->0 =~= seq![(n[0], n[1])]);
    }
}

/// The chats of two lists are those of the one and then those of the other; each entry that
/// is a chat counts, and no other.
pub proof fn lemma_pinned_add_up(a: Seq<Json>, b: Seq<Json>, v: Json)
    ensures
        pinned_entries(a + b) == pinned_entries(a) + pinned_entries(b),
        pinned_entries(seq![v]) == (match pinned_entry(v) {
            Some(e) => seq![e],
            None => Seq::empty(),
        }),
    decreases b.len(),
{
    let none = Seq::<(i64, Seq<char>)>::empty();
    assert(seq![v].drop_last() =~= Seq::<Json>::empty());
    assert(pinned_entries(Seq::empty()) =~= none);
    if pinned_entry(v) is Some {
        assert(pinned_entries(seq![v]) =~= seq![pinned_entry(v)->0]);
    }
    if b.len() == 0 {
        assert(a + b =~= a);
        assert(pinned_entries(a) + none =~= pinned_entries(a));
    } else {
        lemma_pinned_add_up(a, b.drop_last(), v);
        assert((a + b).drop_last() =~= a + b.drop_last());
        assert(pinned_entries(a + b) =~= pinned_entries(a) + pinned_entries(b));
    }
}

/// The files of a batch are read exactly where each of them can be, in their order.
pub proof fn lemma_files_of_a_batch(a: Seq<Json>)
    ensures
        items_of(a) is Some <==> forall|i: int| 0 <= i < a.len() ==> item_of(#[trigger] a[i]) is Some,
        items_of(a) matches Some(s) ==> s.len() == a.len() && forall|i: int|
            0 <= i < a.len() ==> item_of(#[trigger] a[i]) == Some(s[i]),
    decreases a.len(),
{
    if a.len() > 0 {
        let front = a.drop_last();
        lemma_files_of_a_batch(front);
        assert(forall|i: int| 0 <= i < front.len() ==> #[trigger] front[i] == a[i]);
        assert(a[a.len() - 1] == a.last());
        if items_of(a) is Some {
            let s = items_of(a)->0;
            let before = items_of(front)->0;
            assert forall|i: int| 0 <= i < a.len() implies item_of(#[trigger] a[i]) == Some(s[i]) by {
                if i < front.len() {
                    assert(front[i] == a[i]);
                    assert(s[i] == before[i]);
                }
            }
        } else if forall|i: int| 0 <= i < a.len() ==> item_of(#[trigger] a[i]) is Some {
            assert(item_of(a[a.len() - 1]) is Some);
            assert forall|i: int| 0 <= i < front.len() implies item_of(
                #[trigger] front[i],
            ) is Some by {
                assert(front[i] == a[i]);
            }
        }
    }
}

/// A file of a batch is its message, its name and its size, given by name or in this order.
pub proof fn lemma_file_of_a_batch(id: u64, name: String, size: u64, entries: Vec<(String, Json)>)
    requires
        id <= i32::MAX,
    ensures
        ({
            let number = Json::Number(Number::Unsigned(id));
            let text = Json::Text(name);
            let bytes = Json::Number(Number::Unsigned(size));
            &&& item_parts(Some(number), Some(text), Some(bytes)) == Some(
                (id as int, name@, size as int),
            )
            &&& entry(entries@, "message_id"@) == Some(number) && entry(entries@, "file_name"@)
                == Some(text) && entry(entries@, "file_size"@) == Some(bytes) ==> item_of(
                Json::Object(entries),
            ) == Some((id as int, name@, size as int))
        }),
{
}

/// The numbers of two lists are those of the one and then those of the other; each whole
/// number counts, and nothing else.
pub proof fn lemma_cut_numbers_add_up(a: Seq<Json>, b: Seq<Json>, v: Json, cut: spec_fn(int) -> int)
    ensures
        cut_numbers(a + b, cut) == cut_numbers(a, cut) + cut_numbers(b, cut),
        cut_numbers(seq![v], cut) == (match as_i64(v) {
            Some(n) => seq![cut(n)],
            None => Seq::empty(),
        }),
    decreases b.len(),
{
    let none = Seq::<int>::empty();
    assert(seq![v].drop_last() =~= Seq::<Json>::empty());
    assert(cut_numbers(Seq::empty(), cut) =~= none);
    if as_i64(v) is Some {
        assert(cut_numbers(seq![v], cut) =~= seq![cut(as_i64(v)->0)]);
    }
    if b.len() == 0 {
        assert(a + b =~= a);
        assert(cut_numbers(a, cut) + none =~= cut_numbers(a, cut));
    } else {
        lemma_cut_numbers_add_up(a, b.drop_last(), v, cut);
        assert((a + b).drop_last() =~= a + b.drop_last());
        assert(cut_numbers(a + b, cut) =~= cut_numbers(a, cut) + cut_numbers(b, cut));
    }
}

/// A whole number that is needed is read as it is where it fits, and refused where it does
/// not; a text is read as it is; and what is missing is called missing.
pub proof fn lemma_needed_arguments(
    spec: ArgSpec,
    args: Json,
    n: u64,
    text: String,
    r: Result<ArgValue, ArgFault>,
)
    requires
        argument_matches(spec, args, r),
    ensures
        ({
            let found = either(args, spec.first@, spec.second@);
            let number = Some(Json::Number(Number::Unsigned(n)));
            &&& spec.rule is NeedI64 && found == number ==> (if n <= i64::MAX {
                r == Ok::<_, ArgFault>(ArgValue::I64(n as i64))
            } else {
                r is Err
            })
            &&& spec.rule is NeedI32 && found == number ==> (if n <= i32::MAX {
                r == Ok::<_, ArgFault>(ArgValue::I32(n as i32))
            } else {
                r is Err
            })
            &&& spec.rule is NeedU64 && found == number ==> r == Ok::<_, ArgFault>(ArgValue::U64(n))
            &&& spec.rule is NeedStr && found == Some(Json::Text(text)) ==> (r matches Ok(
                ArgValue::Str(s),
            ) && s@ == text@)
            &&& spec.rule is NeedStr && found == number ==> r is Err
            &&& found is None && (spec.rule is NeedI64 || spec.rule is NeedI32 || spec.rule
                is NeedU64 || spec.rule is NeedUsize || spec.rule is NeedStr || spec.rule
                is NeedI32List || spec.rule is NeedPairs || spec.rule is NeedPinned || spec.rule
                is NeedItems) ==> r == Err::<ArgValue, _>(ArgFault::Missing(spec))
        }),
{
}

/// A negative number is read as it is where one is needed that may be negative.
pub proof fn lemma_negative_arguments(
    spec: ArgSpec,
    args: Json,
    n: i64,
    r: Result<ArgValue, ArgFault>,
)
    requires
        argument_matches(spec, args, r),
        either(args, spec.first@, spec.second@) == Some(Json::Number(Number::Negative(n))),
        n < 0,
    ensures
        spec.rule is NeedI64 ==> r == Ok::<_, ArgFault>(ArgValue::I64(n)),
        spec.rule is NeedI32 ==> (if n >= i32::MIN {
            r == Ok::<_, ArgFault>(ArgValue::I32(n as i32))
        } else {
            r is Err
        }),
        spec.rule is NeedU64 ==> r is Err,
{
}

/// An argument with a default is the default where it is missing, and else what is given,
/// where that is of its kind.
pub proof fn lemma_arguments_with_defaults(
    spec: ArgSpec,
    args: Json,
    n: u64,
    b: bool,
    text: String,
    r: Result<ArgValue, ArgFault>,
)
    requires
        argument_matches(spec, args, r),
    ensures
        ({
            let found = either(args, spec.first@, spec.second@);
            let number = Some(Json::Number(Number::Unsigned(n)));
            &&& spec.rule matches Rule::I64Or(d) ==> {
                &&& found is None ==> r == Ok::<_, ArgFault>(ArgValue::I64(d))
                &&& found == number && n <= i64::MAX ==> r == Ok::<_, ArgFault>(
                    ArgValue::I64(n as i64),
                )
            }
            &&& spec.rule matches Rule::I32Or(d) ==> {
                &&& found is None ==> r == Ok::<_, ArgFault>(ArgValue::I32(d))
                &&& found == number && n <= i32::MAX ==> r == Ok::<_, ArgFault>(
                    ArgValue::I32(n as i32),
                )
            }
            &&& spec.rule matches Rule::U32Or(d) ==> {
                &&& found is None ==> r == Ok::<_, ArgFault>(ArgValue::U32(d))
                &&& found == number && n <= u32::MAX ==> r == Ok::<_, ArgFault>(
                    ArgValue::U32(n as u32),
                )
            }
            &&& spec.rule matches Rule::CutI32Or(d) ==> {
                &&& found is None ==> r == Ok::<_, ArgFault>(ArgValue::I32(d))
                &&& found == number && n <= i32::MAX ==> r == Ok::<_, ArgFault>(
                    ArgValue::I32(n as i32),
                )
            }
            &&& spec.rule matches Rule::BoolOr(d) ==> {
                &&& found is None ==> r == Ok::<_, ArgFault>(ArgValue::Bool(d))
                &&& found == Some(Json::Bool(b)) ==> r == Ok::<_, ArgFault>(ArgValue::Bool(b))
            }
            &&& spec.rule matches Rule::StrOr(d) ==> (r matches Ok(ArgValue::Str(s)) && {
                &&& found is None ==> s@ == d@
                &&& found == Some(Json::Text(text)) ==> s@ == text@
            })
            &&& spec.rule is OptStr ==> (r matches Ok(ArgValue::OptStr(s)) && {
                &&& found is None ==> s is None
                &&& found == Some(Json::Text(text)) ==> (s matches Some(t) && t@ == text@)
            })
            &&& spec.rule is OptBool ==> (r matches Ok(ArgValue::OptBool(v)) && {
                &&& found is None ==> v is None
                &&& found == Some(Json::Bool(b)) ==> v == Some(b)
            })
            &&& spec.rule is OptI64 ==> (r matches Ok(ArgValue::OptI64(v)) && {
                &&& found is None ==> v is None
                &&& found == number && n <= i64::MAX ==> v == Some(n as i64)
            })
            &&& spec.rule is OptU64 ==> (r matches Ok(ArgValue::OptU64(v)) && {
                &&& found is None ==> v is None
                &&& found == number ==> v == Some(n)
            })
        }),
{
    lemma_low_bits(n as int);
}

/// Commands on a chat take its number first, and most of them its type next, under either
/// way of writing the names.
pub proof fn lemma_chat_arguments(c: Command)
    ensures
        c is ListMedia || c is DiagListMedia || c is ExpandAlbum || c is FullChannelInfo || c
            is SetMute || c is TogglePin || c is SetArchived || c is DownloadMedia || c
            is DownloadBatch || c is GetThumbnail || c is SearchMedia || c is GetChatPhoto || c
            is LeaveChannel || c is DeleteHistory || c is SetBlocked || c is ReportPeer ==> {
            let a = arguments_of(c);
            &&& a.len() >= 2
            &&& a[0].rule is NeedI64
            &&& a[1].rule is NeedStr
            &&& a[0].label@ == "chatId"@
            &&& a[1].label@ == "chatType"@
            &&& a[0].first@ == "chat_id"@ && a[0].second@ == "chatId"@ || a[0].first@ == "chatId"@
                && a[0].second@ == "chat_id"@
            &&& a[1].first@ == "chat_type"@ && a[1].second@ == "chatType"@ || a[1].first@
                == "chatType"@ && a[1].second@ == "chat_type"@
        },
        c is ExpandAlbum || c is DownloadMedia || c is GetThumbnail ==> {
            let a = arguments_of(c);
            a.len() >= 3 && a[2].rule is NeedI32 && a[2].first@ == "message_id"@ && a[2].second@
                == "messageId"@
        },
        c is DeleteChannel || c is RenameChannel || c is ListParticipants ==> {
            let a = arguments_of(c);
            a.len() >= 1 && a[0].rule is NeedI64 && a[0].first@ == "chatId"@ && a[0].second@
                == "chat_id"@
        },
        c is CloneStatus || c is ClonePause || c is CloneCancel || c is CloneDelete ==> {
            let a = arguments_of(c);
            a.len() == 1 && a[0].rule is NeedStr && a[0].first@ == "sessionId"@ && a[0].second@
                == "session_id"@
        },
{
}

/// An argument is called missing by one of the names that it may have.
pub proof fn lemma_labels_are_names(c: Command, i: int)
    requires
        0 <= i < arguments_of(c).len(),
    ensures
        arguments_of(c)[i].label@ == arguments_of(c)[i].first@ || arguments_of(c)[i].label@
            == arguments_of(c)[i].second@,
{
}

/// What holds where nothing else is said: lists hold fifty, pages of chats forty, messages
/// are deleted for all, a history for oneself, and chats are blocked.
pub proof fn lemma_defaults(c: Command)
    ensures
        c is ListMedia || c is SearchMedia ==> arguments_of(c)[4].rule == Rule::U32Or(50),
        c is SearchGlobal || c is SearchGlobalHits ==> arguments_of(c)[1].rule == Rule::U32Or(50),
        c is ListMedia ==> arguments_of(c)[3].rule == Rule::I32Or(0),
        c is ListChatsPage ==> arguments_of(c)[2].rule == Rule::CutI32Or(40),
        c is ListParticipants ==> arguments_of(c)[3].rule == Rule::CutI32Or(50),
        c is DeleteMessages ==> arguments_of(c)[3].rule == Rule::BoolOr(true),
        c is DeleteHistory ==> arguments_of(c)[2].rule == Rule::BoolOr(false) && arguments_of(
            c,
        )[3].rule == Rule::BoolOr(false),
        c is SetBlocked ==> arguments_of(c)[2].rule == Rule::BoolOr(true),
        c is TogglePin || c is SetArchived ==> arguments_of(c)[2].rule == Rule::BoolOr(false),
        c is DownloadBatch ==> arguments_of(c)[5].rule == Rule::BoolOr(false),
        c is DeleteMessages || c is EditCaption || c is UploadMedia ==> {
            let a = arguments_of(c);
            a.len() == 4 && a[0].rule is NeedI64 && a[0].first@ == "chat_id"@ && a[0].second@
                == "chatId"@ && a[1].rule is NeedStr && a[1].first@ == "chat_type"@ && a[1].second@
                == "chatType"@
        },
        c is ForwardMessages ==> {
            let a = arguments_of(c);
            a.len() == 7 && a[0].first@ == "from_chat_id"@ && a[2].first@ == "to_chat_id"@
                && a[4].first@ == "message_ids"@ && a[0].rule is NeedI64 && a[2].rule is NeedI64
                && a[4].rule is NeedI32List
        },
{
}

} // verus!
