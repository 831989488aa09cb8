//! A JSON codec for the shapes the configuration service uses on the wire.
//!
//! The grammar covered here is the fragment the service emits: an object
//! whose member values are strings, 64-bit integers, or booleans, with
//! whitespace between tokens and the usual string escapes (`\" \\ \/ \b
//! \f \n \r \t` and `\uXXXX` for code points outside the surrogate range;
//! surrogate pairs are rejected).  The encoder produces the canonical
//! unpadded form used for the local cache file, and decoding an encoded
//! mapping is proved to give the mapping back.

use vstd::prelude::*;
use vstd::string::StrSliceExecFns;

verus! {

// ---------------------------------------------------------------------------
// Character classes
// ---------------------------------------------------------------------------

/// Whitespace accepted between JSON tokens.
pub open spec fn is_ws(c: char) -> bool {
    c == ' ' || c == '\t' || c == '\n' || c == '\r'
}

/// Decimal digit.
pub open spec fn is_digit(c: char) -> bool {
    48 <= c as u32 && c as u32 <= 57
}

/// Value of a decimal digit.
pub open spec fn digit_value(c: char) -> int {
    c as u32 - 48
}

/// Hexadecimal digit, either case.
pub open spec fn is_hex_digit(c: char) -> bool {
    (48 <= c as u32 && c as u32 <= 57) || (97 <= c as u32 && c as u32 <= 102) || (65 <= c as u32
        && c as u32 <= 70)
}

/// Value of a hexadecimal digit.
pub open spec fn hex_digit_value(c: char) -> int {
    if 48 <= c as u32 && c as u32 <= 57 {
        c as u32 - 48
    } else if 97 <= c as u32 && c as u32 <= 102 {
        c as u32 - 87
    } else {
        c as u32 - 55
    }
}

/// The character denoted by a single-character escape, if it is one.
pub open spec fn spec_unescape(c: char) -> Option<char> {
    if c == '"' {
        Some('"')
    } else if c == '\\' {
        Some('\\')
    } else if c == '/' {
        Some('/')
    } else if c == 'b' {
        Some('\u{0008}')
    } else if c == 'f' {
        Some('\u{000C}')
    } else if c == 'n' {
        Some('\n')
    } else if c == 'r' {
        Some('\r')
    } else if c == 't' {
        Some('\t')
    } else {
        None
    }
}

// ---------------------------------------------------------------------------
// The grammar, as functions from the remaining input to the parsed value and
// the input left over.  `None` means the input does not match.
// ---------------------------------------------------------------------------

/// A member value: the service only ever sends strings, integers and flags.
pub enum ScalarModel {
    Text(Seq<char>),
    Integer(int),
    Flag(bool),
}

/// The remaining input after discarding leading whitespace.
pub open spec fn spec_skip_ws(t: Seq<char>) -> Seq<char>
    decreases t.len(),
{
    if t.len() > 0 && is_ws(t[0]) {
        spec_skip_ws(t.drop_first())
    } else {
        t
    }
}

/// The contents of a string token, after its opening quote: the decoded
/// characters and the input after the closing quote.
pub open spec fn spec_parse_string_body(t: Seq<char>) -> Option<(Seq<char>, Seq<char>)>
    decreases t.len(),
{
    if t.len() == 0 {
        None
    } else if t[0] == '"' {
        Some((Seq::<char>::empty(), t.drop_first()))
    } else if t[0] == '\\' {
        if t.len() < 2 {
            None
        } else if spec_unescape(t[1]) is Some {
            match spec_parse_string_body(t.skip(2)) {
                Some((s, r)) => Some((seq![spec_unescape(t[1])->0] + s, r)),
                None => None,
            }
        } else if t[1] == 'u' {
            if t.len() >= 6 && is_hex_digit(t[2]) && is_hex_digit(t[3]) && is_hex_digit(t[4])
                && is_hex_digit(t[5]) {
                let v: int = hex_digit_value(t[2]) * 4096 + hex_digit_value(t[3]) * 256
                    + hex_digit_value(t[4]) * 16 + hex_digit_value(t[5]);
                if v < 0xD800 || v > 0xDFFF {
                    match spec_parse_string_body(t.skip(6)) {
                        Some((s, r)) => Some((seq![(v as u32) as char] + s, r)),
                        None => None,
                    }
                } else {
                    None
                }
            } else {
                None
            }
        } else {
            None
        }
    } else if (t[0] as u32) < 32 {
        None
    } else {
        match spec_parse_string_body(t.drop_first()) {
            Some((s, r)) => Some((seq![t[0]] + s, r)),
            None => None,
        }
    }
}

/// A string token, opening quote included.
pub open spec fn spec_parse_string(t: Seq<char>) -> Option<(Seq<char>, Seq<char>)> {
    if t.len() > 0 && t[0] == '"' {
        spec_parse_string_body(t.drop_first())
    } else {
        None
    }
}

/// How many decimal digits the input starts with.
pub open spec fn spec_digit_run(t: Seq<char>) -> int
    decreases t.len(),
{
    if t.len() > 0 && is_digit(t[0]) {
        1 + spec_digit_run(t.drop_first())
    } else {
        0
    }
}

/// The number a sequence of decimal digits denotes, most significant first.
pub open spec fn spec_digits_value(d: Seq<char>) -> int
    decreases d.len(),
{
    if d.len() == 0 {
        0
    } else {
        spec_digits_value(d.drop_last()) * 10 + digit_value(d.last())
    }
}

/// An integer token: an optional minus sign and digits with no superfluous
/// leading zero, whose value fits a signed 64-bit integer.
pub open spec fn spec_parse_number(t: Seq<char>) -> Option<(int, Seq<char>)> {
    let neg = t.len() > 0 && t[0] == '-';
    let t1 = if neg {
        t.drop_first()
    } else {
        t
    };
    let n = spec_digit_run(t1);
    if n == 0 {
        None
    } else if t1[0] == '0' && n > 1 {
        None
    } else {
        let mag = spec_digits_value(t1.take(n));
        let v = if neg {
            -mag
        } else {
            mag
        };
        if -0x8000_0000_0000_0000 <= v && v <= 0x7FFF_FFFF_FFFF_FFFF {
            Some((v, t1.skip(n)))
        } else {
            None
        }
    }
}

/// A member value, with leading whitespace already discarded.
pub open spec fn spec_parse_value(t: Seq<char>) -> Option<(ScalarModel, Seq<char>)> {
    if t.len() == 0 {
        None
    } else if t[0] == '"' {
        match spec_parse_string(t) {
            Some((s, r)) => Some((ScalarModel::Text(s), r)),
            None => None,
        }
    } else if t[0] == '-' || is_digit(t[0]) {
        match spec_parse_number(t) {
            Some((v, r)) => Some((ScalarModel::Integer(v), r)),
            None => None,
        }
    } else if t.len() >= 4 && t[0] == 't' && t[1] == 'r' && t[2] == 'u' && t[3] == 'e' {
        Some((ScalarModel::Flag(true), t.skip(4)))
    } else if t.len() >= 5 && t[0] == 'f' && t[1] == 'a' && t[2] == 'l' && t[3] == 's' && t[4]
        == 'e' {
        Some((ScalarModel::Flag(false), t.skip(5)))
    } else {
        None
    }
}

/// One `"key": value` member, leading whitespace allowed.
pub open spec fn spec_parse_member(t: Seq<char>) -> Option<((Seq<char>, ScalarModel), Seq<char>)> {
    let t0 = spec_skip_ws(t);
    match spec_parse_string(t0) {
        None => None,
        Some((k, r)) => {
            let r1 = spec_skip_ws(r);
            if r1.len() > 0 && r1[0] == ':' {
                match spec_parse_value(spec_skip_ws(r1.drop_first())) {
                    None => None,
                    Some((v, r2)) => Some(((k, v), r2)),
                }
            } else {
                None
            }
        },
    }
}

/// A non-empty, comma-separated member list; the leftover input has the
/// whitespace after the last member already discarded.
pub open spec fn spec_parse_members(t: Seq<char>) -> Option<
    (Seq<(Seq<char>, ScalarModel)>, Seq<char>),
>
    decreases t.len(),
    via spec_parse_members_decreases
{
    match spec_parse_member(t) {
        None => None,
        Some((kv, r)) => {
            let r1 = spec_skip_ws(r);
            if r1.len() > 0 && r1[0] == ',' {
                match spec_parse_members(r1.drop_first()) {
                    None => None,
                    Some((ms, r2)) => Some((seq![kv] + ms, r2)),
                }
            } else {
                Some((seq![kv], r1))
            }
        },
    }
}

#[via_fn]
proof fn spec_parse_members_decreases(t: Seq<char>) {
    lemma_parse_member_len(t);
    match spec_parse_member(t) {
        Some((kv, r)) => lemma_skip_ws_len(r),
        None => (),
    }
}

/// A whole object token, braces included.
pub open spec fn spec_parse_object(t: Seq<char>) -> Option<
    (Seq<(Seq<char>, ScalarModel)>, Seq<char>),
> {
    let t0 = spec_skip_ws(t);
    if t0.len() > 0 && t0[0] == '{' {
        let t1 = spec_skip_ws(t0.drop_first());
        if t1.len() > 0 && t1[0] == '}' {
            Some((Seq::<(Seq<char>, ScalarModel)>::empty(), t1.drop_first()))
        } else {
            match spec_parse_members(t0.drop_first()) {
                None => None,
                Some((ms, r)) => if r.len() > 0 && r[0] == '}' {
                    Some((ms, r.drop_first()))
                } else {
                    None
                },
            }
        }
    } else {
        None
    }
}

/// A complete document: one object and nothing but whitespace after it.
pub open spec fn spec_parse_document(t: Seq<char>) -> Option<Seq<(Seq<char>, ScalarModel)>> {
    match spec_parse_object(t) {
        None => None,
        Some((ms, r)) => if spec_skip_ws(r).len() == 0 {
            Some(ms)
        } else {
            None
        },
    }
}

/// Whether every member value is a string.
pub open spec fn all_text(ms: Seq<(Seq<char>, ScalarModel)>) -> bool {
    forall|i: int| 0 <= i < ms.len() ==> ms[i].1 is Text
}

/// The string a `Text` value holds.
pub open spec fn text_of(v: ScalarModel) -> Seq<char> {
    match v {
        ScalarModel::Text(s) => s,
        _ => Seq::<char>::empty(),
    }
}

/// The members of an all-string object, as plain key/value pairs.
pub open spec fn members_to_pairs(ms: Seq<(Seq<char>, ScalarModel)>) -> Seq<
    (Seq<char>, Seq<char>),
> {
    ms.map(|i: int, p: (Seq<char>, ScalarModel)| (p.0, text_of(p.1)))
}

/// A document that must be an object of strings: the flat mapping it holds.
pub open spec fn spec_decode_str_map(t: Seq<char>) -> Option<Seq<(Seq<char>, Seq<char>)>> {
    match spec_parse_document(t) {
        None => None,
        Some(ms) => if all_text(ms) {
            Some(members_to_pairs(ms))
        } else {
            None
        },
    }
}

// ---------------------------------------------------------------------------
// The encoder: the canonical unpadded form a mapping is written in.
// ---------------------------------------------------------------------------

/// The lowercase hexadecimal digit for a value below sixteen.
pub open spec fn hex_digit_char(v: int) -> char {
    if v < 10 {
        ((48 + v) as u32) as char
    } else {
        ((87 + v) as u32) as char
    }
}

/// How one character is written inside a string token: the two-character
/// escapes where JSON has them, `\u00XX` for the remaining control
/// characters, and the character itself otherwise.
pub open spec fn spec_escape_char(c: char) -> Seq<char> {
    if c == '"' {
        seq!['\\', '"']
    } else if c == '\\' {
        seq!['\\', '\\']
    } else if c == '\u{0008}' {
        seq!['\\', 'b']
    } else if c == '\u{000C}' {
        seq!['\\', 'f']
    } else if c == '\n' {
        seq!['\\', 'n']
    } else if c == '\r' {
        seq!['\\', 'r']
    } else if c == '\t' {
        seq!['\\', 't']
    } else if (c as u32) < 32 {
        seq!['\\', 'u', '0', '0', hex_digit_char(c as u32 as int / 16), hex_digit_char(c as u32 as int % 16)]
    } else {
        seq![c]
    }
}

/// A string's characters, escaped.
pub open spec fn spec_escape(s: Seq<char>) -> Seq<char>
    decreases s.len(),
{
    if s.len() == 0 {
        Seq::<char>::empty()
    } else {
        spec_escape_char(s[0]) + spec_escape(s.drop_first())
    }
}

/// A string token: the escaped characters between quotes.
pub open spec fn spec_encode_string(s: Seq<char>) -> Seq<char> {
    seq!['"'] + spec_escape(s) + seq!['"']
}

/// One `"key":"value"` member.
pub open spec fn spec_encode_pair(p: (Seq<char>, Seq<char>)) -> Seq<char> {
    spec_encode_string(p.0) + seq![':'] + spec_encode_string(p.1)
}

/// The members of a mapping, comma-separated.
pub open spec fn spec_encode_pairs(m: Seq<(Seq<char>, Seq<char>)>) -> Seq<char>
    decreases m.len(),
{
    if m.len() == 0 {
        Seq::<char>::empty()
    } else if m.len() == 1 {
        spec_encode_pair(m[0])
    } else {
        spec_encode_pair(m[0]) + seq![','] + spec_encode_pairs(m.drop_first())
    }
}

/// A whole mapping as a JSON object of strings.
pub open spec fn spec_encode_map(m: Seq<(Seq<char>, Seq<char>)>) -> Seq<char> {
    seq!['{'] + spec_encode_pairs(m) + seq!['}']
}

/// The members an all-string mapping turns into when parsed back.
pub open spec fn pairs_to_members(m: Seq<(Seq<char>, Seq<char>)>) -> Seq<
    (Seq<char>, ScalarModel),
> {
    m.map(|i: int, p: (Seq<char>, Seq<char>)| (p.0, ScalarModel::Text(p.1)))
}

// ---------------------------------------------------------------------------
// Length facts: every token consumes input.  These justify termination of
// the member list above and progress of the executable parser below.
// ---------------------------------------------------------------------------

pub proof fn lemma_skip_ws_len(t: Seq<char>)
    ensures
        spec_skip_ws(t).len() <= t.len(),
    decreases t.len(),
{
    if t.len() > 0 && is_ws(t[0]) {
        lemma_skip_ws_len(t.drop_first());
    }
}

pub proof fn lemma_parse_string_body_len(t: Seq<char>)
    ensures
        spec_parse_string_body(t) matches Some((s, r)) ==> r.len() < t.len(),
    decreases t.len(),
{
    if t.len() == 0 {
    } else if t[0] == '"' {
    } else if t[0] == '\\' {
        if t.len() >= 2 && spec_unescape(t[1]) is Some {
            lemma_parse_string_body_len(t.skip(2));
        } else if t.len() >= 6 && t[1] == 'u' {
            lemma_parse_string_body_len(t.skip(6));
        }
    } else {
        lemma_parse_string_body_len(t.drop_first());
    }
}

pub proof fn lemma_parse_string_len(t: Seq<char>)
    ensures
        spec_parse_string(t) matches Some((s, r)) ==> r.len() < t.len(),
{
    if t.len() > 0 && t[0] == '"' {
        lemma_parse_string_body_len(t.drop_first());
    }
}

pub proof fn lemma_parse_number_len(t: Seq<char>)
    ensures
        spec_parse_number(t) matches Some((v, r)) ==> r.len() < t.len(),
{
    let neg = t.len() > 0 && t[0] == '-';
    let t1 = if neg {
        t.drop_first()
    } else {
        t
    };
    lemma_digit_run_bounds(t1);
}

pub proof fn lemma_digit_run_bounds(t: Seq<char>)
    ensures
        0 <= spec_digit_run(t) <= t.len(),
    decreases t.len(),
{
    if t.len() > 0 && is_digit(t[0]) {
        lemma_digit_run_bounds(t.drop_first());
    }
}

pub proof fn lemma_parse_value_len(t: Seq<char>)
    ensures
        spec_parse_value(t) matches Some((v, r)) ==> r.len() < t.len(),
{
    lemma_parse_string_len(t);
    lemma_parse_number_len(t);
}

pub proof fn lemma_parse_member_len(t: Seq<char>)
    ensures
        spec_parse_member(t) matches Some((kv, r)) ==> r.len() < t.len(),
{
    let t0 = spec_skip_ws(t);
    lemma_skip_ws_len(t);
    lemma_parse_string_len(t0);
    match spec_parse_string(t0) {
        Some((k, r)) => {
            lemma_skip_ws_len(r);
            let r1 = spec_skip_ws(r);
            if r1.len() > 0 && r1[0] == ':' {
                lemma_skip_ws_len(r1.drop_first());
                lemma_parse_value_len(spec_skip_ws(r1.drop_first()));
            }
        },
        None => (),
    }
}

// ---------------------------------------------------------------------------
// Round trip: decoding an encoded mapping gives the mapping back.
// ---------------------------------------------------------------------------

proof fn lemma_skip_ws_noop(t: Seq<char>)
    requires
        t.len() == 0 || !is_ws(t[0]),
    ensures
        spec_skip_ws(t) == t,
{
}

proof fn lemma_hex_digit_char(v: int)
    requires
        0 <= v < 16,
    ensures
        is_hex_digit(hex_digit_char(v)),
        hex_digit_value(hex_digit_char(v)) == v,
{
}

proof fn lemma_parse_string_body_escape(s: Seq<char>, rest: Seq<char>)
    ensures
        spec_parse_string_body(spec_escape(s) + seq!['"'] + rest) == Some((s, rest)),
    decreases s.len(),
{
    let t = spec_escape(s) + seq!['"'] + rest;
    if s.len() == 0 {
        assert(t =~= seq!['"'] + rest);
        assert(t[0] == '"');
        assert(t.drop_first() =~= rest);
        assert(s =~= Seq::<char>::empty());
    } else {
        let c = s[0];
        let s1 = s.drop_first();
        let e = spec_escape_char(c);
        assert(spec_escape(s) == e + spec_escape(s1));
        let t2 = spec_escape(s1) + seq!['"'] + rest;
        assert(t =~= e + t2);
        lemma_parse_string_body_escape(s1, rest);
        if c == '"' || c == '\\' || c == '\u{0008}' || c == '\u{000C}' || c == '\n' || c == '\r'
            || c == '\t' {
            assert(t[0] == '\\');
            assert(spec_unescape(t[1]) == Some(c));
            assert(t.skip(2) =~= t2);
            assert(spec_parse_string_body(t) == Some((seq![c] + s1, rest)));
            assert(seq![c] + s1 =~= s);
        } else if (c as u32) < 32 {
            let hi = c as u32 / 16;
            let lo = c as u32 % 16;
            vstd::arithmetic::div_mod::lemma_fundamental_div_mod(c as u32 as int, 16);
            assert(hi * 16 + lo == c as u32);
            assert(0 <= hi < 16 && 0 <= lo < 16);
            lemma_hex_digit_char(hi as int);
            lemma_hex_digit_char(lo as int);
            assert(t[0] == '\\' && t[1] == 'u' && t[2] == '0' && t[3] == '0');
            assert(t[4] == hex_digit_char(hi as int) && t[5] == hex_digit_char(lo as int));
            assert(spec_unescape('u') is None);
            assert(t.len() >= 6);
            let v = hex_digit_value(t[2]) * 4096 + hex_digit_value(t[3]) * 256 + hex_digit_value(
                t[4],
            ) * 16 + hex_digit_value(t[5]);
            assert(hex_digit_value('0') == 0);
            assert(v == c as u32);
            assert(v < 0xD800);
            vstd::utf8::char_u32_cast(c, c as u32);
            assert((v as u32) as char == c);
            assert(t.skip(6) =~= t2);
            assert(spec_parse_string_body(t) == Some((seq![c] + s1, rest)));
            assert(seq![c] + s1 =~= s);
        } else {
            assert(e =~= seq![c]);
            assert(t[0] == c);
            assert(t.drop_first() =~= t2);
            assert(spec_parse_string_body(t) == Some((seq![c] + s1, rest)));
            assert(seq![c] + s1 =~= s);
        }
    }
}

proof fn lemma_parse_string_encode(s: Seq<char>, rest: Seq<char>)
    ensures
        spec_parse_string(spec_encode_string(s) + rest) == Some((s, rest)),
{
    let t = spec_encode_string(s) + rest;
    assert(t[0] == '"');
    assert(t.drop_first() =~= spec_escape(s) + seq!['"'] + rest);
    lemma_parse_string_body_escape(s, rest);
}

proof fn lemma_parse_member_encode(k: Seq<char>, v: Seq<char>, rest: Seq<char>)
    ensures
        spec_parse_member(spec_encode_pair((k, v)) + rest) == Some(
            ((k, ScalarModel::Text(v)), rest),
        ),
{
    let t = spec_encode_pair((k, v)) + rest;
    assert(t[0] == '"');
    lemma_skip_ws_noop(t);
    let rest1 = seq![':'] + spec_encode_string(v) + rest;
    assert(t =~= spec_encode_string(k) + rest1);
    lemma_parse_string_encode(k, rest1);
    assert(rest1[0] == ':');
    lemma_skip_ws_noop(rest1);
    let rest2 = spec_encode_string(v) + rest;
    assert(rest1.drop_first() =~= rest2);
    assert(rest2[0] == '"');
    lemma_skip_ws_noop(rest2);
    lemma_parse_string_encode(v, rest);
    assert(spec_parse_value(rest2) == Some((ScalarModel::Text(v), rest)));
}

proof fn lemma_parse_members_encode(m: Seq<(Seq<char>, Seq<char>)>, rest: Seq<char>)
    requires
        m.len() > 0,
        rest.len() > 0,
        rest[0] == '}',
    ensures
        spec_parse_members(spec_encode_pairs(m) + rest) == Some((pairs_to_members(m), rest)),
    decreases m.len(),
{
    let t = spec_encode_pairs(m) + rest;
    assert(m[0] == (m[0].0, m[0].1));
    if m.len() == 1 {
        assert(t =~= spec_encode_pair((m[0].0, m[0].1)) + rest);
        lemma_parse_member_encode(m[0].0, m[0].1, rest);
        lemma_skip_ws_noop(rest);
        assert(seq![(m[0].0, ScalarModel::Text(m[0].1))] =~= pairs_to_members(m));
    } else {
        let m1 = m.drop_first();
        let rest1 = seq![','] + spec_encode_pairs(m1) + rest;
        assert(t =~= spec_encode_pair((m[0].0, m[0].1)) + rest1);
        lemma_parse_member_encode(m[0].0, m[0].1, rest1);
        assert(rest1[0] == ',');
        lemma_skip_ws_noop(rest1);
        let t_next = spec_encode_pairs(m1) + rest;
        assert(rest1.drop_first() =~= t_next);
        lemma_parse_members_encode(m1, rest);
        assert(seq![(m[0].0, ScalarModel::Text(m[0].1))] + pairs_to_members(m1)
            =~= pairs_to_members(m));
    }
}

/// Encoding any flat string-to-string mapping as a JSON object and then
/// decoding it through the nested-decode path yields back an equal mapping.
pub proof fn lemma_encode_decode_round_trip(m: Seq<(Seq<char>, Seq<char>)>)
    ensures
        spec_decode_str_map(spec_encode_map(m)) == Some(m),
{
    let t = spec_encode_map(m);
    assert(t[0] == '{');
    lemma_skip_ws_noop(t);
    let after = spec_encode_pairs(m) + seq!['}'];
    assert(t.drop_first() =~= after);
    if m.len() == 0 {
        assert(after =~= seq!['}']);
        lemma_skip_ws_noop(after);
        assert(after.drop_first() =~= Seq::<char>::empty());
        lemma_skip_ws_noop(Seq::<char>::empty());
        assert(members_to_pairs(Seq::<(Seq<char>, ScalarModel)>::empty()) =~= m);
    } else {
        assert(spec_encode_pair(m[0])[0] == '"');
        assert(spec_encode_pairs(m)[0] == '"');
        assert(after[0] == '"');
        lemma_skip_ws_noop(after);
        lemma_parse_members_encode(m, seq!['}']);
        assert(seq!['}'].drop_first() =~= Seq::<char>::empty());
        lemma_skip_ws_noop(Seq::<char>::empty());
        assert(all_text(pairs_to_members(m)));
        assert(members_to_pairs(pairs_to_members(m)) =~= m);
    }
}

// ---------------------------------------------------------------------------
// The executable parser.  Each function mirrors one grammar function and is
// proved to return exactly what it does.
// ---------------------------------------------------------------------------

/// A decoded member value.
pub enum Scalar {
    Text(String),
    Integer(i64),
    Flag(bool),
}

impl View for Scalar {
    type V = ScalarModel;

    open spec fn view(&self) -> ScalarModel {
        match self {
            Scalar::Text(s) => ScalarModel::Text(s@),
            Scalar::Integer(v) => ScalarModel::Integer(*v as int),
            Scalar::Flag(b) => ScalarModel::Flag(*b),
        }
    }
}

/// Relies on char::from_u32: every code point below the surrogate range,
/// and every one from 0xE000 up to 0x10FFFF, is a char with that code.
#[verifier::external_body]
fn char_from_code(v: u32) -> (c: char)
    requires
        v < 0xD800 || (0xE000 <= v && v <= 0x10FFFF),
    ensures
        c as u32 == v,
{
    char::from_u32(v).unwrap()
}

/// Relies on String::push: appends one character at the end.
#[verifier::external_body]
fn push_char(s: &mut String, c: char)
    ensures
        final(s)@ == old(s)@.push(c),
{
    s.push(c);
}

/// The characters of a string, in order.
pub(crate) fn str_to_chars(s: &str) -> (r: Vec<char>)
    ensures
        r@ == s@,
{
    let n = s.unicode_len();
    let mut r: Vec<char> = Vec::new();
    let mut k: usize = 0;
    while k < n
        invariant
            k <= n,
            n == s@.len(),
            r@ == s@.take(k as int),
        decreases n - k,
    {
        let c = s.get_char(k);
        r.push(c);
        proof {
            assert(s@.take(k as int + 1) =~= s@.take(k as int).push(s@[k as int]));
        }
        k = k + 1;
    }
    proof {
        assert(s@.take(n as int) =~= s@);
    }
    r
}

fn ws_char(c: char) -> (r: bool)
    ensures
        r == is_ws(c),
{
    c == ' ' || c == '\t' || c == '\n' || c == '\r'
}

fn skip_ws(s: &Vec<char>, i: usize) -> (r: usize)
    requires
        i <= s@.len(),
    ensures
        i <= r <= s@.len(),
        spec_skip_ws(s@.skip(i as int)) == s@.skip(r as int),
{
    let mut j = i;
    while j < s.len() && ws_char(s[j])
        invariant
            i <= j <= s@.len(),
            spec_skip_ws(s@.skip(i as int)) == spec_skip_ws(s@.skip(j as int)),
        decreases s@.len() - j,
    {
        proof {
            assert(s@.skip(j as int)[0] == s@[j as int]);
            assert(s@.skip(j as int).drop_first() =~= s@.skip(j as int + 1));
        }
        j = j + 1;
    }
    proof {
        if j < s.len() {
            assert(s@.skip(j as int)[0] == s@[j as int]);
        }
        assert(spec_skip_ws(s@.skip(j as int)) == s@.skip(j as int));
    }
    j
}

fn hex_val(c: char) -> (r: Option<u32>)
    ensures
        match r {
            Some(v) => is_hex_digit(c) && v == hex_digit_value(c) && v < 16,
            None => !is_hex_digit(c),
        },
{
    let u = c as u32;
    if 48 <= u && u <= 57 {
        Some(u - 48)
    } else if 97 <= u && u <= 102 {
        Some(u - 87)
    } else if 65 <= u && u <= 70 {
        Some(u - 55)
    } else {
        None
    }
}

fn unescape_char(c: char) -> (r: Option<char>)
    ensures
        r == spec_unescape(c),
{
    if c == '"' {
        Some('"')
    } else if c == '\\' {
        Some('\\')
    } else if c == '/' {
        Some('/')
    } else if c == 'b' {
        Some('\u{0008}')
    } else if c == 'f' {
        Some('\u{000C}')
    } else if c == 'n' {
        Some('\n')
    } else if c == 'r' {
        Some('\r')
    } else if c == 't' {
        Some('\t')
    } else {
        None
    }
}

fn parse_string(s: &Vec<char>, i: usize) -> (r: Option<(String, usize)>)
    requires
        i <= s@.len(),
    ensures
        match r {
            Some((v, j)) => i < j <= s@.len() && spec_parse_string(s@.skip(i as int)) == Some(
                (v@, s@.skip(j as int)),
            ),
            None => spec_parse_string(s@.skip(i as int)) is None,
        },
{
    if i >= s.len() || s[i] != '"' {
        proof {
            if i < s.len() {
                assert(s@.skip(i as int)[0] == s@[i as int]);
            } else {
                assert(s@.skip(i as int).len() == 0);
            }
        }
        return None;
    }
    proof {
        assert(s@.skip(i as int)[0] == s@[i as int]);
        assert(s@.skip(i as int).drop_first() =~= s@.skip(i as int + 1));
    }
    let mut out = String::new();
    let mut j = i + 1;
    loop
        invariant
            i + 1 <= j <= s@.len(),
            spec_parse_string(s@.skip(i as int)) == spec_parse_string_body(s@.skip(i as int + 1)),
            spec_parse_string_body(s@.skip(i as int + 1)) == (match spec_parse_string_body(
                s@.skip(j as int),
            ) {
                Some((v, rr)) => Some::<(Seq<char>, Seq<char>)>((out@ + v, rr)),
                None => None::<(Seq<char>, Seq<char>)>,
            }),
        decreases s@.len() - j,
    {
        if j >= s.len() {
            proof {
                assert(s@.skip(j as int).len() == 0);
            }
            return None;
        }
        let c = s[j];
        proof {
            assert(s@.skip(j as int)[0] == s@[j as int]);
        }
        if c == '"' {
            proof {
                assert(s@.skip(j as int).drop_first() =~= s@.skip(j as int + 1));
                assert(out@ + Seq::<char>::empty() =~= out@);
            }
            return Some((out, j + 1));
        } else if c == '\\' {
            if j + 1 >= s.len() {
                proof {
                    assert(s@.skip(j as int).len() < 2);
                }
                return None;
            }
            let c2 = s[j + 1];
            proof {
                assert(s@.skip(j as int)[1] == s@[j as int + 1]);
            }
            match unescape_char(c2) {
                Some(u) => {
                    proof {
                        assert(s@.skip(j as int).skip(2) =~= s@.skip(j as int + 2));
                    }
                    let ghost out0 = out@;
                    push_char(&mut out, u);
                    proof {
                        match spec_parse_string_body(s@.skip(j as int + 2)) {
                            Some((v, rr)) => {
                                assert(out0 + (seq![u] + v) =~= out@ + v);
                            },
                            None => (),
                        }
                    }
                    j = j + 2;
                },
                None => {
                    if c2 == 'u' {
                        if s.len() - j < 6 {
                            proof {
                                assert(s@.skip(j as int).len() < 6);
                            }
                            return None;
                        }
                        proof {
                            assert(s@.skip(j as int)[2] == s@[j as int + 2]);
                            assert(s@.skip(j as int)[3] == s@[j as int + 3]);
                            assert(s@.skip(j as int)[4] == s@[j as int + 4]);
                            assert(s@.skip(j as int)[5] == s@[j as int + 5]);
                        }
                        let h0 = hex_val(s[j + 2]);
                        let h1 = hex_val(s[j + 3]);
                        let h2 = hex_val(s[j + 4]);
                        let h3 = hex_val(s[j + 5]);
                        if h0.is_none() || h1.is_none() || h2.is_none() || h3.is_none() {
                            return None;
                        }
                        let v: u32 = h0.unwrap() * 4096 + h1.unwrap() * 256 + h2.unwrap() * 16
                            + h3.unwrap();
                        if 0xD800 <= v && v <= 0xDFFF {
                            return None;
                        }
                        let u = char_from_code(v);
                        proof {
                            vstd::utf8::char_u32_cast(u, v);
                            assert(s@.skip(j as int).skip(6) =~= s@.skip(j as int + 6));
                        }
                        let ghost out0 = out@;
                        push_char(&mut out, u);
                        proof {
                            match spec_parse_string_body(s@.skip(j as int + 6)) {
                                Some((w, rr)) => {
                                    assert(out0 + (seq![u] + w) =~= out@ + w);
                                },
                                None => (),
                            }
                        }
                        j = j + 6;
                    } else {
                        return None;
                    }
                },
            }
        } else if (c as u32) < 32 {
            return None;
        } else {
            proof {
                assert(s@.skip(j as int).drop_first() =~= s@.skip(j as int + 1));
            }
            let ghost out0 = out@;
            push_char(&mut out, c);
            proof {
                match spec_parse_string_body(s@.skip(j as int + 1)) {
                    Some((v, rr)) => {
                        assert(out0 + (seq![c] + v) =~= out@ + v);
                    },
                    None => (),
                }
            }
            j = j + 1;
        }
    }
}

fn digit_char(c: char) -> (r: bool)
    ensures
        r == is_digit(c),
{
    let u = c as u32;
    48 <= u && u <= 57
}

proof fn lemma_digits_value_mono(d: Seq<char>, k: int)
    requires
        0 <= k <= d.len(),
        forall|l: int| 0 <= l < d.len() ==> is_digit(d[l]),
    ensures
        0 <= spec_digits_value(d.take(k)),
        spec_digits_value(d.take(k)) <= spec_digits_value(d),
    decreases d.len(),
{
    if d.len() == 0 {
    } else {
        let d1 = d.drop_last();
        assert(forall|l: int| 0 <= l < d1.len() ==> is_digit(d1[l]));
        if k == d.len() {
            assert(d.take(k) =~= d);
            lemma_digits_value_mono(d1, d1.len() as int);
            assert(spec_digits_value(d1) * 10 >= spec_digits_value(d1));
        } else {
            assert(d.take(k) =~= d1.take(k));
            lemma_digits_value_mono(d1, k);
            assert(spec_digits_value(d1) * 10 >= spec_digits_value(d1));
        }
    }
}

fn parse_number(s: &Vec<char>, i: usize) -> (r: Option<(i64, usize)>)
    requires
        i <= s@.len(),
    ensures
        match r {
            Some((v, j)) => i < j <= s@.len() && spec_parse_number(s@.skip(i as int)) == Some(
                (v as int, s@.skip(j as int)),
            ),
            None => spec_parse_number(s@.skip(i as int)) is None,
        },
{
    let ghost t = s@.skip(i as int);
    let neg = i < s.len() && s[i] == '-';
    proof {
        if i < s.len() {
            assert(t[0] == s@[i as int]);
        }
    }
    let start = if neg {
        i + 1
    } else {
        i
    };
    let ghost t1 = s@.skip(start as int);
    proof {
        if neg {
            assert(t.drop_first() =~= t1);
        }
    }
    // Count the leading digits.
    let mut j = start;
    while j < s.len() && digit_char(s[j])
        invariant
            start <= j <= s@.len(),
            spec_digit_run(s@.skip(start as int)) == (j - start) + spec_digit_run(
                s@.skip(j as int),
            ),
            forall|l: int| start <= l < j ==> is_digit(s@[l]),
        decreases s@.len() - j,
    {
        proof {
            assert(s@.skip(j as int)[0] == s@[j as int]);
            assert(s@.skip(j as int).drop_first() =~= s@.skip(j as int + 1));
        }
        j = j + 1;
    }
    proof {
        if j < s.len() {
            assert(s@.skip(j as int)[0] == s@[j as int]);
        }
        assert(spec_digit_run(s@.skip(j as int)) == 0);
        assert(spec_digit_run(t1) == j - start);
    }
    if j == start {
        return None;
    }
    proof {
        assert(t1[0] == s@[start as int]);
    }
    if s[start] == '0' && j - start > 1 {
        return None;
    }
    // Accumulate the magnitude, stopping if it cannot fit.
    let limit: u64 = if neg {
        9223372036854775808
    } else {
        9223372036854775807
    };
    let ghost d = s@.subrange(start as int, j as int);
    proof {
        assert(d =~= t1.take((j - start) as int));
    }
    let mut acc: u64 = 0;
    let mut p = start;
    while p < j
        invariant
            i <= start <= p <= j <= s@.len(),
            acc <= limit,
            neg == (s@.skip(i as int).len() > 0 && s@.skip(i as int)[0] == '-'),
            start == (if neg {
                i + 1
            } else {
                i as int
            }),
            t1 == s@.skip(start as int),
            spec_digit_run(t1) == j - start,
            j > start,
            !(t1[0] == '0' && j - start > 1),
            limit == (if neg {
                9223372036854775808u64
            } else {
                9223372036854775807u64
            }),
            d == s@.subrange(start as int, j as int),
            forall|l: int| start <= l < j ==> is_digit(s@[l]),
            acc as int == spec_digits_value(d.take((p - start) as int)),
        decreases j - p,
    {
        let dv = s[p] as u32 - 48;
        proof {
            assert(is_digit(s@[p as int]));
            assert(d[(p - start) as int] == s@[p as int]);
            assert(d.take((p - start) as int + 1).drop_last() =~= d.take((p - start) as int));
            assert(d.take((p - start) as int + 1).last() == s@[p as int]);
        }
        if acc > limit / 10 || (acc == limit / 10 && dv as u64 > limit % 10) {
            proof {
                vstd::arithmetic::div_mod::lemma_fundamental_div_mod(limit as int, 10);
                assert(spec_digits_value(d.take((p - start) as int + 1)) > limit);
                assert(forall|l: int| 0 <= l < d.len() ==> is_digit(d[l]));
                lemma_digits_value_mono(d, (p - start) as int + 1);
                assert(spec_digits_value(d) > limit);
                if neg {
                    assert(s@.skip(i as int).drop_first() =~= t1);
                }
                assert(d =~= t1.take((j - start) as int));
                assert(spec_parse_number(s@.skip(i as int)) is None);
            }
            return None;
        }
        acc = acc * 10 + dv as u64;
        p = p + 1;
    }
    proof {
        assert(d.take((j - start) as int) =~= d);
        assert(t1.skip((j - start) as int) =~= s@.skip(j as int));
    }
    let v: i64 = if neg {
        if acc == 9223372036854775808 {
            i64::MIN
        } else {
            -(acc as i64)
        }
    } else {
        acc as i64
    };
    Some((v, j))
}

fn parse_value(s: &Vec<char>, i: usize) -> (r: Option<(Scalar, usize)>)
    requires
        i <= s@.len(),
    ensures
        match r {
            Some((v, j)) => i < j <= s@.len() && spec_parse_value(s@.skip(i as int)) == Some(
                (v@, s@.skip(j as int)),
            ),
            None => spec_parse_value(s@.skip(i as int)) is None,
        },
{
    let ghost t = s@.skip(i as int);
    if i >= s.len() {
        return None;
    }
    let c = s[i];
    proof {
        assert(t[0] == s@[i as int]);
    }
    if c == '"' {
        match parse_string(s, i) {
            Some((v, j)) => Some((Scalar::Text(v), j)),
            None => None,
        }
    } else if c == '-' || digit_char(c) {
        match parse_number(s, i) {
            Some((v, j)) => Some((Scalar::Integer(v), j)),
            None => None,
        }
    } else if c == 't' {
        proof {
            assert(!is_digit('t'));
        }
        if s.len() - i >= 4 && s[i + 1] == 'r' && s[i + 2] == 'u' && s[i + 3] == 'e' {
            proof {
                assert(t[1] == s@[i as int + 1]);
                assert(t[2] == s@[i as int + 2]);
                assert(t[3] == s@[i as int + 3]);
                assert(t.skip(4) =~= s@.skip(i as int + 4));
            }
            Some((Scalar::Flag(true), i + 4))
        } else {
            proof {
                if t.len() >= 4 {
                    assert(t[1] == s@[i as int + 1]);
                    assert(t[2] == s@[i as int + 2]);
                    assert(t[3] == s@[i as int + 3]);
                }
            }
            None
        }
    } else if c == 'f' {
        proof {
            assert(!is_digit('f'));
        }
        if s.len() - i >= 5 && s[i + 1] == 'a' && s[i + 2] == 'l' && s[i + 3] == 's' && s[i + 4]
            == 'e' {
            proof {
                assert(t[1] == s@[i as int + 1]);
                assert(t[2] == s@[i as int + 2]);
                assert(t[3] == s@[i as int + 3]);
                assert(t[4] == s@[i as int + 4]);
                assert(t.skip(5) =~= s@.skip(i as int + 5));
            }
            Some((Scalar::Flag(false), i + 5))
        } else {
            proof {
                if t.len() >= 5 {
                    assert(t[1] == s@[i as int + 1]);
                    assert(t[2] == s@[i as int + 2]);
                    assert(t[3] == s@[i as int + 3]);
                    assert(t[4] == s@[i as int + 4]);
                }
            }
            None
        }
    } else {
        None
    }
}

fn parse_member(s: &Vec<char>, i: usize) -> (r: Option<((String, Scalar), usize)>)
    requires
        i <= s@.len(),
    ensures
        match r {
            Some(((k, v), j)) => i < j <= s@.len() && spec_parse_member(s@.skip(i as int))
                == Some(((k@, v@), s@.skip(j as int))),
            None => spec_parse_member(s@.skip(i as int)) is None,
        },
{
    let a = skip_ws(s, i);
    match parse_string(s, a) {
        None => None,
        Some((k, b)) => {
            let cpos = skip_ws(s, b);
            if cpos < s.len() && s[cpos] == ':' {
                proof {
                    assert(s@.skip(cpos as int)[0] == s@[cpos as int]);
                    assert(s@.skip(cpos as int).drop_first() =~= s@.skip(cpos as int + 1));
                }
                let dpos = skip_ws(s, cpos + 1);
                match parse_value(s, dpos) {
                    None => None,
                    Some((v, e)) => Some(((k, v), e)),
                }
            } else {
                proof {
                    if cpos < s.len() {
                        assert(s@.skip(cpos as int)[0] == s@[cpos as int]);
                    } else {
                        assert(s@.skip(cpos as int).len() == 0);
                    }
                }
                None
            }
        },
    }
}

/// The members a parsed object holds, as the grammar sees them.
pub open spec fn members_model(ms: Seq<(String, Scalar)>) -> Seq<(Seq<char>, ScalarModel)> {
    ms.map(|k: int, p: (String, Scalar)| (p.0@, p.1@))
}

fn parse_members(s: &Vec<char>, i: usize) -> (r: Option<(Vec<(String, Scalar)>, usize)>)
    requires
        i <= s@.len(),
    ensures
        match r {
            Some((ms, j)) => i <= j <= s@.len() && spec_parse_members(s@.skip(i as int)) == Some(
                (members_model(ms@), s@.skip(j as int)),
            ),
            None => spec_parse_members(s@.skip(i as int)) is None,
        },
{
    let mut acc: Vec<(String, Scalar)> = Vec::new();
    let mut j = i;
    loop
        invariant
            i <= j <= s@.len(),
            spec_parse_members(s@.skip(i as int)) == (match spec_parse_members(
                s@.skip(j as int),
            ) {
                Some((ms, rr)) => Some::<(Seq<(Seq<char>, ScalarModel)>, Seq<char>)>(
                    (members_model(acc@) + ms, rr),
                ),
                None => None::<(Seq<(Seq<char>, ScalarModel)>, Seq<char>)>,
            }),
        decreases s@.len() - j,
    {
        match parse_member(s, j) {
            None => {
                return None;
            },
            Some(((k, v), p)) => {
                let ghost acc0 = acc@;
                let ghost kv = (k@, v@);
                acc.push((k, v));
                proof {
                    assert(members_model(acc@) =~= members_model(acc0) + seq![kv]);
                }
                let q = skip_ws(s, p);
                if q < s.len() && s[q] == ',' {
                    proof {
                        assert(s@.skip(q as int)[0] == s@[q as int]);
                        assert(s@.skip(q as int).drop_first() =~= s@.skip(q as int + 1));
                        match spec_parse_members(s@.skip(q as int + 1)) {
                            Some((ms, rr)) => {
                                assert((members_model(acc0) + (seq![kv] + ms)) =~= (members_model(
                                    acc@,
                                ) + ms));
                            },
                            None => (),
                        }
                    }
                    j = q + 1;
                } else {
                    proof {
                        if q < s.len() {
                            assert(s@.skip(q as int)[0] == s@[q as int]);
                        } else {
                            assert(s@.skip(q as int).len() == 0);
                        }
                        assert(members_model(acc0) + seq![kv] =~= members_model(acc@));
                    }
                    return Some((acc, q));
                }
            },
        }
    }
}

fn parse_object(s: &Vec<char>, i: usize) -> (r: Option<(Vec<(String, Scalar)>, usize)>)
    requires
        i <= s@.len(),
    ensures
        match r {
            Some((ms, j)) => i <= j <= s@.len() && spec_parse_object(s@.skip(i as int)) == Some(
                (members_model(ms@), s@.skip(j as int)),
            ),
            None => spec_parse_object(s@.skip(i as int)) is None,
        },
{
    let a = skip_ws(s, i);
    if a < s.len() && s[a] == '{' {
        proof {
            assert(s@.skip(a as int)[0] == s@[a as int]);
            assert(s@.skip(a as int).drop_first() =~= s@.skip(a as int + 1));
        }
        let b = skip_ws(s, a + 1);
        if b < s.len() && s[b] == '}' {
            proof {
                assert(s@.skip(b as int)[0] == s@[b as int]);
                assert(s@.skip(b as int).drop_first() =~= s@.skip(b as int + 1));
                assert(members_model(Seq::<(String, Scalar)>::empty()) =~= Seq::<
                    (Seq<char>, ScalarModel),
                >::empty());
            }
            return Some((Vec::new(), b + 1));
        }
        proof {
            if b < s.len() {
                assert(s@.skip(b as int)[0] == s@[b as int]);
            } else {
                assert(s@.skip(b as int).len() == 0);
            }
        }
        match parse_members(s, a + 1) {
            None => None,
            Some((ms, p)) => {
                if p < s.len() && s[p] == '}' {
                    proof {
                        assert(s@.skip(p as int)[0] == s@[p as int]);
                        assert(s@.skip(p as int).drop_first() =~= s@.skip(p as int + 1));
                    }
                    Some((ms, p + 1))
                } else {
                    proof {
                        if p < s.len() {
                            assert(s@.skip(p as int)[0] == s@[p as int]);
                        } else {
                            assert(s@.skip(p as int).len() == 0);
                        }
                    }
                    None
                }
            },
        }
    } else {
        proof {
            if a < s.len() {
                assert(s@.skip(a as int)[0] == s@[a as int]);
            } else {
                assert(s@.skip(a as int).len() == 0);
            }
        }
        None
    }
}

/// Parse a whole document into its members, if it is one object with
/// nothing but whitespace around it.
pub(crate) fn parse_document_chars(s: &Vec<char>) -> (r: Option<Vec<(String, Scalar)>>)
    ensures
        match r {
            Some(ms) => spec_parse_document(s@) == Some(members_model(ms@)),
            None => spec_parse_document(s@) is None,
        },
{
    proof {
        assert(s@.skip(0) =~= s@);
    }
    match parse_object(s, 0) {
        None => None,
        Some((ms, p)) => {
            let q = skip_ws(s, p);
            if q == s.len() {
                proof {
                    assert(s@.skip(q as int).len() == 0);
                }
                Some(ms)
            } else {
                proof {
                    assert(s@.skip(q as int).len() > 0);
                }
                None
            }
        },
    }
}

/// A mapping held as key/value pairs, as the contracts see it.
pub open spec fn pairs_model(ps: Seq<(String, String)>) -> Seq<(Seq<char>, Seq<char>)> {
    ps.map(|k: int, p: (String, String)| (p.0@, p.1@))
}

/// The pairs of an object whose values are all strings, or nothing.
pub(crate) fn object_of_strings(ms: &Vec<(String, Scalar)>) -> (r: Option<Vec<(String, String)>>)
    ensures
        match r {
            Some(ps) => all_text(members_model(ms@)) && pairs_model(ps@) == members_to_pairs(
                members_model(ms@),
            ),
            None => !all_text(members_model(ms@)),
        },
{
    let mut out: Vec<(String, String)> = Vec::new();
    let mut idx: usize = 0;
    while idx < ms.len()
        invariant
            idx <= ms@.len(),
            out@.len() == idx,
            forall|l: int| 0 <= l < idx ==> members_model(ms@)[l].1 is Text,
            pairs_model(out@) == members_to_pairs(members_model(ms@).take(idx as int)),
        decreases ms@.len() - idx,
    {
        match &ms[idx].1 {
            Scalar::Text(t) => {
                let ghost out0 = out@;
                out.push((ms[idx].0.clone(), t.clone()));
                proof {
                    let mm = members_model(ms@);
                    assert(out@.len() == idx + 1);
                    assert(forall|l: int| 0 <= l < idx ==> out@[l] == out0[l]);
                    assert(out@[idx as int].0@ == ms@[idx as int].0@);
                    assert(out@[idx as int].1@ == t@);
                    assert(mm[idx as int] == (ms@[idx as int].0@, ms@[idx as int].1@));
                    assert(ms@[idx as int].1@ == ScalarModel::Text(t@));
                    assert forall|l: int| 0 <= l < idx + 1 implies pairs_model(out@)[l]
                        == members_to_pairs(mm.take(idx as int + 1))[l] by {
                        if l < idx {
                            assert(pairs_model(out@)[l] == pairs_model(out0)[l]);
                            assert(members_to_pairs(mm.take(idx as int))[l] == members_to_pairs(
                                mm.take(idx as int + 1),
                            )[l]);
                        } else {
                            assert(pairs_model(out@)[l] == (ms@[idx as int].0@, t@));
                        }
                    }
                    assert(pairs_model(out@) =~= members_to_pairs(mm.take(idx as int + 1)));
                }
            },
            _ => {
                proof {
                    assert(!(members_model(ms@)[idx as int].1 is Text));
                }
                return None;
            },
        }
        idx = idx + 1;
    }
    proof {
        assert(members_model(ms@).take(ms@.len() as int) =~= members_model(ms@));
    }
    Some(out)
}

// ---------------------------------------------------------------------------
// The executable encoder.
// ---------------------------------------------------------------------------

proof fn lemma_escape_snoc(s: Seq<char>, c: char)
    ensures
        spec_escape(s.push(c)) == spec_escape(s) + spec_escape_char(c),
    decreases s.len(),
{
    if s.len() == 0 {
        assert(s.push(c) =~= seq![c]);
        assert(seq![c].drop_first() =~= Seq::<char>::empty());
        assert(spec_escape(Seq::<char>::empty()) == Seq::<char>::empty());
        assert(spec_escape(seq![c]) == spec_escape_char(c) + Seq::<char>::empty());
        assert(spec_escape(s.push(c)) =~= spec_escape_char(c));
        assert(spec_escape(s) + spec_escape_char(c) =~= spec_escape_char(c));
    } else {
        assert(s.push(c).drop_first() =~= s.drop_first().push(c));
        assert(s.push(c)[0] == s[0]);
        lemma_escape_snoc(s.drop_first(), c);
        assert(spec_escape_char(s[0]) + (spec_escape(s.drop_first()) + spec_escape_char(c))
            =~= (spec_escape_char(s[0]) + spec_escape(s.drop_first())) + spec_escape_char(c));
    }
}

proof fn lemma_encode_pairs_snoc(m: Seq<(Seq<char>, Seq<char>)>, e: (Seq<char>, Seq<char>))
    ensures
        spec_encode_pairs(m.push(e)) == (if m.len() == 0 {
            spec_encode_pair(e)
        } else {
            spec_encode_pairs(m) + seq![','] + spec_encode_pairs(seq![e])
        }),
    decreases m.len(),
{
    assert(spec_encode_pairs(seq![e]) == spec_encode_pair(e));
    if m.len() == 0 {
        assert(m.push(e) =~= seq![e]);
    } else {
        let mp = m.push(e);
        assert(mp[0] == m[0]);
        assert(mp.drop_first() =~= m.drop_first().push(e));
        lemma_encode_pairs_snoc(m.drop_first(), e);
        assert(mp.len() >= 2);
        assert(spec_encode_pairs(mp) == spec_encode_pair(m[0]) + seq![','] + spec_encode_pairs(
            mp.drop_first(),
        ));
        if m.len() == 1 {
            assert(m.drop_first().len() == 0);
            assert(spec_encode_pairs(mp.drop_first()) == spec_encode_pair(e));
            assert(spec_encode_pairs(m) == spec_encode_pair(m[0]));
            assert(spec_encode_pairs(mp) =~= spec_encode_pairs(m) + seq![',']
                + spec_encode_pairs(seq![e]));
        } else {
            assert(spec_encode_pairs(mp.drop_first()) == spec_encode_pairs(m.drop_first())
                + seq![','] + spec_encode_pairs(seq![e]));
            assert(spec_encode_pairs(m) == spec_encode_pair(m[0]) + seq![',']
                + spec_encode_pairs(m.drop_first()));
            assert(spec_encode_pairs(mp) =~= spec_encode_pairs(m) + seq![',']
                + spec_encode_pairs(seq![e]));
        }
    }
}

fn push_escaped_char(out: &mut String, c: char)
    ensures
        final(out)@ == old(out)@ + spec_escape_char(c),
{
    if c == '"' {
        push_char(out, '\\');
        push_char(out, '"');
        proof {
            assert(out@ =~= old(out)@ + spec_escape_char(c));
        }
    } else if c == '\\' {
        push_char(out, '\\');
        push_char(out, '\\');
        proof {
            assert(out@ =~= old(out)@ + spec_escape_char(c));
        }
    } else if c == '\u{0008}' {
        push_char(out, '\\');
        push_char(out, 'b');
        proof {
            assert(out@ =~= old(out)@ + spec_escape_char(c));
        }
    } else if c == '\u{000C}' {
        push_char(out, '\\');
        push_char(out, 'f');
        proof {
            assert(out@ =~= old(out)@ + spec_escape_char(c));
        }
    } else if c == '\n' {
        push_char(out, '\\');
        push_char(out, 'n');
        proof {
            assert(out@ =~= old(out)@ + spec_escape_char(c));
        }
    } else if c == '\r' {
        push_char(out, '\\');
        push_char(out, 'r');
        proof {
            assert(out@ =~= old(out)@ + spec_escape_char(c));
        }
    } else if c == '\t' {
        push_char(out, '\\');
        push_char(out, 't');
        proof {
            assert(out@ =~= old(out)@ + spec_escape_char(c));
        }
    } else if (c as u32) < 32 {
        let u = c as u32;
        push_char(out, '\\');
        push_char(out, 'u');
        push_char(out, '0');
        push_char(out, '0');
        let h1 = char_from_code(48 + u / 16);
        let h2c = u % 16;
        let h2 = if h2c < 10 {
            char_from_code(48 + h2c)
        } else {
            char_from_code(87 + h2c)
        };
        proof {
            vstd::utf8::char_u32_cast(h1, ((48 + u / 16) as u32));
            vstd::utf8::char_u32_cast(h2, ((if h2c < 10 {
                48 + h2c
            } else {
                87 + h2c
            }) as u32));
            assert(h1 == hex_digit_char(c as u32 as int / 16));
            assert(h2 == hex_digit_char(c as u32 as int % 16));
        }
        push_char(out, h1);
        push_char(out, h2);
        proof {
            assert(out@ =~= old(out)@ + spec_escape_char(c));
        }
    } else {
        push_char(out, c);
        proof {
            assert(out@ =~= old(out)@ + spec_escape_char(c));
        }
    }
}

fn push_encoded_string(out: &mut String, s: &String)
    ensures
        final(out)@ == old(out)@ + spec_encode_string(s@),
{
    push_char(out, '"');
    proof {
        assert(s@.take(0) =~= Seq::<char>::empty());
        assert(out@ =~= old(out)@ + seq!['"'] + spec_escape(s@.take(0)));
    }
    let n = s.as_str().unicode_len();
    let mut k: usize = 0;
    while k < n
        invariant
            k <= n,
            n == s@.len(),
            out@ == old(out)@ + seq!['"'] + spec_escape(s@.take(k as int)),
        decreases n - k,
    {
        let c = s.as_str().get_char(k);
        proof {
            assert(s@.take(k as int).push(s@[k as int]) =~= s@.take(k as int + 1));
            lemma_escape_snoc(s@.take(k as int), s@[k as int]);
        }
        push_escaped_char(out, c);
        proof {
            assert((old(out)@ + seq!['"'] + spec_escape(s@.take(k as int))) + spec_escape_char(
                s@[k as int],
            ) =~= old(out)@ + seq!['"'] + (spec_escape(s@.take(k as int)) + spec_escape_char(
                s@[k as int],
            )));
        }
        k = k + 1;
    }
    proof {
        assert(s@.take(n as int) =~= s@);
    }
    push_char(out, '"');
    proof {
        assert((old(out)@ + seq!['"'] + spec_escape(s@)).push('"') =~= old(out)@ + (seq!['"']
            + spec_escape(s@) + seq!['"']));
    }
}

/// Serialize a flat mapping to its JSON text form, in the order given,
/// with no padding between tokens.
pub fn encode_configurations(pairs: &Vec<(String, String)>) -> (r: String)
    ensures
        r@ == spec_encode_map(pairs_model(pairs@)),
{
    let ghost m = pairs_model(pairs@);
    let mut out = String::new();
    push_char(&mut out, '{');
    proof {
        assert(m.take(0) =~= Seq::<(Seq<char>, Seq<char>)>::empty());
        assert(out@ =~= seq!['{'] + spec_encode_pairs(m.take(0)));
    }
    let mut idx: usize = 0;
    while idx < pairs.len()
        invariant
            idx <= pairs@.len(),
            m == pairs_model(pairs@),
            out@ == seq!['{'] + spec_encode_pairs(m.take(idx as int)),
        decreases pairs@.len() - idx,
    {
        let ghost out0 = out@;
        if idx > 0 {
            push_char(&mut out, ',');
        }
        push_encoded_string(&mut out, &pairs[idx].0);
        push_char(&mut out, ':');
        push_encoded_string(&mut out, &pairs[idx].1);
        proof {
            let e = m[idx as int];
            assert(e == (pairs@[idx as int].0@, pairs@[idx as int].1@));
            assert(m.take(idx as int).push(e) =~= m.take(idx as int + 1));
            lemma_encode_pairs_snoc(m.take(idx as int), e);
            assert(spec_encode_pairs(seq![e]) == spec_encode_pair(e));
            if idx == 0 {
                assert(out@ =~= out0 + spec_encode_pair(e));
                assert(out@ =~= seq!['{'] + spec_encode_pairs(m.take(idx as int + 1)));
            } else {
                assert(out@ =~= out0 + seq![','] + spec_encode_pair(e));
                assert(out@ =~= seq!['{'] + spec_encode_pairs(m.take(idx as int + 1)));
            }
        }
        idx = idx + 1;
    }
    proof {
        assert(m.take(pairs@.len() as int) =~= m);
    }
    push_char(&mut out, '}');
    proof {
        assert((seq!['{'] + spec_encode_pairs(m)).push('}') =~= seq!['{'] + spec_encode_pairs(m)
            + seq!['}']);
    }
    out
}

} // verus!
