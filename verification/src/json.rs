//! The JSON document format the state file is written in: a document
//! tree, a pretty printer and a permissive recursive-descent parser,
//! together with the proof that parsing inverts printing.
//!
//! Number tokens are kept verbatim as text and only interpreted where
//! a field asks for an integer; the parser tolerates a trailing comma
//! before a closing bracket. Strings cover the full escape set,
//! including `\uXXXX` for scalar values outside the surrogate range.

use vstd::prelude::*;
use crate::text::is_ws_char;
use crate::text::chars_to_string;
use crate::text::char_from_u32;
use crate::text::str_to_chars;

verus! {

/// A JSON document tree. A number is kept as its raw token text.
#[derive(Debug)]
pub enum Json {
    Null,
    Bool(bool),
    Num(String),
    Str(String),
    Arr(Vec<Json>),
    Obj(Vec<(String, Json)>),
}

/// Mathematical value of a [`Json`] tree.
#[verifier::ext_equal]
pub enum JsonV {
    Null,
    Bool(bool),
    Num(Seq<char>),
    Str(Seq<char>),
    Arr(Seq<JsonV>),
    Obj(Seq<(Seq<char>, JsonV)>),
}

/// Mathematical value of a [`Json`] tree.
pub open spec fn jview(j: Json) -> JsonV
    decreases j, 0int,
    via jview_dec
{
    match j {
        Json::Null => JsonV::Null,
        Json::Bool(b) => JsonV::Bool(b),
        Json::Num(s) => JsonV::Num(s@),
        Json::Str(s) => JsonV::Str(s@),
        Json::Arr(v) => JsonV::Arr(jviews(v@)),
        Json::Obj(v) => JsonV::Obj(mviews(v@)),
    }
}

/// Views of a sequence of documents.
pub open spec fn jviews(v: Seq<Json>) -> Seq<JsonV>
    decreases v, 1int,
    via jviews_dec
{
    if v.len() == 0 {
        Seq::empty()
    } else {
        seq![jview(v[0])] + jviews(v.subrange(1, v.len() as int))
    }
}

/// Views of a sequence of object members.
pub open spec fn mviews(v: Seq<(String, Json)>) -> Seq<(Seq<char>, JsonV)>
    decreases v, 1int,
    via mviews_dec
{
    if v.len() == 0 {
        Seq::empty()
    } else {
        seq![(v[0].0@, jview(v[0].1))] + mviews(v.subrange(1, v.len() as int))
    }
}

#[via_fn]
proof fn jview_dec(j: Json) {
    match j {
        Json::Arr(v) => {
            assert(decreases_to!(j => v));
            assert(decreases_to!(v => v@));
        },
        Json::Obj(v) => {
            assert(decreases_to!(j => v));
            assert(decreases_to!(v => v@));
        },
        _ => {},
    }
}

#[via_fn]
proof fn jviews_dec(v: Seq<Json>) {
    if v.len() > 0 {
        assert(decreases_to!(v => v[0]));
        assert(decreases_to!(v => v.subrange(1, v.len() as int)));
    }
}

#[via_fn]
proof fn mviews_dec(v: Seq<(String, Json)>) {
    if v.len() > 0 {
        assert(decreases_to!(v => v[0]));
        assert(decreases_to!(v[0] => v[0].1));
        assert(decreases_to!(v => v.subrange(1, v.len() as int)));
    }
}

/// `jviews` maps indexwise.
pub proof fn lemma_jviews(v: Seq<Json>)
    ensures
        jviews(v).len() == v.len(),
        forall|i: int| 0 <= i < v.len() ==> jviews(v)[i] == jview(v[i]),
    decreases v.len(),
{
    if v.len() > 0 {
        lemma_jviews(v.subrange(1, v.len() as int));
    }
}

/// `mviews` maps indexwise.
pub proof fn lemma_mviews(v: Seq<(String, Json)>)
    ensures
        mviews(v).len() == v.len(),
        forall|i: int| 0 <= i < v.len() ==> mviews(v)[i] == (v[i].0@, jview(v[i].1)),
    decreases v.len(),
{
    if v.len() > 0 {
        lemma_mviews(v.subrange(1, v.len() as int));
    }
}

/// A decimal digit.
pub open spec fn is_digit(c: char) -> bool {
    48 <= c as u32 <= 57
}

/// Value of a decimal digit.
pub open spec fn digit_val(c: char) -> int {
    c as u32 - 48
}

/// The decimal digit character for a value below ten.
pub open spec fn digit_char(d: int) -> char {
    if d == 0 { '0' }
    else if d == 1 { '1' }
    else if d == 2 { '2' }
    else if d == 3 { '3' }
    else if d == 4 { '4' }
    else if d == 5 { '5' }
    else if d == 6 { '6' }
    else if d == 7 { '7' }
    else if d == 8 { '8' }
    else { '9' }
}

/// The decimal digits of a number, most significant first.
pub open spec fn dec_digits(n: nat) -> Seq<char>
    decreases n,
{
    if n < 10 {
        seq![digit_char(n as int)]
    } else {
        dec_digits(n / 10).push(digit_char((n % 10) as int))
    }
}

/// The value of a digit string.
pub open spec fn digits_val(s: Seq<char>) -> int
    decreases s.len(),
{
    if s.len() == 0 {
        0
    } else {
        digits_val(s.drop_last()) * 10 + digit_val(s.last())
    }
}

/// Interpretation of a raw token as an unsigned 64-bit integer:
/// defined exactly for non-empty all-digit tokens whose value fits.
pub open spec fn spec_parse_u64(s: Seq<char>) -> Option<u64> {
    if s.len() >= 1 && (forall|k: int| 0 <= k < s.len() ==> is_digit(s[k])) && digits_val(s)
        <= u64::MAX {
        Option::Some(digits_val(s) as u64)
    } else {
        Option::None
    }
}

/// Well-formed documents: every number token is a plain digit string.
/// The printer's output parses back exactly for these; the encoder
/// only ever emits such tokens.
pub open spec fn wf_json(j: JsonV) -> bool
    decreases j,
{
    match j {
        JsonV::Null => true,
        JsonV::Bool(_) => true,
        JsonV::Num(raw) => raw.len() >= 1 && (forall|k: int| 0 <= k < raw.len() ==> is_digit(raw[k])),
        JsonV::Str(_) => true,
        JsonV::Arr(elems) => forall|k: int| 0 <= k < elems.len() ==> wf_json(#[trigger] elems[k]),
        JsonV::Obj(ms) => forall|k: int| 0 <= k < ms.len() ==> wf_json(#[trigger] ms[k].1),
    }
}

/// The lowercase hexadecimal digit for a value below sixteen.
pub open spec fn hex_char(d: int) -> char {
    if d == 0 { '0' }
    else if d == 1 { '1' }
    else if d == 2 { '2' }
    else if d == 3 { '3' }
    else if d == 4 { '4' }
    else if d == 5 { '5' }
    else if d == 6 { '6' }
    else if d == 7 { '7' }
    else if d == 8 { '8' }
    else if d == 9 { '9' }
    else if d == 10 { 'a' }
    else if d == 11 { 'b' }
    else if d == 12 { 'c' }
    else if d == 13 { 'd' }
    else if d == 14 { 'e' }
    else { 'f' }
}

/// Value of a hexadecimal digit character, if it is one.
pub open spec fn hex_val(c: char) -> Option<int> {
    let u = c as u32;
    if 48 <= u <= 57 {
        Option::Some(u - 48)
    } else if 97 <= u <= 102 {
        Option::Some(u - 97 + 10)
    } else if 65 <= u <= 70 {
        Option::Some(u - 65 + 10)
    } else {
        Option::None
    }
}

/// How one character is written inside a JSON string.
pub open spec fn esc_char(c: char) -> Seq<char> {
    if c == '"' {
        seq!['\\', '"']
    } else if c == '\\' {
        seq!['\\', '\\']
    } else if c == '\n' {
        seq!['\\', 'n']
    } else if c == '\r' {
        seq!['\\', 'r']
    } else if c == '\t' {
        seq!['\\', 't']
    } else if (c as u32) < 32 {
        seq!['\\', 'u', '0', '0', hex_char(c as u32 as int / 16), hex_char(c as u32 as int % 16)]
    } else {
        seq![c]
    }
}

/// How a whole string body is written, between its quotes.
pub open spec fn esc_str(t: Seq<char>) -> Seq<char>
    decreases t.len(),
{
    if t.len() == 0 {
        Seq::empty()
    } else {
        esc_char(t[0]) + esc_str(t.drop_first())
    }
}

/// A quoted, escaped string.
pub open spec fn spec_print_str(t: Seq<char>) -> Seq<char> {
    seq!['"'] + esc_str(t) + seq!['"']
}

/// `n` spaces.
pub open spec fn spec_spaces(n: nat) -> Seq<char>
    decreases n,
{
    if n == 0 {
        Seq::empty()
    } else {
        spec_spaces((n - 1) as nat).push(' ')
    }
}

/// The next indentation level. Indentation is capped at a width no
/// real document reaches, which keeps the arithmetic within bounds;
/// the parser accepts any amount of whitespace either way.
pub open spec fn deeper(ind: nat) -> nat {
    if ind < 1000000 {
        ind + 2
    } else {
        ind
    }
}

/// Pretty-prints a document at a given indentation: objects and
/// arrays put each entry on its own line, two spaces deeper.
pub open spec fn spec_print(j: JsonV, ind: nat) -> Seq<char>
    decreases j, 0int,
{
    match j {
        JsonV::Null => "null"@,
        JsonV::Bool(b) => if b { "true"@ } else { "false"@ },
        JsonV::Num(raw) => raw,
        JsonV::Str(t) => spec_print_str(t),
        JsonV::Arr(elems) => if elems.len() == 0 {
            "[]"@
        } else {
            seq!['['] + spec_print_items(elems, 0, ind)
        },
        JsonV::Obj(ms) => if ms.len() == 0 {
            "{}"@
        } else {
            seq!['{'] + spec_print_members(ms, 0, ind)
        },
    }
}

/// The array entries from `k` on, each on its own line, and the
/// closing bracket.
pub open spec fn spec_print_items(elems: Seq<JsonV>, k: int, ind: nat) -> Seq<char>
    recommends
        0 <= k < elems.len(),
    decreases elems, elems.len() - k,
    via spec_print_items_dec
{
    if k < 0 || k >= elems.len() {
        Seq::empty()
    } else {
        let head = seq!['\n'] + spec_spaces(deeper(ind)) + spec_print(elems[k], deeper(ind));
        if k + 1 < elems.len() {
            head + seq![','] + spec_print_items(elems, k + 1, ind)
        } else {
            head + seq!['\n'] + spec_spaces(ind) + seq![']']
        }
    }
}

/// The object members from `k` on, each on its own line, and the
/// closing brace.
pub open spec fn spec_print_members(ms: Seq<(Seq<char>, JsonV)>, k: int, ind: nat) -> Seq<char>
    recommends
        0 <= k < ms.len(),
    decreases ms, ms.len() - k,
    via spec_print_members_dec
{
    if k < 0 || k >= ms.len() {
        Seq::empty()
    } else {
        let head = seq!['\n'] + spec_spaces(deeper(ind)) + spec_print_str(ms[k].0) + seq![
            ':',
            ' ',
        ] + spec_print(ms[k].1, deeper(ind));
        if k + 1 < ms.len() {
            head + seq![','] + spec_print_members(ms, k + 1, ind)
        } else {
            head + seq!['\n'] + spec_spaces(ind) + seq!['}']
        }
    }
}

#[via_fn]
proof fn spec_print_items_dec(elems: Seq<JsonV>, k: int, ind: nat) {
    if 0 <= k < elems.len() {
        assert(decreases_to!(elems => elems[k]));
    }
}

#[via_fn]
proof fn spec_print_members_dec(ms: Seq<(Seq<char>, JsonV)>, k: int, ind: nat) {
    if 0 <= k < ms.len() {
        assert(decreases_to!(ms => ms[k]));
        assert(decreases_to!(ms[k] => ms[k].1));
    }
}

/// A whole pretty-printed document.
pub open spec fn spec_print_doc(j: JsonV) -> Seq<char> {
    spec_print(j, 0)
}

/// End of the maximal run of number-token characters from `i` on.
pub open spec fn spec_num_end(s: Seq<char>, i: int) -> int
    decreases s.len() - i,
{
    if 0 <= i < s.len() && is_num_char(s[i]) {
        spec_num_end(s, i + 1)
    } else {
        i
    }
}

/// The characters a number token may consist of.
pub open spec fn is_num_char(c: char) -> bool {
    is_digit(c) || c == '-' || c == '+' || c == '.' || c == 'e' || c == 'E'
}

/// The short escapes the parser accepts after a backslash.
pub open spec fn esc_code(e: char) -> Option<char> {
    if e == '"' {
        Option::Some('"')
    } else if e == '\\' {
        Option::Some('\\')
    } else if e == '/' {
        Option::Some('/')
    } else if e == 'b' {
        Option::Some('\u{0008}')
    } else if e == 'f' {
        Option::Some('\u{000C}')
    } else if e == 'n' {
        Option::Some('\n')
    } else if e == 'r' {
        Option::Some('\r')
    } else if e == 't' {
        Option::Some('\t')
    } else {
        Option::None
    }
}

/// Four hexadecimal digits starting at `i`, as a value.
pub open spec fn spec_hex4(s: Seq<char>, i: int) -> Option<u32>
    recommends
        0 <= i && i + 4 <= s.len(),
{
    match (hex_val(s[i]), hex_val(s[i + 1]), hex_val(s[i + 2]), hex_val(s[i + 3])) {
        (Option::Some(a), Option::Some(b), Option::Some(c), Option::Some(d)) => Option::Some(
            (a * 4096 + b * 256 + c * 16 + d) as u32,
        ),
        _ => Option::None,
    }
}

/// Parses a string body after its opening quote; yields the decoded
/// characters and the position after the closing quote. Unescaped
/// control characters and surrogate escape values are rejected.
pub open spec fn spec_parse_string(s: Seq<char>, i: int) -> Option<(Seq<char>, int)>
    decreases s.len() - i,
{
    if i < 0 || i >= s.len() {
        Option::None
    } else {
        let c = s[i];
        if c == '"' {
            Option::Some((Seq::empty(), i + 1))
        } else if c == '\\' {
            if i + 1 >= s.len() {
                Option::None
            } else {
                let e = s[i + 1];
                if e == 'u' {
                    if i + 6 > s.len() {
                        Option::None
                    } else {
                        match spec_hex4(s, i + 2) {
                            Option::None => Option::None,
                            Option::Some(code) => if 0xD800 <= code < 0xE000 {
                                Option::None
                            } else {
                                match spec_parse_string(s, i + 6) {
                                    Option::None => Option::None,
                                    Option::Some((t, end)) => Option::Some(
                                        (seq![code as char] + t, end),
                                    ),
                                }
                            },
                        }
                    }
                } else {
                    match esc_code(e) {
                        Option::None => Option::None,
                        Option::Some(c2) => match spec_parse_string(s, i + 2) {
                            Option::None => Option::None,
                            Option::Some((t, end)) => Option::Some((seq![c2] + t, end)),
                        },
                    }
                }
            }
        } else if (c as u32) < 32 {
            Option::None
        } else {
            match spec_parse_string(s, i + 1) {
                Option::None => Option::None,
                Option::Some((t, end)) => Option::Some((seq![c] + t, end)),
            }
        }
    }
}

/// Skips whitespace, then consumes a comma or the closing bracket.
pub open spec fn spec_parse_tail(s: Seq<char>, i: int, close: char) -> Option<(bool, int)>
    decreases s.len() - i,
{
    if i < 0 || i >= s.len() {
        Option::None
    } else if is_ws_char(s[i]) {
        spec_parse_tail(s, i + 1, close)
    } else if s[i] == ',' {
        Option::Some((true, i + 1))
    } else if s[i] == close {
        Option::Some((false, i + 1))
    } else {
        Option::None
    }
}

/// Skips whitespace, then consumes a colon.
pub open spec fn spec_parse_colon(s: Seq<char>, i: int) -> Option<int>
    decreases s.len() - i,
{
    if i < 0 || i >= s.len() {
        Option::None
    } else if is_ws_char(s[i]) {
        spec_parse_colon(s, i + 1)
    } else if s[i] == ':' {
        Option::Some(i + 1)
    } else {
        Option::None
    }
}

/// Parses one value, skipping leading whitespace; yields the value
/// and the position just past it. Positions handed onward are kept
/// strictly advancing and within bounds by construction.
pub open spec fn spec_parse_value(s: Seq<char>, i: int) -> Option<(JsonV, int)>
    decreases s.len() - i, 0int,
{
    if i < 0 || i >= s.len() {
        Option::None
    } else if is_ws_char(s[i]) {
        spec_parse_value(s, i + 1)
    } else {
        let c = s[i];
        if c == 'n' {
            if i + 4 <= s.len() && s[i + 1] == 'u' && s[i + 2] == 'l' && s[i + 3] == 'l' {
                Option::Some((JsonV::Null, i + 4))
            } else {
                Option::None
            }
        } else if c == 't' {
            if i + 4 <= s.len() && s[i + 1] == 'r' && s[i + 2] == 'u' && s[i + 3] == 'e' {
                Option::Some((JsonV::Bool(true), i + 4))
            } else {
                Option::None
            }
        } else if c == 'f' {
            if i + 5 <= s.len() && s[i + 1] == 'a' && s[i + 2] == 'l' && s[i + 3] == 's' && s[i + 4]
                == 'e' {
                Option::Some((JsonV::Bool(false), i + 5))
            } else {
                Option::None
            }
        } else if c == '"' {
            match spec_parse_string(s, i + 1) {
                Option::None => Option::None,
                Option::Some((t, n)) => Option::Some((JsonV::Str(t), n)),
            }
        } else if c == '[' {
            match spec_parse_items(s, i + 1) {
                Option::None => Option::None,
                Option::Some((elems, n)) => Option::Some((JsonV::Arr(elems), n)),
            }
        } else if c == '{' {
            match spec_parse_members(s, i + 1) {
                Option::None => Option::None,
                Option::Some((ms, n)) => Option::Some((JsonV::Obj(ms), n)),
            }
        } else if is_digit(c) || (c == '-' && i + 1 < s.len() && is_digit(s[i + 1])) {
            let e = spec_num_end(s, i);
            Option::Some((JsonV::Num(s.subrange(i, e)), e))
        } else {
            Option::None
        }
    }
}

/// Parses array entries after the opening bracket, up to and past the
/// closing one.
pub open spec fn spec_parse_items(s: Seq<char>, i: int) -> Option<(Seq<JsonV>, int)>
    decreases s.len() - i, 1int,
{
    if i < 0 || i >= s.len() {
        Option::None
    } else if is_ws_char(s[i]) {
        spec_parse_items(s, i + 1)
    } else if s[i] == ']' {
        Option::Some((Seq::empty(), i + 1))
    } else {
        match spec_parse_value(s, i) {
            Option::None => Option::None,
            Option::Some((v, n)) => {
                let n1 = if n > i && n <= s.len() {
                    n
                } else {
                    i + 1
                };
                match spec_parse_tail(s, n1, ']') {
                    Option::None => Option::None,
                    Option::Some((more, p)) => if more {
                        let p1 = if p > n1 && p <= s.len() {
                            p
                        } else if n1 + 1 <= s.len() {
                            n1 + 1
                        } else {
                            s.len() as int
                        };
                        match spec_parse_items(s, p1) {
                            Option::None => Option::None,
                            Option::Some((rest, e)) => Option::Some((seq![v] + rest, e)),
                        }
                    } else {
                        Option::Some((seq![v], p))
                    },
                }
            },
        }
    }
}

/// Parses object members after the opening brace, up to and past the
/// closing one.
pub open spec fn spec_parse_members(s: Seq<char>, i: int) -> Option<(Seq<(Seq<char>, JsonV)>, int)>
    decreases s.len() - i, 1int,
{
    if i < 0 || i >= s.len() {
        Option::None
    } else if is_ws_char(s[i]) {
        spec_parse_members(s, i + 1)
    } else if s[i] == '}' {
        Option::Some((Seq::empty(), i + 1))
    } else if s[i] == '"' {
        match spec_parse_string(s, i + 1) {
            Option::None => Option::None,
            Option::Some((key, n)) => {
                let n1 = if n > i && n <= s.len() {
                    n
                } else {
                    i + 1
                };
                match spec_parse_colon(s, n1) {
                    Option::None => Option::None,
                    Option::Some(c0) => {
                        let c1 = if c0 > n1 && c0 <= s.len() {
                            c0
                        } else if n1 + 1 <= s.len() {
                            n1 + 1
                        } else {
                            s.len() as int
                        };
                        match spec_parse_value(s, c1) {
                            Option::None => Option::None,
                            Option::Some((v, m)) => {
                                let m1 = if m > c1 && m <= s.len() {
                                    m
                                } else if c1 + 1 <= s.len() {
                                    c1 + 1
                                } else {
                                    s.len() as int
                                };
                                match spec_parse_tail(s, m1, '}') {
                                    Option::None => Option::None,
                                    Option::Some((more, p)) => if more {
                                        let p1 = if p > m1 && p <= s.len() {
                                            p
                                        } else if m1 + 1 <= s.len() {
                                            m1 + 1
                                        } else {
                                            s.len() as int
                                        };
                                        match spec_parse_members(s, p1) {
                                            Option::None => Option::None,
                                            Option::Some((rest, e)) => Option::Some(
                                                (seq![(key, v)] + rest, e),
                                            ),
                                        }
                                    } else {
                                        Option::Some((seq![(key, v)], p))
                                    },
                                }
                            },
                        }
                    },
                }
            },
        }
    } else {
        Option::None
    }
}

/// Whether everything from `i` on is whitespace.
pub open spec fn ws_to_end(s: Seq<char>, i: int) -> bool {
    forall|k: int| i <= k < s.len() ==> is_ws_char(s[k])
}

/// Parses a whole document: one value with nothing but whitespace
/// around it.
pub open spec fn spec_parse_doc(s: Seq<char>) -> Option<JsonV> {
    match spec_parse_value(s, 0) {
        Option::None => Option::None,
        Option::Some((j, n)) => if n <= s.len() && ws_to_end(s, n) {
            Option::Some(j)
        } else {
            Option::None
        },
    }
}

/// Escaping distributes over appending one character.
proof fn lemma_esc_str_push(s: Seq<char>, c: char)
    ensures
        esc_str(s.push(c)) == esc_str(s) + esc_char(c),
    decreases s.len(),
{
    if s.len() == 0 {
        assert(s.push(c).drop_first() =~= Seq::<char>::empty());
        assert(s.push(c)[0] == c);
        assert(esc_str(s) =~= Seq::<char>::empty());
        assert(esc_str(s.push(c)) == esc_char(c) + esc_str(Seq::<char>::empty()));
        assert(esc_str(s.push(c)) =~= esc_str(s) + esc_char(c));
    } else {
        assert(s.push(c).drop_first() =~= s.drop_first().push(c));
        lemma_esc_str_push(s.drop_first(), c);
        assert(esc_str(s.push(c)) =~= esc_str(s) + esc_char(c));
    }
}

fn ws_test(c: char) -> (r: bool)
    ensures
        r == is_ws_char(c),
{
    c == ' ' || c == '\n' || c == '\t' || c == '\r'
}

fn digit_test(c: char) -> (r: bool)
    ensures
        r == is_digit(c),
{
    let u = c as u32;
    48 <= u && u <= 57
}

fn num_char_test(c: char) -> (r: bool)
    ensures
        r == is_num_char(c),
{
    digit_test(c) || c == '-' || c == '+' || c == '.' || c == 'e' || c == 'E'
}

fn hex_char_of(d: u32) -> (c: char)
    requires
        d < 16,
    ensures
        c == hex_char(d as int),
{
    if d == 0 { '0' }
    else if d == 1 { '1' }
    else if d == 2 { '2' }
    else if d == 3 { '3' }
    else if d == 4 { '4' }
    else if d == 5 { '5' }
    else if d == 6 { '6' }
    else if d == 7 { '7' }
    else if d == 8 { '8' }
    else if d == 9 { '9' }
    else if d == 10 { 'a' }
    else if d == 11 { 'b' }
    else if d == 12 { 'c' }
    else if d == 13 { 'd' }
    else if d == 14 { 'e' }
    else { 'f' }
}

fn push_str_chars(out: &mut Vec<char>, s: &str)
    ensures
        final(out)@ == old(out)@ + s@,
{
    let n = s.unicode_len();
    let mut i: usize = 0;
    while i < n
        invariant
            n == s@.len(),
            i <= n,
            out@ == old(out)@ + s@.take(i as int),
        decreases n - i,
    {
        out.push(s.get_char(i));
        proof {
            assert(old(out)@ + s@.take(i as int + 1) =~= (old(out)@ + s@.take(i as int)).push(
                s@[i as int],
            ));
        }
        i = i + 1;
    }
    proof {
        assert(old(out)@ + s@.take(n as int) =~= old(out)@ + s@);
    }
}

fn push_spaces(out: &mut Vec<char>, n: usize)
    ensures
        final(out)@ == old(out)@ + spec_spaces(n as nat),
{
    let mut i: usize = 0;
    while i < n
        invariant
            i <= n,
            out@ == old(out)@ + spec_spaces(i as nat),
        decreases n - i,
    {
        out.push(' ');
        i = i + 1;
    }
}

fn push_esc_str(out: &mut Vec<char>, t: &str)
    ensures
        final(out)@ == old(out)@ + esc_str(t@),
{
    let n = t.unicode_len();
    let mut i: usize = 0;
    proof {
        assert(t@.take(0) =~= Seq::<char>::empty());
    }
    while i < n
        invariant
            n == t@.len(),
            i <= n,
            out@ == old(out)@ + esc_str(t@.take(i as int)),
        decreases n - i,
    {
        let c = t.get_char(i);
        let u = c as u32;
        if c == '"' {
            out.push('\\');
            out.push('"');
        } else if c == '\\' {
            out.push('\\');
            out.push('\\');
        } else if c == '\n' {
            out.push('\\');
            out.push('n');
        } else if c == '\r' {
            out.push('\\');
            out.push('r');
        } else if c == '\t' {
            out.push('\\');
            out.push('t');
        } else if u < 32 {
            out.push('\\');
            out.push('u');
            out.push('0');
            out.push('0');
            out.push(hex_char_of(u / 16));
            out.push(hex_char_of(u % 16));
        } else {
            out.push(c);
        }
        proof {
            lemma_esc_str_push(t@.take(i as int), c);
            assert(t@.take(i as int + 1) =~= t@.take(i as int).push(c));
            assert(out@ =~= old(out)@ + esc_str(t@.take(i as int + 1)));
        }
        i = i + 1;
    }
    proof {
        assert(t@.take(n as int) =~= t@);
    }
}

/// Writes the pretty form of a document onto `out`.
fn write_json(j: &Json, ind: usize, out: &mut Vec<char>)
    ensures
        final(out)@ == old(out)@ + spec_print(jview(*j), ind as nat),
    decreases *j, 0int,
{
    match j {
        Json::Null => push_str_chars(out, "null"),
        Json::Bool(b) => if *b {
            push_str_chars(out, "true")
        } else {
            push_str_chars(out, "false")
        },
        Json::Num(raw) => push_str_chars(out, raw.as_str()),
        Json::Str(t) => {
            out.push('"');
            push_esc_str(out, t.as_str());
            out.push('"');
            proof {
                assert(out@ =~= old(out)@ + spec_print_str(t@));
            }
        },
        Json::Arr(v) => {
            if v.len() == 0 {
                push_str_chars(out, "[]");
                proof {
                    assert(jviews(v@) =~= Seq::<JsonV>::empty());
                }
            } else {
                out.push('[');
                proof {
                    lemma_jviews(v@);
                    assert(decreases_to!(*j => *v));
                    assert(decreases_to!(*v => v@));
                }
                write_items(v, 0, ind, out);
                proof {
                    assert(out@ =~= old(out)@ + (seq!['['] + spec_print_items(
                        jviews(v@),
                        0,
                        ind as nat,
                    )));
                }
            }
        },
        Json::Obj(v) => {
            if v.len() == 0 {
                push_str_chars(out, "{}");
                proof {
                    assert(mviews(v@) =~= Seq::<(Seq<char>, JsonV)>::empty());
                }
            } else {
                out.push('{');
                proof {
                    lemma_mviews(v@);
                    assert(decreases_to!(*j => *v));
                    assert(decreases_to!(*v => v@));
                }
                write_members(v, 0, ind, out);
                proof {
                    assert(out@ =~= old(out)@ + (seq!['{'] + spec_print_members(
                        mviews(v@),
                        0,
                        ind as nat,
                    )));
                }
            }
        },
    }
}

/// Writes the array entries from `k` on and the closing bracket.
#[verifier::rlimit(60)]
fn write_items(elems: &Vec<Json>, k: usize, ind: usize, out: &mut Vec<char>)
    requires
        k < elems@.len(),
    ensures
        final(out)@ == old(out)@ + spec_print_items(jviews(elems@), k as int, ind as nat),
    decreases *elems, elems@.len() - k, 0int,
{
    proof {
        lemma_jviews(elems@);
    }
    out.push('\n');
    let ind2 = if ind < 1000000 {
        ind + 2
    } else {
        ind
    };
    push_spaces(out, ind2);
    proof {
        assert(decreases_to!(*elems => elems@));
        assert(decreases_to!(elems@ => elems@[k as int]));
    }
    write_json(&elems[k], ind2, out);
    let n = elems.len();
    if k < n - 1 {
        out.push(',');
        write_items(elems, k + 1, ind, out);
        proof {
            assert(out@ =~= old(out)@ + spec_print_items(jviews(elems@), k as int, ind as nat));
        }
    } else {
        out.push('\n');
        push_spaces(out, ind);
        out.push(']');
        proof {
            assert(out@ =~= old(out)@ + spec_print_items(jviews(elems@), k as int, ind as nat));
        }
    }
}

/// Writes the object members from `k` on and the closing brace.
#[verifier::rlimit(60)]
fn write_members(ms: &Vec<(String, Json)>, k: usize, ind: usize, out: &mut Vec<char>)
    requires
        k < ms@.len(),
    ensures
        final(out)@ == old(out)@ + spec_print_members(mviews(ms@), k as int, ind as nat),
    decreases *ms, ms@.len() - k, 0int,
{
    proof {
        lemma_mviews(ms@);
    }
    out.push('\n');
    let ind2 = if ind < 1000000 {
        ind + 2
    } else {
        ind
    };
    push_spaces(out, ind2);
    out.push('"');
    push_esc_str(out, ms[k].0.as_str());
    out.push('"');
    out.push(':');
    out.push(' ');
    proof {
        assert(decreases_to!(*ms => ms@));
        assert(decreases_to!(ms@ => ms@[k as int]));
        assert(decreases_to!(ms@[k as int] => ms@[k as int].1));
    }
    write_json(&ms[k].1, ind2, out);
    let n = ms.len();
    if k < n - 1 {
        out.push(',');
        write_members(ms, k + 1, ind, out);
        proof {
            assert(out@ =~= old(out)@ + spec_print_members(mviews(ms@), k as int, ind as nat));
        }
    } else {
        out.push('\n');
        push_spaces(out, ind);
        out.push('}');
        proof {
            assert(out@ =~= old(out)@ + spec_print_members(mviews(ms@), k as int, ind as nat));
        }
    }
}

/// Pretty-prints a document.
pub fn print_json(j: &Json) -> (r: String)
    ensures
        r@ == spec_print_doc(jview(*j)),
{
    let mut out: Vec<char> = Vec::new();
    write_json(j, 0, &mut out);
    proof {
        assert(out@ =~= spec_print(jview(*j), 0));
    }
    chars_to_string(&out)
}

fn hex_val_of(c: char) -> (r: Option<u32>)
    ensures
        match (r, hex_val(c)) {
            (Option::Some(a), Option::Some(b)) => a as int == b,
            (Option::None, Option::None) => true,
            _ => false,
        },
{
    let u = c as u32;
    if 48 <= u && u <= 57 {
        Some(u - 48)
    } else if 97 <= u && u <= 102 {
        Some(u - 97 + 10)
    } else if 65 <= u && u <= 70 {
        Some(u - 65 + 10)
    } else {
        None
    }
}

fn esc_code_of(e: char) -> (r: Option<char>)
    ensures
        r == esc_code(e),
{
    if e == '"' {
        Some('"')
    } else if e == '\\' {
        Some('\\')
    } else if e == '/' {
        Some('/')
    } else if e == 'b' {
        Some('\u{0008}')
    } else if e == 'f' {
        Some('\u{000C}')
    } else if e == 'n' {
        Some('\n')
    } else if e == 'r' {
        Some('\r')
    } else if e == 't' {
        Some('\t')
    } else {
        None
    }
}

/// Parses a string body after the opening quote, as the characters
/// it denotes.
#[verifier::rlimit(60)]
fn parse_string_at(s: &Vec<char>, i: usize) -> (r: Option<(Vec<char>, usize)>)
    ensures
        match (r, spec_parse_string(s@, i as int)) {
            (Option::Some((t, n)), Option::Some((tv, m))) => t@ == tv && n as int == m && i < n
                <= s@.len(),
            (Option::None, Option::None) => true,
            _ => false,
        },
    decreases s@.len() - i,
{
    if i >= s.len() {
        return None;
    }
    let c = s[i];
    if c == '"' {
        Some((Vec::new(), i + 1))
    } else if c == '\\' {
        if i + 1 >= s.len() {
            return None;
        }
        let e = s[i + 1];
        if e == 'u' {
            if s.len() < 6 || i > s.len() - 6 {
                proof {
                    assert(i + 6 > s@.len());
                }
                return None;
            }
            let h0 = hex_val_of(s[i + 2]);
            let h1 = hex_val_of(s[i + 3]);
            let h2 = hex_val_of(s[i + 4]);
            let h3 = hex_val_of(s[i + 5]);
            match (h0, h1, h2, h3) {
                (Some(a), Some(b), Some(x), Some(d)) => {
                    let code: u32 = a * 4096 + b * 256 + x * 16 + d;
                    if 0xD800 <= code && code < 0xE000 {
                        None
                    } else {
                        let ch = char_from_u32(code);
                        proof {
                            vstd::utf8::char_u32_cast(ch, code);
                        }
                        match parse_string_at(s, i + 6) {
                            Some((t, end)) => {
                                let ghost t0 = t@;
                                let mut t = t;
                                t.insert(0, ch);
                                proof {
                                    assert(t@ =~= seq![(code as char)] + t0);
                                }
                                Some((t, end))
                            },
                            None => None,
                        }
                    }
                },
                _ => None,
            }
        } else {
            match esc_code_of(e) {
                Some(c2) => match parse_string_at(s, i + 2) {
                    Some((t, end)) => {
                        let ghost t0 = t@;
                        let mut t = t;
                        t.insert(0, c2);
                        proof {
                            assert(t@ =~= seq![c2] + t0);
                        }
                        Some((t, end))
                    },
                    None => None,
                },
                None => None,
            }
        }
    } else if (c as u32) < 32 {
        None
    } else {
        match parse_string_at(s, i + 1) {
            Some((t, end)) => {
                let ghost t0 = t@;
                let mut t = t;
                t.insert(0, c);
                proof {
                    assert(t@ =~= seq![c] + t0);
                }
                Some((t, end))
            },
            None => None,
        }
    }
}

/// Skips whitespace, then takes a comma or the closing bracket.
fn parse_tail_at(s: &Vec<char>, i: usize, close: char) -> (r: Option<(bool, usize)>)
    ensures
        match (r, spec_parse_tail(s@, i as int, close)) {
            (Option::Some((b1, p)), Option::Some((b2, q))) => b1 == b2 && p as int == q && i < p
                <= s@.len(),
            (Option::None, Option::None) => true,
            _ => false,
        },
{
    if i >= s.len() {
        return None;
    }
    let mut w = i;
    while w < s.len() && ws_test(s[w])
        invariant
            i <= w <= s@.len(),
            spec_parse_tail(s@, i as int, close) == spec_parse_tail(s@, w as int, close),
        decreases s@.len() - w,
    {
        w = w + 1;
    }
    if w >= s.len() {
        return None;
    }
    let c = s[w];
    if c == ',' {
        Some((true, w + 1))
    } else if c == close {
        Some((false, w + 1))
    } else {
        None
    }
}

/// Skips whitespace, then takes a colon.
fn parse_colon_at(s: &Vec<char>, i: usize) -> (r: Option<usize>)
    ensures
        match (r, spec_parse_colon(s@, i as int)) {
            (Option::Some(p), Option::Some(q)) => p as int == q && i < p <= s@.len(),
            (Option::None, Option::None) => true,
            _ => false,
        },
{
    if i >= s.len() {
        return None;
    }
    let mut w = i;
    while w < s.len() && ws_test(s[w])
        invariant
            i <= w <= s@.len(),
            spec_parse_colon(s@, i as int) == spec_parse_colon(s@, w as int),
        decreases s@.len() - w,
    {
        w = w + 1;
    }
    if w >= s.len() {
        return None;
    }
    if s[w] == ':' {
        Some(w + 1)
    } else {
        None
    }
}

/// Parses one value, skipping leading whitespace.
fn parse_value_at(s: &Vec<char>, i: usize) -> (r: Option<(Json, usize)>)
    ensures
        match (r, spec_parse_value(s@, i as int)) {
            (Option::Some((j, n)), Option::Some((jv, m))) => jview(j) == jv && n as int == m && i
                < n <= s@.len(),
            (Option::None, Option::None) => true,
            _ => false,
        },
    decreases s@.len() - i, 0int,
{
    if i >= s.len() {
        return None;
    }
    let mut w = i;
    while w < s.len() && ws_test(s[w])
        invariant
            i <= w <= s@.len(),
            spec_parse_value(s@, i as int) == spec_parse_value(s@, w as int),
        decreases s@.len() - w,
    {
        w = w + 1;
    }
    if w >= s.len() {
        return None;
    }
    let c = s[w];
    if c == 'n' {
        if s.len() >= 4 && w <= s.len() - 4 && s[w + 1] == 'u' && s[w + 2] == 'l' && s[w + 3] == 'l' {
            Some((Json::Null, w + 4))
        } else {
            None
        }
    } else if c == 't' {
        if s.len() >= 4 && w <= s.len() - 4 && s[w + 1] == 'r' && s[w + 2] == 'u' && s[w + 3] == 'e' {
            Some((Json::Bool(true), w + 4))
        } else {
            None
        }
    } else if c == 'f' {
        if s.len() >= 5 && w <= s.len() - 5 && s[w + 1] == 'a' && s[w + 2] == 'l' && s[w + 3]
            == 's' && s[w + 4] == 'e' {
            Some((Json::Bool(false), w + 5))
        } else {
            None
        }
    } else if c == '"' {
        match parse_string_at(s, w + 1) {
            Some((t, n)) => {
                let st = chars_to_string(&t);
                Some((Json::Str(st), n))
            },
            None => None,
        }
    } else if c == '[' {
        match parse_items_at(s, w + 1) {
            Some((v, n)) => Some((Json::Arr(v), n)),
            None => None,
        }
    } else if c == '{' {
        match parse_members_at(s, w + 1) {
            Some((mv, n)) => Some((Json::Obj(mv), n)),
            None => None,
        }
    } else if digit_test(c) || (c == '-' && w + 1 < s.len() && digit_test(s[w + 1])) {
        let mut e = w;
        while e < s.len() && num_char_test(s[e])
            invariant
                w <= e <= s@.len(),
                spec_num_end(s@, w as int) == spec_num_end(s@, e as int),
                forall|k: int| w <= k < e ==> is_num_char(s@[k]),
            decreases s@.len() - e,
        {
            e = e + 1;
        }
        proof {
            assert(spec_num_end(s@, e as int) == e as int);
        }
        let mut raw: Vec<char> = Vec::new();
        let mut q = w;
        while q < e
            invariant
                w <= q <= e <= s@.len(),
                raw@ == s@.subrange(w as int, q as int),
            decreases e - q,
        {
            raw.push(s[q]);
            proof {
                assert(raw@ =~= s@.subrange(w as int, q as int + 1));
            }
            q = q + 1;
        }
        let rs = chars_to_string(&raw);
        Some((Json::Num(rs), e))
    } else {
        None
    }
}

/// Parses array entries after the opening bracket.
fn parse_items_at(s: &Vec<char>, i: usize) -> (r: Option<(Vec<Json>, usize)>)
    ensures
        match (r, spec_parse_items(s@, i as int)) {
            (Option::Some((v, n)), Option::Some((sv, m))) => jviews(v@) == sv && n as int == m
                && i < n <= s@.len(),
            (Option::None, Option::None) => true,
            _ => false,
        },
    decreases s@.len() - i, 1int,
{
    if i >= s.len() {
        return None;
    }
    let mut w = i;
    while w < s.len() && ws_test(s[w])
        invariant
            i <= w <= s@.len(),
            spec_parse_items(s@, i as int) == spec_parse_items(s@, w as int),
        decreases s@.len() - w,
    {
        w = w + 1;
    }
    if w >= s.len() {
        return None;
    }
    if s[w] == ']' {
        let out: Vec<Json> = Vec::new();
        proof {
            assert(jviews(out@) =~= Seq::<JsonV>::empty());
        }
        return Some((out, w + 1));
    }
    match parse_value_at(s, w) {
        None => None,
        Some((v, n)) => {
            match parse_tail_at(s, n, ']') {
                None => None,
                Some((more, p)) => {
                    if more {
                        match parse_items_at(s, p) {
                            None => None,
                            Some((rest, e)) => {
                                let ghost vv = v;
                                let ghost r0 = rest@;
                                let mut rest = rest;
                                rest.insert(0, v);
                                proof {
                                    assert(rest@ =~= seq![vv] + r0);
                                    assert(rest@.subrange(1, rest@.len() as int) =~= r0);
                                    assert(jviews(rest@) =~= seq![jview(vv)] + jviews(r0));
                                }
                                Some((rest, e))
                            },
                        }
                    } else {
                        let ghost vv = v;
                        let mut one: Vec<Json> = Vec::new();
                        one.push(v);
                        proof {
                            reveal_with_fuel(jviews, 2);
                            assert(one@ =~= seq![vv]);
                            assert(one@.subrange(1, one@.len() as int) =~= Seq::<Json>::empty());
                            assert(jviews(one@) =~= seq![jview(vv)]);
                            assert(seq![jview(vv)] =~= seq![jview(vv)] + Seq::<JsonV>::empty());
                        }
                        Some((one, p))
                    }
                },
            }
        },
    }
}

/// Parses object members after the opening brace.
fn parse_members_at(s: &Vec<char>, i: usize) -> (r: Option<(Vec<(String, Json)>, usize)>)
    ensures
        match (r, spec_parse_members(s@, i as int)) {
            (Option::Some((v, n)), Option::Some((sv, m))) => mviews(v@) == sv && n as int == m
                && i < n <= s@.len(),
            (Option::None, Option::None) => true,
            _ => false,
        },
    decreases s@.len() - i, 1int,
{
    if i >= s.len() {
        return None;
    }
    let mut w = i;
    while w < s.len() && ws_test(s[w])
        invariant
            i <= w <= s@.len(),
            spec_parse_members(s@, i as int) == spec_parse_members(s@, w as int),
        decreases s@.len() - w,
    {
        w = w + 1;
    }
    if w >= s.len() {
        return None;
    }
    if s[w] == '}' {
        let out: Vec<(String, Json)> = Vec::new();
        proof {
            assert(mviews(out@) =~= Seq::<(Seq<char>, JsonV)>::empty());
        }
        return Some((out, w + 1));
    }
    if s[w] != '"' {
        return None;
    }
    match parse_string_at(s, w + 1) {
        None => None,
        Some((kt, n)) => {
            let key = chars_to_string(&kt);
            match parse_colon_at(s, n) {
                None => None,
                Some(c0) => {
                    match parse_value_at(s, c0) {
                        None => None,
                        Some((v, m)) => {
                            match parse_tail_at(s, m, '}') {
                                None => None,
                                Some((more, p)) => {
                                    if more {
                                        match parse_members_at(s, p) {
                                            None => None,
                                            Some((rest, e)) => {
                                                let ghost kv = key@;
                                                let ghost vv = v;
                                                let ghost r0 = rest@;
                                                let mut rest = rest;
                                                rest.insert(0, (key, v));
                                                proof {
                                                    assert(rest@.subrange(
                                                        1,
                                                        rest@.len() as int,
                                                    ) =~= r0);
                                                    assert(mviews(rest@) =~= seq![
                                                        (kv, jview(vv)),
                                                    ] + mviews(r0));
                                                }
                                                Some((rest, e))
                                            },
                                        }
                                    } else {
                                        let ghost kv = key@;
                                        let ghost kq = key;
                                        let ghost vv = v;
                                        let mut one: Vec<(String, Json)> = Vec::new();
                                        one.push((key, v));
                                        proof {
                                            reveal_with_fuel(mviews, 2);
                                            assert(one@ =~= seq![(kq, vv)]);
                                            assert(one@.subrange(1, one@.len() as int)
                                                =~= Seq::<(String, Json)>::empty());
                                            assert(mviews(one@) =~= seq![(kv, jview(vv))]);
                                            assert(seq![(kv, jview(vv))] =~= seq![(kv, jview(vv))]
                                                + Seq::<(Seq<char>, JsonV)>::empty());
                                        }
                                        Some((one, p))
                                    }
                                },
                            }
                        },
                    }
                },
            }
        },
    }
}

/// Parses a whole document: one value with only whitespace around it.
pub fn parse_json(text: &str) -> (r: Option<Json>)
    ensures
        match r {
            Option::Some(j) => spec_parse_doc(text@) == Option::Some(jview(j)),
            Option::None => spec_parse_doc(text@) == Option::<JsonV>::None,
        },
{
    let s = str_to_chars(text);
    match parse_value_at(&s, 0) {
        None => None,
        Some((j, n)) => {
            let mut w = n;
            while w < s.len() && ws_test(s[w])
                invariant
                    n <= w <= s@.len(),
                    forall|k: int| n <= k < w ==> is_ws_char(s@[k]),
                decreases s@.len() - w,
            {
                w = w + 1;
            }
            if w == s.len() {
                proof {
                    assert(ws_to_end(s@, n as int));
                }
                Some(j)
            } else {
                proof {
                    assert(!is_ws_char(s@[w as int]));
                    assert(!ws_to_end(s@, n as int));
                }
                None
            }
        },
    }
}

/// A digit character.
fn digit_char_of(d: u64) -> (c: char)
    requires
        d < 10,
    ensures
        c == digit_char(d as int),
{
    if d == 0 { '0' }
    else if d == 1 { '1' }
    else if d == 2 { '2' }
    else if d == 3 { '3' }
    else if d == 4 { '4' }
    else if d == 5 { '5' }
    else if d == 6 { '6' }
    else if d == 7 { '7' }
    else if d == 8 { '8' }
    else { '9' }
}

fn dec_digits_vec(n: u64, out: &mut Vec<char>)
    ensures
        final(out)@ == old(out)@ + dec_digits(n as nat),
    decreases n,
{
    if n < 10 {
        out.push(digit_char_of(n));
        proof {
            assert(final(out)@ =~= old(out)@ + dec_digits(n as nat));
        }
    } else {
        dec_digits_vec(n / 10, out);
        out.push(digit_char_of(n % 10));
        proof {
            assert(final(out)@ =~= old(out)@ + dec_digits(n as nat));
        }
    }
}

/// The decimal text of an unsigned 64-bit integer.
pub fn u64_to_dec(n: u64) -> (r: String)
    ensures
        r@ == dec_digits(n as nat),
{
    let mut out: Vec<char> = Vec::new();
    dec_digits_vec(n, &mut out);
    proof {
        assert(out@ =~= dec_digits(n as nat));
    }
    chars_to_string(&out)
}

/// The value of an all-digit string is never negative.
proof fn lemma_digits_val_nonneg(s: Seq<char>)
    requires
        forall|k: int| 0 <= k < s.len() ==> is_digit(s[k]),
    ensures
        digits_val(s) >= 0,
    decreases s.len(),
{
    if s.len() > 0 {
        lemma_digits_val_nonneg(s.drop_last());
    }
}

/// On an all-digit string, the value of a prefix never exceeds the
/// value of the whole.
proof fn lemma_digits_val_monotone(s: Seq<char>, k: int)
    requires
        0 <= k <= s.len(),
        forall|j: int| 0 <= j < s.len() ==> is_digit(s[j]),
    ensures
        digits_val(s) >= digits_val(s.take(k)),
    decreases s.len() - k,
{
    if k < s.len() {
        assert(s.take(k + 1).drop_last() =~= s.take(k));
        assert(forall|j: int| 0 <= j < s.take(k).len() ==> is_digit(s.take(k)[j]));
        lemma_digits_val_nonneg(s.take(k));
        assert(digits_val(s.take(k + 1)) == digits_val(s.take(k)) * 10 + digit_val(s[k]));
        lemma_digits_val_monotone(s, k + 1);
        assert(s.take(s.len() as int) =~= s);
    } else {
        assert(s.take(k) =~= s);
    }
}

/// Reads a base-ten unsigned 64-bit integer, exactly when the text is
/// a non-empty digit string whose value fits.
pub fn parse_u64_digits(raw: &str) -> (r: Option<u64>)
    ensures
        r == spec_parse_u64(raw@),
{
    let n = raw.unicode_len();
    if n == 0 {
        return None;
    }
    let mut acc: u64 = 0;
    let mut i: usize = 0;
    proof {
        assert(raw@.take(0) =~= Seq::<char>::empty());
    }
    while i < n
        invariant
            n == raw@.len(),
            i <= n,
            forall|k: int| 0 <= k < i ==> is_digit(raw@[k]),
            acc as int == digits_val(raw@.take(i as int)),
        decreases n - i,
    {
        let c = raw.get_char(i);
        if !digit_test(c) {
            return None;
        }
        let d: u64 = ((c as u32) - 48) as u64;
        proof {
            assert(raw@.take(i as int + 1).drop_last() =~= raw@.take(i as int));
            assert(digits_val(raw@.take(i as int + 1)) == acc as int * 10 + d as int);
        }
        if acc > (u64::MAX - d) / 10 {
            proof {
                let q = ((u64::MAX - d) / 10) as int;
                assert((u64::MAX - d) as int == q * 10 + ((u64::MAX - d) as int % 10));
                assert(acc as int * 10 >= (q + 1) * 10);
                assert(acc as int * 10 + d as int > u64::MAX as int);
                if forall|k: int| 0 <= k < raw@.len() ==> is_digit(raw@[k]) {
                    lemma_digits_val_monotone(raw@, i as int + 1);
                    assert(digits_val(raw@) > u64::MAX);
                }
            }
            return None;
        }
        proof {
            let q = ((u64::MAX - d) / 10) as int;
            assert((u64::MAX - d) as int == q * 10 + ((u64::MAX - d) as int % 10));
            assert(acc as int <= q);
            assert(acc as int * 10 <= q * 10);
            assert(acc as int * 10 + d as int <= u64::MAX as int);
        }
        acc = acc * 10 + d;
        i = i + 1;
    }
    proof {
        assert(raw@.take(n as int) =~= raw@);
    }
    Some(acc)
}

/// The digits of a number read back as that number.
pub proof fn lemma_dec_digits_val(n: nat)
    ensures
        dec_digits(n).len() >= 1,
        forall|k: int| 0 <= k < dec_digits(n).len() ==> is_digit(#[trigger] dec_digits(n)[k]),
        digits_val(dec_digits(n)) == n,
    decreases n,
{
    if n < 10 {
        reveal_with_fuel(digits_val, 2);
        assert(dec_digits(n) =~= seq![digit_char(n as int)]);
        assert(dec_digits(n).drop_last() =~= Seq::<char>::empty());
        assert(digits_val(dec_digits(n)) == digit_val(digit_char(n as int)));
    } else {
        lemma_dec_digits_val(n / 10);
        assert(dec_digits(n).drop_last() =~= dec_digits(n / 10));
        assert(dec_digits(n).last() == digit_char((n % 10) as int));
        assert(digits_val(dec_digits(n)) == digits_val(dec_digits(n / 10)) * 10 + digit_val(
            digit_char((n % 10) as int),
        ));
    }
}

/// A number's digits parse back to it.
pub proof fn lemma_parse_u64_dec(n: u64)
    ensures
        spec_parse_u64(dec_digits(n as nat)) == Option::Some(n),
{
    lemma_dec_digits_val(n as nat);
}

/// Characters that may legitimately follow a printed value.
pub open spec fn is_delim(c: char) -> bool {
    is_ws_char(c) || c == ',' || c == ']' || c == '}'
}

/// Characters a printed value can start with.
spec fn is_value_start(c: char) -> bool {
    c == 'n' || c == 't' || c == 'f' || c == '"' || c == '[' || c == '{' || is_digit(c)
}

proof fn lemma_spaces(n: nat)
    ensures
        spec_spaces(n).len() == n,
        forall|k: int| 0 <= k < n ==> spec_spaces(n)[k] == ' ',
    decreases n,
{
    if n > 0 {
        lemma_spaces((n - 1) as nat);
    }
}

proof fn lemma_print_start(j: JsonV, ind: nat)
    requires
        wf_json(j),
    ensures
        spec_print(j, ind).len() > 0,
        is_value_start(spec_print(j, ind)[0]),
{
    reveal_strlit("null");
    reveal_strlit("true");
    reveal_strlit("false");
    reveal_strlit("[]");
    reveal_strlit("{}");
    assert("null"@.len() == 4 && "null"@[0] == 'n');
    assert("true"@.len() == 4 && "true"@[0] == 't');
    assert("false"@.len() == 5 && "false"@[0] == 'f');
    assert("[]"@.len() == 2 && "[]"@[0] == '[');
    assert("{}"@.len() == 2 && "{}"@[0] == '{');
    match j {
        JsonV::Null => {},
        JsonV::Bool(_) => {},
        JsonV::Num(raw) => {
            assert(is_digit(raw[0]));
        },
        JsonV::Str(t) => {
            assert(spec_print(j, ind)[0] == '"');
        },
        JsonV::Arr(elems) => {
            if elems.len() > 0 {
                assert(spec_print(j, ind)[0] == '[');
            }
        },
        JsonV::Obj(ms) => {
            if ms.len() > 0 {
                assert(spec_print(j, ind)[0] == '{');
            }
        },
    }
}

proof fn lemma_value_ws(s: Seq<char>, i: int, m: int)
    requires
        0 <= i <= m <= s.len(),
        forall|k: int| i <= k < m ==> is_ws_char(s[k]),
    ensures
        spec_parse_value(s, i) == spec_parse_value(s, m),
    decreases m - i,
{
    if i < m {
        lemma_value_ws(s, i + 1, m);
    }
}

proof fn lemma_items_ws(s: Seq<char>, i: int, m: int)
    requires
        0 <= i <= m <= s.len(),
        forall|k: int| i <= k < m ==> is_ws_char(s[k]),
    ensures
        spec_parse_items(s, i) == spec_parse_items(s, m),
    decreases m - i,
{
    if i < m {
        lemma_items_ws(s, i + 1, m);
    }
}

proof fn lemma_members_ws(s: Seq<char>, i: int, m: int)
    requires
        0 <= i <= m <= s.len(),
        forall|k: int| i <= k < m ==> is_ws_char(s[k]),
    ensures
        spec_parse_members(s, i) == spec_parse_members(s, m),
    decreases m - i,
{
    if i < m {
        lemma_members_ws(s, i + 1, m);
    }
}

proof fn lemma_tail_ws(s: Seq<char>, i: int, m: int, close: char)
    requires
        0 <= i <= m <= s.len(),
        forall|k: int| i <= k < m ==> is_ws_char(s[k]),
    ensures
        spec_parse_tail(s, i, close) == spec_parse_tail(s, m, close),
    decreases m - i,
{
    if i < m {
        lemma_tail_ws(s, i + 1, m, close);
    }
}

proof fn lemma_colon_ws(s: Seq<char>, i: int, m: int)
    requires
        0 <= i <= m <= s.len(),
        forall|k: int| i <= k < m ==> is_ws_char(s[k]),
    ensures
        spec_parse_colon(s, i) == spec_parse_colon(s, m),
    decreases m - i,
{
    if i < m {
        lemma_colon_ws(s, i + 1, m);
    }
}

/// A prefix and a suffix of a matched concatenation match in place.
proof fn lemma_split(s: Seq<char>, i: int, a: Seq<char>, b: Seq<char>)
    requires
        0 <= i,
        i + a.len() + b.len() <= s.len(),
        s.subrange(i, i + a.len() + b.len()) == a + b,
    ensures
        s.subrange(i, i + a.len()) == a,
        s.subrange(i + a.len(), i + a.len() + b.len()) == b,
        forall|k: int| 0 <= k < a.len() ==> s[i + k] == a[k],
        forall|k: int| 0 <= k < b.len() ==> s[i + a.len() + k] == b[k],
{
    assert forall|k: int| 0 <= k < a.len() implies s[i + k] == a[k] by {
        assert(s.subrange(i, i + a.len() + b.len())[k] == s[i + k]);
        assert((a + b)[k] == a[k]);
    }
    assert forall|k: int| 0 <= k < b.len() implies s[i + a.len() + k] == b[k] by {
        assert(s.subrange(i, i + a.len() + b.len())[a.len() + k] == s[i + a.len() + k]);
        assert((a + b)[a.len() + k] == b[k]);
    }
    assert(s.subrange(i, i + a.len()) =~= a);
    assert(s.subrange(i + a.len(), i + a.len() + b.len()) =~= b);
}

/// The character at a matched position.
proof fn lemma_char_of_sub(s: Seq<char>, i: int, a: Seq<char>, k: int)
    requires
        0 <= i,
        0 <= k < a.len(),
        i + a.len() <= s.len(),
        s.subrange(i, i + a.len()) == a,
    ensures
        s[i + k] == a[k],
{
    assert(s.subrange(i, i + a.len())[k] == s[i + k]);
}

proof fn lemma_hex_char_val(d: int)
    requires
        0 <= d < 16,
    ensures
        hex_val(hex_char(d)) == Option::Some(d),
{
}

proof fn lemma_digit_not_special(c: char)
    requires
        is_digit(c),
    ensures
        c != 'n' && c != 't' && c != 'f' && c != '"' && c != '[' && c != '{' && c != '-',
        !is_ws_char(c),
{
    assert('n' as u32 == 110);
    assert('t' as u32 == 116);
    assert('f' as u32 == 102);
    assert('"' as u32 == 34);
    assert('[' as u32 == 91);
    assert('{' as u32 == 123);
    assert('-' as u32 == 45);
    assert(' ' as u32 == 32);
    assert('\n' as u32 == 10);
    assert('\t' as u32 == 9);
    assert('\r' as u32 == 13);
}

proof fn lemma_delim_not_num(c: char)
    requires
        is_delim(c),
    ensures
        !is_num_char(c),
{
    assert(' ' as u32 == 32);
    assert('\n' as u32 == 10);
    assert('\t' as u32 == 9);
    assert('\r' as u32 == 13);
    assert(',' as u32 == 44);
    assert(']' as u32 == 93);
    assert('}' as u32 == 125);
}

proof fn lemma_value_start_facts(c: char)
    requires
        is_value_start(c),
    ensures
        !is_ws_char(c),
        c != ']' && c != '}' && c != ',' && c != ':',
{
    if is_digit(c) {
        assert(' ' as u32 == 32);
        assert('\n' as u32 == 10);
        assert('\t' as u32 == 9);
        assert('\r' as u32 == 13);
        assert(']' as u32 == 93);
        assert('}' as u32 == 125);
        assert(',' as u32 == 44);
        assert(':' as u32 == 58);
    }
}

proof fn lemma_num_end_at(s: Seq<char>, i: int, e: int)
    requires
        0 <= i <= e <= s.len(),
        forall|k: int| i <= k < e ==> is_num_char(s[k]),
        e == s.len() || !is_num_char(s[e]),
    ensures
        spec_num_end(s, i) == e,
    decreases e - i,
{
    if i < e {
        lemma_num_end_at(s, i + 1, e);
    }
}

/// Parsing a printed string body yields the original characters.
proof fn lemma_parse_esc(t: Seq<char>, s: Seq<char>, i: int)
    requires
        0 <= i,
        i + esc_str(t).len() + 1 <= s.len(),
        s.subrange(i, i + esc_str(t).len() + 1) == esc_str(t).push('"'),
    ensures
        spec_parse_string(s, i) == Option::Some((t, i + esc_str(t).len() + 1)),
    decreases t.len(),
{
    let el = esc_str(t).len() as int;
    if t.len() == 0 {
        assert(esc_str(t) =~= Seq::<char>::empty());
        assert(s.subrange(i, i + 1)[0] == s[i]);
        assert((esc_str(t).push('"'))[0] == '"');
        assert(s[i] == '"');
        assert(t =~= Seq::<char>::empty());
    } else {
        let c = t[0];
        let e = esc_char(c);
        let rest = t.drop_first();
        assert(esc_str(t) == e + esc_str(rest));
        assert(esc_str(t).push('"') =~= e + esc_str(rest).push('"'));
        lemma_split(s, i, e, esc_str(rest).push('"'));
        lemma_parse_esc(rest, s, i + e.len());
        assert(seq![c] + rest =~= t);
        let u = c as u32;
        if c == '"' || c == '\\' || c == '\n' || c == '\r' || c == '\t' {
            assert(s[i] == '\\');
            assert(s[i + 1] == e[1]);
            assert(spec_parse_string(s, i) == Option::Some((t, i + el + 1)));
        } else if u < 32 {
            assert(s[i] == '\\');
            assert(s[i + 1] == 'u');
            assert(s[i + 2] == '0');
            assert(s[i + 3] == '0');
            assert(s[i + 4] == hex_char(u as int / 16));
            assert(s[i + 5] == hex_char(u as int % 16));
            lemma_hex_char_val(u as int / 16);
            lemma_hex_char_val(u as int % 16);
            assert(hex_val('0') == Option::Some(0int));
            let code = spec_hex4(s, i + 2);
            assert(code == Option::Some(((u as int / 16) * 16 + u as int % 16) as u32));
            assert((u as int / 16) * 16 + u as int % 16 == u as int);
            assert(code == Option::Some(u));
            vstd::utf8::char_u32_cast(c, u);
            assert((u as char) == c);
            assert(spec_parse_string(s, i) == Option::Some((t, i + el + 1)));
        } else {
            assert(e =~= seq![c]);
            assert(s[i] == c);
            assert(spec_parse_string(s, i) == Option::Some((t, i + el + 1)));
        }
    }
}

/// Parsing a printed value yields the value, ending right after it.
#[verifier::rlimit(80)]
proof fn lemma_value_rt(j: JsonV, ind: nat, s: Seq<char>, i: int)
    requires
        wf_json(j),
        0 <= i,
        i + spec_print(j, ind).len() <= s.len(),
        s.subrange(i, i + spec_print(j, ind).len()) == spec_print(j, ind),
        i + spec_print(j, ind).len() == s.len() || is_delim(s[i + spec_print(j, ind).len()]),
    ensures
        spec_parse_value(s, i) == Option::Some((j, i + spec_print(j, ind).len())),
    decreases j, 0int,
{
    let p = spec_print(j, ind);
    let pl = p.len() as int;
    lemma_print_start(j, ind);
    lemma_char_of_sub(s, i, p, 0);
    assert(s[i] == p[0]);
    match j {
        JsonV::Null => {
            reveal_strlit("null");
            lemma_char_of_sub(s, i, p, 1);
            lemma_char_of_sub(s, i, p, 2);
            lemma_char_of_sub(s, i, p, 3);
            assert(s[i] == 'n' && s[i + 1] == 'u' && s[i + 2] == 'l' && s[i + 3] == 'l');
            assert(pl == 4);
            assert(i + 4 <= s.len());
            assert(spec_parse_value(s, i) == Option::Some((JsonV::Null, i + 4)));
        },
        JsonV::Bool(b) => {
            reveal_strlit("true");
            reveal_strlit("false");
            lemma_char_of_sub(s, i, p, 1);
            lemma_char_of_sub(s, i, p, 2);
            lemma_char_of_sub(s, i, p, 3);
            if b {
                assert(s[i] == 't' && s[i + 1] == 'r' && s[i + 2] == 'u' && s[i + 3] == 'e');
            } else {
                lemma_char_of_sub(s, i, p, 4);
                assert(s[i] == 'f' && s[i + 1] == 'a' && s[i + 2] == 'l' && s[i + 3] == 's' && s[i
                    + 4] == 'e');
            }
        },
        JsonV::Num(raw) => {
            assert(is_digit(s[i]));
            lemma_digit_not_special(s[i]);
            assert forall|k: int| i <= k < i + pl implies is_num_char(s[k]) by {
                lemma_char_of_sub(s, i, p, k - i);
            }
            if i + pl < s.len() {
                lemma_delim_not_num(s[i + pl]);
            }
            lemma_num_end_at(s, i, i + pl);
            assert(s.subrange(i, i + pl) == raw);
        },
        JsonV::Str(t) => {
            assert(p =~= seq!['"'] + esc_str(t).push('"'));
            lemma_split(s, i, seq!['"'], esc_str(t).push('"'));
            lemma_parse_esc(t, s, i + 1);
        },
        JsonV::Arr(elems) => {
            if elems.len() == 0 {
                reveal_strlit("[]");
                lemma_char_of_sub(s, i, p, 1);
                assert(s[i] == '[' && s[i + 1] == ']');
                assert(elems =~= Seq::<JsonV>::empty());
            } else {
                assert(p =~= seq!['['] + spec_print_items(elems, 0, ind));
                lemma_split(s, i, seq!['['], spec_print_items(elems, 0, ind));
                assert(decreases_to!(j => elems));
                lemma_items_rt(elems, 0, ind, s, i + 1);
                assert(elems.subrange(0, elems.len() as int) =~= elems);
                assert(spec_parse_items(s, i + 1) == Option::Some((elems, i + pl)));
                assert(spec_parse_value(s, i) == Option::Some((JsonV::Arr(elems), i + pl)));
            }
        },
        JsonV::Obj(ms) => {
            if ms.len() == 0 {
                reveal_strlit("{}");
                lemma_char_of_sub(s, i, p, 1);
                assert(s[i] == '{' && s[i + 1] == '}');
                assert(ms =~= Seq::<(Seq<char>, JsonV)>::empty());
            } else {
                assert(p =~= seq!['{'] + spec_print_members(ms, 0, ind));
                lemma_split(s, i, seq!['{'], spec_print_members(ms, 0, ind));
                assert(decreases_to!(j => ms));
                lemma_members_rt(ms, 0, ind, s, i + 1);
                assert(ms.subrange(0, ms.len() as int) =~= ms);
                assert(spec_parse_members(s, i + 1) == Option::Some((ms, i + pl)));
                assert(spec_parse_value(s, i) == Option::Some((JsonV::Obj(ms), i + pl)));
            }
        },
    }
}

/// Parsing the printed entries of a non-empty array, from entry `k`
/// on, yields those entries and ends right after the bracket.
#[verifier::rlimit(80)]
proof fn lemma_items_rt(elems: Seq<JsonV>, k: int, ind: nat, s: Seq<char>, i: int)
    requires
        forall|q: int| 0 <= q < elems.len() ==> wf_json(#[trigger] elems[q]),
        0 <= k < elems.len(),
        0 <= i,
        i + spec_print_items(elems, k, ind).len() <= s.len(),
        s.subrange(i, i + spec_print_items(elems, k, ind).len()) == spec_print_items(
            elems,
            k,
            ind,
        ),
    ensures
        spec_parse_items(s, i) == Option::Some(
            (elems.subrange(k, elems.len() as int), i + spec_print_items(elems, k, ind).len()),
        ),
    decreases elems, elems.len() - k,
{
    let d = deeper(ind);
    let hd = seq!['\n'] + spec_spaces(d);
    let pe = spec_print(elems[k], d);
    let li = spec_print_items(elems, k, ind);
    let ll = li.len() as int;
    let tl = if k + 1 < elems.len() {
        seq![','] + spec_print_items(elems, k + 1, ind)
    } else {
        seq!['\n'] + spec_spaces(ind) + seq![']']
    };
    assert(li =~= hd + (pe + tl));
    lemma_split(s, i, hd, pe + tl);
    let m = i + hd.len() as int;
    lemma_split(s, m, pe, tl);
    lemma_spaces(d);
    lemma_spaces(ind);
    assert forall|q: int| i <= q < m implies is_ws_char(s[q]) by {
        lemma_char_of_sub(s, i, hd, q - i);
    }
    lemma_items_ws(s, i, m);
    assert(decreases_to!(elems => elems[k]));
    lemma_print_start(elems[k], d);
    lemma_char_of_sub(s, m, pe, 0);
    assert(s[m] == pe[0]);
    lemma_value_start_facts(pe[0]);
    let n = m + pe.len() as int;
    lemma_char_of_sub(s, n, tl, 0);
    assert(s[n] == tl[0]);
    lemma_value_rt(elems[k], d, s, m);
    if k + 1 < elems.len() {
        assert(s[n] == ',');
        lemma_split(s, n, seq![','], spec_print_items(elems, k + 1, ind));
        lemma_items_rt(elems, k + 1, ind, s, n + 1);
        assert(seq![elems[k]] + elems.subrange(k + 1, elems.len() as int) =~= elems.subrange(
            k,
            elems.len() as int,
        ));
        assert(spec_parse_items(s, m) == Option::Some(
            (elems.subrange(k, elems.len() as int), i + ll),
        ));
    } else {
        assert(tl =~= (seq!['\n'] + spec_spaces(ind)).push(']'));
        assert(tl.len() == ind + 2);
        assert forall|q: int| n <= q < n + 1 + ind implies is_ws_char(s[q]) by {
            lemma_char_of_sub(s, n, tl, q - n);
        }
        lemma_tail_ws(s, n, n + 1 + ind as int, ']');
        lemma_char_of_sub(s, n, tl, 1 + ind as int);
        assert(s[n + 1 + ind] == ']');
        assert(n + 1 + ind < s.len());
        assert(spec_parse_tail(s, n + 1 + ind as int, ']') == Option::Some((false, n + ind + 2)));
        assert(spec_parse_tail(s, n, ']') == Option::Some((false, n + ind + 2)));
        assert(elems.subrange(k, elems.len() as int) =~= seq![elems[k]]);
        assert(spec_parse_items(s, m) == Option::Some(
            (elems.subrange(k, elems.len() as int), i + ll),
        ));
    }
}

/// Parsing the printed members of a non-empty object, from member
/// `k` on, yields those members and ends right after the brace.
#[verifier::rlimit(80)]
proof fn lemma_members_rt(ms: Seq<(Seq<char>, JsonV)>, k: int, ind: nat, s: Seq<char>, i: int)
    requires
        forall|q: int| 0 <= q < ms.len() ==> wf_json(#[trigger] ms[q].1),
        0 <= k < ms.len(),
        0 <= i,
        i + spec_print_members(ms, k, ind).len() <= s.len(),
        s.subrange(i, i + spec_print_members(ms, k, ind).len()) == spec_print_members(ms, k, ind),
    ensures
        spec_parse_members(s, i) == Option::Some(
            (ms.subrange(k, ms.len() as int), i + spec_print_members(ms, k, ind).len()),
        ),
    decreases ms, ms.len() - k,
{
    let d = deeper(ind);
    let hd = seq!['\n'] + spec_spaces(d);
    let key = ms[k].0;
    let pk = spec_print_str(key);
    let pe = spec_print(ms[k].1, d);
    let li = spec_print_members(ms, k, ind);
    let ll = li.len() as int;
    let tl = if k + 1 < ms.len() {
        seq![','] + spec_print_members(ms, k + 1, ind)
    } else {
        seq!['\n'] + spec_spaces(ind) + seq!['}']
    };
    assert(li =~= hd + (pk + (seq![':', ' '] + (pe + tl))));
    lemma_split(s, i, hd, pk + (seq![':', ' '] + (pe + tl)));
    let m = i + hd.len() as int;
    lemma_split(s, m, pk, seq![':', ' '] + (pe + tl));
    let n0 = m + pk.len() as int;
    lemma_split(s, n0, seq![':', ' '], pe + tl);
    let c1 = n0 + 2;
    lemma_split(s, c1, pe, tl);
    let n = c1 + pe.len() as int;
    lemma_spaces(d);
    lemma_spaces(ind);
    assert forall|q: int| i <= q < m implies is_ws_char(s[q]) by {
        lemma_char_of_sub(s, i, hd, q - i);
    }
    lemma_members_ws(s, i, m);
    lemma_char_of_sub(s, m, pk, 0);
    assert(s[m] == pk[0]);
    assert(pk[0] == '"');
    assert(pk =~= seq!['"'] + esc_str(key).push('"'));
    lemma_split(s, m, seq!['"'], esc_str(key).push('"'));
    lemma_parse_esc(key, s, m + 1);
    assert(spec_parse_string(s, m + 1) == Option::Some((key, n0)));
    lemma_char_of_sub(s, n0, seq![':', ' '], 0);
    lemma_char_of_sub(s, n0, seq![':', ' '], 1);
    assert(s[n0] == ':');
    assert(s[n0 + 1] == ' ');
    assert(spec_parse_colon(s, n0) == Option::Some(n0 + 1));
    lemma_value_ws(s, n0 + 1, c1);
    assert(decreases_to!(ms => ms[k]));
    assert(decreases_to!(ms[k] => ms[k].1));
    lemma_print_start(ms[k].1, d);
    lemma_char_of_sub(s, c1, pe, 0);
    assert(s[c1] == pe[0]);
    lemma_value_start_facts(pe[0]);
    lemma_char_of_sub(s, n, tl, 0);
    assert(s[n] == tl[0]);
    lemma_value_rt(ms[k].1, d, s, c1);
    if k + 1 < ms.len() {
        assert(s[n] == ',');
        lemma_split(s, n, seq![','], spec_print_members(ms, k + 1, ind));
        lemma_members_rt(ms, k + 1, ind, s, n + 1);
        assert(seq![ms[k]] + ms.subrange(k + 1, ms.len() as int) =~= ms.subrange(
            k,
            ms.len() as int,
        ));
        assert(spec_parse_members(s, m) == Option::Some(
            (ms.subrange(k, ms.len() as int), i + ll),
        ));
    } else {
        assert(tl =~= (seq!['\n'] + spec_spaces(ind)).push('}'));
        assert(tl.len() == ind + 2);
        assert forall|q: int| n <= q < n + 1 + ind implies is_ws_char(s[q]) by {
            lemma_char_of_sub(s, n, tl, q - n);
        }
        lemma_tail_ws(s, n, n + 1 + ind as int, '}');
        lemma_char_of_sub(s, n, tl, 1 + ind as int);
        assert(s[n + 1 + ind] == '}');
        assert(n + 1 + ind < s.len());
        assert(spec_parse_tail(s, n + 1 + ind as int, '}') == Option::Some((false, n + ind + 2)));
        assert(spec_parse_tail(s, n, '}') == Option::Some((false, n + ind + 2)));
        assert(ms.subrange(k, ms.len() as int) =~= seq![ms[k]]);
        assert(spec_parse_members(s, m) == Option::Some(
            (ms.subrange(k, ms.len() as int), i + ll),
        ));
    }
}

/// Parsing inverts pretty-printing: a well-formed document read back
/// from its own text is itself.
pub proof fn lemma_parse_print_doc(j: JsonV)
    requires
        wf_json(j),
    ensures
        spec_parse_doc(spec_print_doc(j)) == Option::Some(j),
{
    let s = spec_print_doc(j);
    assert(s.subrange(0, s.len() as int) =~= s);
    lemma_value_rt(j, 0, s, 0);
}

} // verus!
