//! Character-level text helpers shared by the codec and the editor
//! operations: conversions between `String` and `Vec<char>`, string
//! equality, and trimming of ASCII whitespace.

use vstd::prelude::*;

verus! {

/// Whitespace as the codec and the trim helper understand it.
pub open spec fn is_ws_char(c: char) -> bool {
    c == ' ' || c == '\n' || c == '\t' || c == '\r'
}

/// Relies on `String::from_iter` over `char`: the string holds
/// exactly the given characters, in order.
#[verifier::external_body]
pub fn chars_to_string(v: &Vec<char>) -> (r: String)
    ensures
        r@ == v@,
{
    v.iter().collect()
}

/// Relies on `char::from_u32`: for a Unicode scalar value it returns
/// the character with that value.
#[verifier::external_body]
pub fn char_from_u32(u: u32) -> (c: char)
    requires
        u < 0xD800 || (0xE000 <= u && u <= 0x10FFFF),
    ensures
        c as u32 == u,
{
    char::from_u32(u).unwrap()
}

/// The characters of a string, as a vector.
pub fn str_to_chars(s: &str) -> (v: Vec<char>)
    ensures
        v@ == s@,
{
    let n = s.unicode_len();
    let mut v: Vec<char> = Vec::new();
    let mut i: usize = 0;
    while i < n
        invariant
            n == s@.len(),
            i <= n,
            v@ == s@.take(i as int),
        decreases n - i,
    {
        let c = s.get_char(i);
        v.push(c);
        proof {
            assert(v@ =~= s@.take(i as int + 1));
        }
        i = i + 1;
    }
    proof {
        assert(s@.take(n as int) =~= s@);
    }
    v
}

/// Character-by-character string equality.
pub fn str_eq(a: &str, b: &str) -> (r: bool)
    ensures
        r == (a@ == b@),
{
    let na = a.unicode_len();
    let nb = b.unicode_len();
    if na != nb {
        proof {
            assert(a@ != b@);
        }
        return false;
    }
    let mut i: usize = 0;
    while i < na
        invariant
            na == a@.len(),
            na == b@.len(),
            i <= na,
            forall|k: int| 0 <= k < i ==> a@[k] == b@[k],
        decreases na - i,
    {
        if a.get_char(i) != b.get_char(i) {
            return false;
        }
        i = i + 1;
    }
    proof {
        assert(a@ =~= b@);
    }
    true
}

/// Index of the first non-whitespace character at or after `i`.
pub open spec fn spec_skip_ws(s: Seq<char>, i: int) -> int
    decreases s.len() - i,
{
    if 0 <= i < s.len() && is_ws_char(s[i]) {
        spec_skip_ws(s, i + 1)
    } else {
        i
    }
}

/// One past the last non-whitespace character before `i`.
pub open spec fn spec_rskip_ws(s: Seq<char>, i: int) -> int
    decreases i,
{
    if 0 < i <= s.len() && is_ws_char(s[i - 1]) {
        spec_rskip_ws(s, i - 1)
    } else {
        i
    }
}

/// The string with leading and trailing whitespace removed.
pub open spec fn spec_trim(s: Seq<char>) -> Seq<char> {
    let from = spec_skip_ws(s, 0);
    let to = spec_rskip_ws(s, s.len() as int);
    if from <= to {
        s.subrange(from, to)
    } else {
        Seq::empty()
    }
}

proof fn lemma_rskip_ws_bounds(s: Seq<char>, i: int)
    requires
        0 <= i <= s.len(),
    ensures
        0 <= spec_rskip_ws(s, i) <= i,
    decreases i,
{
    if 0 < i && is_ws_char(s[i - 1]) {
        lemma_rskip_ws_bounds(s, i - 1);
    }
}

/// Removes leading and trailing whitespace characters.
pub fn trim_str(s: &str) -> (r: String)
    ensures
        r@ == spec_trim(s@),
{
    let v = str_to_chars(s);
    let n = v.len();
    let mut from: usize = 0;
    while from < n && (v[from] == ' ' || v[from] == '\n' || v[from] == '\t' || v[from] == '\r')
        invariant
            n == v@.len(),
            0 <= from <= n,
            spec_skip_ws(v@, 0) == spec_skip_ws(v@, from as int),
        decreases n - from,
    {
        from = from + 1;
    }
    proof {
        assert(spec_skip_ws(v@, from as int) == from as int);
    }
    let mut to: usize = n;
    while to > from && (v[to - 1] == ' ' || v[to - 1] == '\n' || v[to - 1] == '\t' || v[to - 1] == '\r')
        invariant
            n == v@.len(),
            from <= to <= n,
            spec_skip_ws(v@, 0) == from as int,
            spec_rskip_ws(v@, n as int) == spec_rskip_ws(v@, to as int),
        decreases to,
    {
        to = to - 1;
    }
    let mut out: Vec<char> = Vec::new();
    let mut i: usize = from;
    while i < to
        invariant
            from <= i <= to <= n,
            n == v@.len(),
            out@ == v@.subrange(from as int, i as int),
        decreases to - i,
    {
        out.push(v[i]);
        proof {
            assert(out@ =~= v@.subrange(from as int, i as int + 1));
        }
        i = i + 1;
    }
    proof {
        lemma_rskip_ws_bounds(v@, to as int);
        if to > from {
            assert(spec_rskip_ws(v@, to as int) == to as int);
            assert(out@ =~= spec_trim(v@));
        } else {
            assert(out@ =~= spec_trim(v@));
        }
    }
    chars_to_string(&out)
}

} // verus!
