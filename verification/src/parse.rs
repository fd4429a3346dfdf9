//! Parsing JSON text into a tree.
//!
//! [`spec_parse`] is the mathematical form of the grammar the parser
//! accepts: standard JSON with insignificant whitespace, except that
//! numbers are integers (a fraction or an exponent is rejected, as is a
//! magnitude beyond 64 signed bits), and string escapes are the named
//! ones (`\" \\ \/ \b \f \n \r \t`); any other character stands for
//! itself.  The whole input must be one value surrounded only by
//! whitespace.  The executable parser accepts exactly that grammar and
//! produces exactly that tree.

use vstd::prelude::*;

use crate::cjson::CJson;
use crate::cjson::CJsonError;
use crate::cjson::CJsonResult;
use crate::cjson::JsonVal;

verus! {

/// JSON insignificant whitespace.
pub open spec fn is_ws(c: char) -> bool {
    c == ' ' || c == '\n' || c == '\r' || c == '\t'
}

/// A decimal digit.
pub open spec fn is_digit(c: char) -> bool {
    '0' <= c && c <= '9'
}

/// The text remaining at position `i`: the termination measure of the
/// parsing functions.
pub open spec fn rem(s: Seq<char>, i: int) -> int {
    if i <= s.len() {
        s.len() - i
    } else {
        0
    }
}

/// A position no earlier than `lo`.
pub open spec fn at_least(j: int, lo: int) -> int {
    if j >= lo {
        j
    } else {
        lo
    }
}

/// The first position at or after `i` holding no whitespace.
pub open spec fn skip_ws(s: Seq<char>, i: int) -> int
    decreases s.len() - i,
{
    if 0 <= i < s.len() && is_ws(s[i]) {
        skip_ws(s, i + 1)
    } else {
        i
    }
}

/// The first position at or after `i` holding no digit.
pub open spec fn digits_end(s: Seq<char>, i: int) -> int
    decreases s.len() - i,
{
    if 0 <= i < s.len() && is_digit(s[i]) {
        digits_end(s, i + 1)
    } else {
        i
    }
}

/// The value of the digit run from `i` to `j`.
pub open spec fn digits_val(s: Seq<char>, i: int, j: int) -> int
    decreases j - i,
{
    if i >= j {
        0
    } else {
        digits_val(s, i, j - 1) * 10 + (s[j - 1] as int - '0' as int)
    }
}

/// Whether the literal `lit` stands at position `i`.
pub open spec fn has_lit(s: Seq<char>, i: int, lit: Seq<char>) -> bool {
    0 <= i && i + lit.len() <= s.len() && s.subrange(i, i + lit.len()) == lit
}

/// The character a named escape stands for.
pub open spec fn unescape(e: char) -> Option<char> {
    if e == '"' {
        Some('"')
    } else if e == '\\' {
        Some('\\')
    } else if e == '/' {
        Some('/')
    } else if e == 'b' {
        Some('\u{8}')
    } else if e == 'f' {
        Some('\u{c}')
    } else if e == 'n' {
        Some('\n')
    } else if e == 'r' {
        Some('\r')
    } else if e == 't' {
        Some('\t')
    } else {
        None
    }
}

/// The body of a string from `i` (after the opening quote) to its
/// closing quote: the characters read, and the position after the
/// quote.
pub open spec fn parse_str_body(s: Seq<char>, i: int) -> Option<(Seq<char>, int)>
    decreases rem(s, i),
{
    if i < 0 || i >= s.len() {
        None
    } else if s[i] == '"' {
        Some((Seq::empty(), i + 1))
    } else if s[i] == '\\' {
        if i + 1 >= s.len() {
            None
        } else {
            match unescape(s[i + 1]) {
                Some(c) => match parse_str_body(s, i + 2) {
                    Some((cs, j)) => Some((seq![c] + cs, j)),
                    None => None,
                },
                None => None,
            }
        }
    } else {
        match parse_str_body(s, i + 1) {
            Some((cs, j)) => Some((seq![s[i]] + cs, j)),
            None => None,
        }
    }
}

/// An integer at position `i`: an optional minus sign and a digit run,
/// not followed by a fraction or an exponent, within 64 signed bits.
pub open spec fn parse_number(s: Seq<char>, i: int) -> Option<(JsonVal, int)> {
    if i < 0 || i >= s.len() {
        None
    } else {
        let neg = s[i] == '-';
        let d0 = if neg {
            i + 1
        } else {
            i
        };
        let de = at_least(digits_end(s, d0), d0);
        if de == d0 {
            None
        } else if de < s.len() && (s[de] == '.' || s[de] == 'e' || s[de] == 'E') {
            None
        } else {
            let m = digits_val(s, d0, de);
            let n: int = if neg {
                -m
            } else {
                m
            };
            if i64::MIN <= n <= i64::MAX {
                Some((JsonVal::Num(n), de))
            } else {
                None
            }
        }
    }
}

/// A value at position `i` (no leading whitespace), and the position
/// just after it.
pub open spec fn parse_value(s: Seq<char>, i: int) -> Option<(JsonVal, int)>
    decreases rem(s, i), 0int,
{
    if i < 0 || i >= s.len() {
        None
    } else if s[i] == 'n' {
        if has_lit(s, i, seq!['n', 'u', 'l', 'l']) {
            Some((JsonVal::Null, i + 4))
        } else {
            None
        }
    } else if s[i] == 't' {
        if has_lit(s, i, seq!['t', 'r', 'u', 'e']) {
            Some((JsonVal::Bool(true), i + 4))
        } else {
            None
        }
    } else if s[i] == 'f' {
        if has_lit(s, i, seq!['f', 'a', 'l', 's', 'e']) {
            Some((JsonVal::Bool(false), i + 5))
        } else {
            None
        }
    } else if s[i] == '"' {
        match parse_str_body(s, i + 1) {
            Some((cs, j)) => Some((JsonVal::Str(cs), j)),
            None => None,
        }
    } else if s[i] == '[' {
        let j = at_least(skip_ws(s, i + 1), i + 1);
        if j < s.len() && s[j] == ']' {
            Some((JsonVal::Arr(Seq::empty()), j + 1))
        } else {
            match parse_elems(s, j) {
                Some((vs, k)) => Some((JsonVal::Arr(vs), k)),
                None => None,
            }
        }
    } else if s[i] == '{' {
        let j = at_least(skip_ws(s, i + 1), i + 1);
        if j < s.len() && s[j] == '}' {
            Some((JsonVal::Obj(Seq::empty()), j + 1))
        } else {
            match parse_members(s, j) {
                Some((ms, k)) => Some((JsonVal::Obj(ms), k)),
                None => None,
            }
        }
    } else if s[i] == '-' || is_digit(s[i]) {
        parse_number(s, i)
    } else {
        None
    }
}

/// One or more comma-separated array elements from `i`, up to and
/// including the closing bracket.
pub open spec fn parse_elems(s: Seq<char>, i: int) -> Option<(Seq<JsonVal>, int)>
    decreases rem(s, i), 1int,
{
    match parse_value(s, i) {
        None => None,
        Some((v, j0)) => {
            let p = at_least(j0, i + 1);
            let j = at_least(skip_ws(s, p), p);
            if j < s.len() && s[j] == ',' {
                let k = at_least(skip_ws(s, j + 1), j + 1);
                match parse_elems(s, k) {
                    Some((vs, m)) => Some((seq![v] + vs, m)),
                    None => None,
                }
            } else if j < s.len() && s[j] == ']' {
                Some((seq![v], j + 1))
            } else {
                None
            }
        },
    }
}

/// One or more comma-separated object members from `i`, up to and
/// including the closing brace.
pub open spec fn parse_members(s: Seq<char>, i: int) -> Option<(Seq<(Seq<char>, JsonVal)>, int)>
    decreases rem(s, i), 1int,
{
    if i < 0 || i >= s.len() || s[i] != '"' {
        None
    } else {
        match parse_str_body(s, i + 1) {
            None => None,
            Some((key, j0)) => {
                let p = at_least(j0, i + 1);
                let j = at_least(skip_ws(s, p), p);
                if !(j < s.len() && s[j] == ':') {
                    None
                } else {
                    let k = at_least(skip_ws(s, j + 1), j + 1);
                    match parse_value(s, k) {
                        None => None,
                        Some((v, m0)) => {
                            let q = at_least(m0, k + 1);
                            let m = at_least(skip_ws(s, q), q);
                            if m < s.len() && s[m] == ',' {
                                let w = at_least(skip_ws(s, m + 1), m + 1);
                                match parse_members(s, w) {
                                    Some((ms, z)) => Some((seq![(key, v)] + ms, z)),
                                    None => None,
                                }
                            } else if m < s.len() && s[m] == '}' {
                                Some((seq![(key, v)], m + 1))
                            } else {
                                None
                            }
                        },
                    }
                }
            },
        }
    }
}

pub proof fn lemma_digits_end_digits(s: Seq<char>, i: int)
    requires
        0 <= i,
    ensures
        i <= at_least(digits_end(s, i), i),
        digits_end(s, i) <= s.len() || i > s.len(),
        forall|k: int| i <= k < digits_end(s, i) ==> is_digit(#[trigger] s[k]),
    decreases s.len() - i,
{
    if 0 <= i < s.len() && is_digit(s[i]) {
        lemma_digits_end_digits(s, i + 1);
    }
}

pub proof fn lemma_digits_val_nonneg(s: Seq<char>, i: int, j: int)
    requires
        forall|k: int| i <= k < j ==> is_digit(#[trigger] s[k]),
    ensures
        digits_val(s, i, j) >= 0,
    decreases j - i,
{
    if i < j {
        lemma_digits_val_nonneg(s, i, j - 1);
    }
}

pub proof fn lemma_digits_val_mono(s: Seq<char>, i: int, j: int, j2: int)
    requires
        i <= j <= j2,
        forall|k: int| i <= k < j2 ==> is_digit(#[trigger] s[k]),
    ensures
        digits_val(s, i, j) <= digits_val(s, i, j2),
    decreases j2 - j,
{
    lemma_digits_val_nonneg(s, i, j);
    if j < j2 {
        lemma_digits_val_mono(s, i, j, j2 - 1);
        lemma_digits_val_nonneg(s, i, j2 - 1);
    }
}

/// The tree one whole JSON text denotes: one value, surrounded only by
/// whitespace.
pub open spec fn spec_parse(s: Seq<char>) -> Option<JsonVal> {
    let i = at_least(skip_ws(s, 0), 0);
    match parse_value(s, i) {
        None => None,
        Some((v, j0)) => {
            let p = at_least(j0, i + 1);
            let j = at_least(skip_ws(s, p), p);
            if j == s.len() {
                Some(v)
            } else {
                None
            }
        },
    }
}

fn ws_end(s: &Vec<char>, i: usize) -> (r: usize)
    requires
        i <= s@.len(),
    ensures
        r as int == skip_ws(s@, i as int),
        i <= r <= s@.len(),
{
    let mut k = i;
    while k < s.len() && (s[k] == ' ' || s[k] == '\n' || s[k] == '\r' || s[k] == '\t')
        invariant
            i <= k <= s@.len(),
            skip_ws(s@, i as int) == skip_ws(s@, k as int),
        decreases s@.len() - k,
    {
        k += 1;
    }
    k
}

fn dig_end(s: &Vec<char>, i: usize) -> (r: usize)
    requires
        i <= s@.len(),
    ensures
        r as int == digits_end(s@, i as int),
        i <= r <= s@.len(),
{
    let mut k = i;
    while k < s.len() && '0' <= s[k] && s[k] <= '9'
        invariant
            i <= k <= s@.len(),
            digits_end(s@, i as int) == digits_end(s@, k as int),
        decreases s@.len() - k,
    {
        k += 1;
    }
    k
}

/// The digit run from `d0` to `de` as a number, when it stays within 64
/// signed bits of magnitude; `None` past that.
fn digits_to_u64(s: &Vec<char>, d0: usize, de: usize) -> (r: Option<u64>)
    requires
        d0 <= de <= s@.len(),
        forall|k: int| d0 <= k < de ==> is_digit(#[trigger] s@[k]),
    ensures
        match r {
            Some(m) => m as int == digits_val(s@, d0 as int, de as int) && m
                <= 9223372036854775808u64,
            None => digits_val(s@, d0 as int, de as int) > 9223372036854775808u64,
        },
{
    let mut acc: u64 = 0;
    let mut over = false;
    let mut k = d0;
    while k < de
        invariant
            d0 <= k <= de <= s@.len(),
            forall|j: int| d0 <= j < de ==> is_digit(#[trigger] s@[j]),
            !over ==> acc as int == digits_val(s@, d0 as int, k as int) && acc
                <= 9223372036854775808u64,
            over ==> digits_val(s@, d0 as int, k as int) > 9223372036854775808u64,
        decreases de - k,
    {
        let d = (s[k] as u8) - ('0' as u8);
        proof {
            lemma_digits_val_nonneg(s@, d0 as int, k as int);
        }
        if over {
            proof {
                lemma_digits_val_mono(s@, d0 as int, k as int, k + 1);
            }
        } else if acc > (u64::MAX - 9) / 10 {
            over = true;
            proof {
                assert(digits_val(s@, d0 as int, k + 1) == digits_val(s@, d0 as int, k as int)
                    * 10 + (s@[k as int] as int - '0' as int));
            }
        } else {
            let acc2 = acc * 10 + (d as u64);
            if acc2 > 9223372036854775808u64 {
                over = true;
            } else {
                acc = acc2;
            }
        }
        k += 1;
    }
    if over {
        None
    } else {
        Some(acc)
    }
}

/// A number at position `i`, exactly as [`parse_number`] says.
fn p_number(s: &Vec<char>, i: usize) -> (r: Option<(CJson, usize)>)
    requires
        i < s@.len(),
    ensures
        match parse_number(s@, i as int) {
            Some((v, j)) => r is Some && (r->0).0@ == v && (r->0).1 as int == j && i < (r->0).1
                <= s@.len(),
            None => r is None,
        },
{
    let slen = s.len();
    let neg = s[i] == '-';
    let d0 = if neg {
        i + 1
    } else {
        i
    };
    if d0 > s.len() {
        return None;
    }
    let de = dig_end(s, d0);
    proof {
        lemma_digits_end_digits(s@, d0 as int);
    }
    if de == d0 {
        return None;
    }
    if de < s.len() && (s[de] == '.' || s[de] == 'e' || s[de] == 'E') {
        return None;
    }
    let m = match digits_to_u64(s, d0, de) {
        Some(m) => m,
        None => {
            return None;
        },
    };
    if neg {
        if m == 9223372036854775808u64 {
            Some((CJson::Num(i64::MIN), de))
        } else {
            Some((CJson::Num(-(m as i64)), de))
        }
    } else {
        if m > i64::MAX as u64 {
            None
        } else {
            Some((CJson::Num(m as i64), de))
        }
    }
}

/// A string body from `i`, exactly as [`parse_str_body`] says.
fn p_str_body(s: &Vec<char>, i: usize) -> (r: Option<(Vec<char>, usize)>)
    requires
        i <= s@.len(),
    ensures
        match parse_str_body(s@, i as int) {
            Some((cs, j)) => r is Some && (r->0).0@ == cs && (r->0).1 as int == j && i < (r->0).1
                <= s@.len(),
            None => r is None,
        },
    decreases s@.len() - i,
{
    if i >= s.len() {
        return None;
    }
    let c = s[i];
    if c == '"' {
        let empty: Vec<char> = Vec::new();
        return Some((empty, i + 1));
    }
    if c == '\\' {
        if i + 1 >= s.len() {
            return None;
        }
        let e = s[i + 1];
        let unescaped: char = if e == '"' {
            '"'
        } else if e == '\\' {
            '\\'
        } else if e == '/' {
            '/'
        } else if e == 'b' {
            '\u{8}'
        } else if e == 'f' {
            '\u{c}'
        } else if e == 'n' {
            '\n'
        } else if e == 'r' {
            '\r'
        } else if e == 't' {
            '\t'
        } else {
            return None;
        };
        let (rest, j) = match p_str_body(s, i + 2) {
            Some(p) => p,
            None => {
                return None;
            },
        };
        let mut out: Vec<char> = Vec::new();
        out.push(unescaped);
        let mut rest = rest;
        out.append(&mut rest);
        proof {
            assert(out@ =~= (parse_str_body(s@, i as int)->0).0);
        }
        return Some((out, j));
    }
    let (rest, j) = match p_str_body(s, i + 1) {
        Some(p) => p,
        None => {
            return None;
        },
    };
    let mut out: Vec<char> = Vec::new();
    out.push(c);
    let mut rest = rest;
    out.append(&mut rest);
    proof {
        assert(out@ =~= (parse_str_body(s@, i as int)->0).0);
    }
    Some((out, j))
}

/// A value at position `i`, exactly as [`parse_value`] says.
fn p_value(s: &Vec<char>, i: usize) -> (r: Option<(CJson, usize)>)
    requires
        i <= s@.len(),
    ensures
        match parse_value(s@, i as int) {
            Some((v, j)) => r is Some && (r->0).0@ == v && (r->0).1 as int == j && i < (r->0).1
                <= s@.len(),
            None => r is None,
        },
    decreases s@.len() - i, 0int,
{
    broadcast use crate::cjson::group_json_view_lemmas;

    if i >= s.len() {
        return None;
    }
    let c = s[i];
    if c == 'n' {
        if s.len() - i >= 4 && s[i + 1] == 'u' && s[i + 2] == 'l' && s[i + 3] == 'l' {
            proof {
                assert(s@.subrange(i as int, i + 4) =~= seq!['n', 'u', 'l', 'l']);
            }
            Some((CJson::Null, i + 4))
        } else {
            proof {
                if has_lit(s@, i as int, seq!['n', 'u', 'l', 'l']) {
                    assert(s@[i + 1] == s@.subrange(i as int, i + 4)[1]);
                    assert(s@[i + 2] == s@.subrange(i as int, i + 4)[2]);
                    assert(s@[i + 3] == s@.subrange(i as int, i + 4)[3]);
                }
            }
            None
        }
    } else if c == 't' {
        if s.len() - i >= 4 && s[i + 1] == 'r' && s[i + 2] == 'u' && s[i + 3] == 'e' {
            proof {
                assert(s@.subrange(i as int, i + 4) =~= seq!['t', 'r', 'u', 'e']);
            }
            Some((CJson::Bool(true), i + 4))
        } else {
            proof {
                if has_lit(s@, i as int, seq!['t', 'r', 'u', 'e']) {
                    assert(s@[i + 1] == s@.subrange(i as int, i + 4)[1]);
                    assert(s@[i + 2] == s@.subrange(i as int, i + 4)[2]);
                    assert(s@[i + 3] == s@.subrange(i as int, i + 4)[3]);
                }
            }
            None
        }
    } else if c == 'f' {
        if s.len() - i >= 5 && s[i + 1] == 'a' && s[i + 2] == 'l' && s[i + 3] == 's' && s[i + 4]
            == 'e' {
            proof {
                assert(s@.subrange(i as int, i + 5) =~= seq!['f', 'a', 'l', 's', 'e']);
            }
            Some((CJson::Bool(false), i + 5))
        } else {
            proof {
                if has_lit(s@, i as int, seq!['f', 'a', 'l', 's', 'e']) {
                    assert(s@[i + 1] == s@.subrange(i as int, i + 5)[1]);
                    assert(s@[i + 2] == s@.subrange(i as int, i + 5)[2]);
                    assert(s@[i + 3] == s@.subrange(i as int, i + 5)[3]);
                    assert(s@[i + 4] == s@.subrange(i as int, i + 5)[4]);
                }
            }
            None
        }
    } else if c == '"' {
        match p_str_body(s, i + 1) {
            Some((cs, j)) => Some((CJson::Str(cs), j)),
            None => None,
        }
    } else if c == '[' {
        let j = ws_end(s, i + 1);
        if j < s.len() && s[j] == ']' {
            let items: Vec<CJson> = Vec::new();
            Some((CJson::Arr(items), j + 1))
        } else {
            match p_elems(s, j) {
                Some((vs, k)) => Some((CJson::Arr(vs), k)),
                None => None,
            }
        }
    } else if c == '{' {
        let j = ws_end(s, i + 1);
        if j < s.len() && s[j] == '}' {
            let members: Vec<(Vec<char>, CJson)> = Vec::new();
            Some((CJson::Obj(members), j + 1))
        } else {
            match p_members(s, j) {
                Some((ms, k)) => Some((CJson::Obj(ms), k)),
                None => None,
            }
        }
    } else if c == '-' || ('0' <= c && c <= '9') {
        p_number(s, i)
    } else {
        None
    }
}

/// Array elements from `i`, exactly as [`parse_elems`] says.
fn p_elems(s: &Vec<char>, i: usize) -> (r: Option<(Vec<CJson>, usize)>)
    requires
        i <= s@.len(),
    ensures
        match parse_elems(s@, i as int) {
            Some((vs, j)) => r is Some && crate::cjson::arr_view((r->0).0@) == vs && (r->0).1 as int
                == j && i < (r->0).1 <= s@.len(),
            None => r is None,
        },
    decreases s@.len() - i, 1int,
{
    broadcast use crate::cjson::group_json_view_lemmas;

    let (v, j0) = match p_value(s, i) {
        Some(p) => p,
        None => {
            return None;
        },
    };
    let j = ws_end(s, j0);
    if j < s.len() && s[j] == ',' {
        let k = ws_end(s, j + 1);
        let (rest, m) = match p_elems(s, k) {
            Some(p) => p,
            None => {
                return None;
            },
        };
        let mut out: Vec<CJson> = Vec::new();
        out.push(v);
        let mut rest = rest;
        let ghost rest0 = rest@;
        out.append(&mut rest);
        proof {
            let svs = (parse_elems(s@, i as int)->0).0;
            crate::cjson::lemma_arr_view_len(out@);
            crate::cjson::lemma_arr_view_len(rest0);
            assert forall|q: int| 0 <= q < out@.len() implies crate::cjson::arr_view(out@)[q]
                == svs[q] by {
                crate::cjson::lemma_arr_view_index(out@, q);
                if q > 0 {
                    crate::cjson::lemma_arr_view_index(rest0, q - 1);
                }
            }
            assert(crate::cjson::arr_view(out@) =~= svs);
        }
        Some((out, m))
    } else if j < s.len() && s[j] == ']' {
        let mut out: Vec<CJson> = Vec::new();
        out.push(v);
        proof {
            let svs = (parse_elems(s@, i as int)->0).0;
            crate::cjson::lemma_arr_view_len(out@);
            crate::cjson::lemma_arr_view_index(out@, 0);
            assert(crate::cjson::arr_view(out@) =~= svs);
        }
        Some((out, j + 1))
    } else {
        None
    }
}

/// Object members from `i`, exactly as [`parse_members`] says.
fn p_members(s: &Vec<char>, i: usize) -> (r: Option<(Vec<(Vec<char>, CJson)>, usize)>)
    requires
        i <= s@.len(),
    ensures
        match parse_members(s@, i as int) {
            Some((ms, j)) => r is Some && crate::cjson::obj_view((r->0).0@) == ms && (r->0).1 as int
                == j && i < (r->0).1 <= s@.len(),
            None => r is None,
        },
    decreases s@.len() - i, 1int,
{
    broadcast use crate::cjson::group_json_view_lemmas;

    if i >= s.len() || s[i] != '"' {
        return None;
    }
    let (key, j0) = match p_str_body(s, i + 1) {
        Some(p) => p,
        None => {
            return None;
        },
    };
    let j = ws_end(s, j0);
    if !(j < s.len() && s[j] == ':') {
        return None;
    }
    let k = ws_end(s, j + 1);
    let (v, m0) = match p_value(s, k) {
        Some(p) => p,
        None => {
            return None;
        },
    };
    let m = ws_end(s, m0);
    if m < s.len() && s[m] == ',' {
        let w = ws_end(s, m + 1);
        let (rest, z) = match p_members(s, w) {
            Some(p) => p,
            None => {
                return None;
            },
        };
        let mut out: Vec<(Vec<char>, CJson)> = Vec::new();
        out.push((key, v));
        let mut rest = rest;
        let ghost rest0 = rest@;
        out.append(&mut rest);
        proof {
            let sms = (parse_members(s@, i as int)->0).0;
            crate::cjson::lemma_obj_view_len(out@);
            crate::cjson::lemma_obj_view_len(rest0);
            assert forall|q: int| 0 <= q < out@.len() implies crate::cjson::obj_view(out@)[q]
                == sms[q] by {
                crate::cjson::lemma_obj_view_index(out@, q);
                if q > 0 {
                    crate::cjson::lemma_obj_view_index(rest0, q - 1);
                }
            }
            assert(crate::cjson::obj_view(out@) =~= sms);
        }
        Some((out, z))
    } else if m < s.len() && s[m] == '}' {
        let mut out: Vec<(Vec<char>, CJson)> = Vec::new();
        out.push((key, v));
        proof {
            let sms = (parse_members(s@, i as int)->0).0;
            crate::cjson::lemma_obj_view_len(out@);
            crate::cjson::lemma_obj_view_index(out@, 0);
            assert(crate::cjson::obj_view(out@) =~= sms);
        }
        Some((out, m + 1))
    } else {
        None
    }
}

/// Parse one whole JSON text, exactly as [`spec_parse`] says.
pub fn parse_chars(s: &Vec<char>) -> (r: Option<CJson>)
    ensures
        match spec_parse(s@) {
            Some(v) => r is Some && r->0@ == v,
            None => r is None,
        },
{
    let i = ws_end(s, 0);
    let (v, j0) = match p_value(s, i) {
        Some(p) => p,
        None => {
            return None;
        },
    };
    let j = ws_end(s, j0);
    if j == s.len() {
        Some(v)
    } else {
        None
    }
}

impl CJson {
    /// Parse a JSON text into a tree: the whole input must be one value
    /// surrounded only by whitespace, as [`spec_parse`] says.
    pub fn parse(json: &str) -> (r: CJsonResult<Self>)
        ensures
            match spec_parse(json@) {
                Some(v) => r is Ok && r->Ok_0@ == v,
                None => r == Err::<CJson, CJsonError>(CJsonError::ParseError),
            },
    {
        let chars = crate::cjson::str_to_chars(json);
        match parse_chars(&chars) {
            Some(n) => Ok(n),
            None => Err(CJsonError::ParseError),
        }
    }
}

} // verus!
