//! The law of the text round trip: printing a tree and parsing the
//! text yields the tree again.
//!
//! [`lemma_text_roundtrip`] states it for every tree whose numbers fit
//! the tree's 64-bit signed range — which every tree built by this
//! crate satisfies.

use vstd::prelude::*;

use crate::cjson::JsonVal;
use crate::parse::at_least;
use crate::parse::digits_end;
use crate::parse::digits_val;
use crate::parse::is_digit;
use crate::parse::is_ws;
use crate::parse::parse_elems;
use crate::parse::parse_members;
use crate::parse::parse_number;
use crate::parse::parse_str_body;
use crate::parse::parse_value;
use crate::parse::skip_ws;
use crate::parse::spec_parse;
use crate::parse::unescape;
use crate::print::esc_char;
use crate::print::esc_str;
use crate::print::print_items;
use crate::print::print_members;
use crate::print::quoted;
use crate::print::spec_print;
use crate::text::dec_digits;
use crate::text::dec_str;
use crate::text::digit_char;

verus! {

/// Validity of a tree value: every number within 64 signed bits.  Every
/// tree this crate builds satisfies it.
pub open spec fn wf_json(v: JsonVal) -> bool
    decreases v, 1int,
{
    match v {
        JsonVal::Num(n) => i64::MIN <= n <= i64::MAX,
        JsonVal::Arr(items) => {
            proof {
                assert(decreases_to!(v => items));
            }
            wf_arr(items)
        },
        JsonVal::Obj(ms) => {
            proof {
                assert(decreases_to!(v => ms));
            }
            wf_obj(ms)
        },
        _ => true,
    }
}

/// Validity of every element.
pub open spec fn wf_arr(items: Seq<JsonVal>) -> bool
    decreases items, 0int,
{
    if items.len() == 0 {
        true
    } else {
        proof {
            assert(decreases_to!(items => items[items.len() - 1]));
            vstd::seq::axiom_seq_subrange_decreases(items, 0, items.len() - 1);
        }
        wf_arr(items.drop_last()) && wf_json(items.last())
    }
}

/// Validity of every member value.
pub open spec fn wf_obj(ms: Seq<(Seq<char>, JsonVal)>) -> bool
    decreases ms, 0int,
{
    if ms.len() == 0 {
        true
    } else {
        proof {
            assert(decreases_to!(ms => ms[ms.len() - 1]));
            assert(decreases_to!(ms[ms.len() - 1] => ms[ms.len() - 1].1));
            vstd::seq::axiom_seq_subrange_decreases(ms, 0, ms.len() - 1);
        }
        wf_obj(ms.drop_last()) && wf_json(ms.last().1)
    }
}

pub proof fn lemma_wf_arr_index(items: Seq<JsonVal>, i: int)
    requires
        wf_arr(items),
        0 <= i < items.len(),
    ensures
        wf_json(items[i]),
    decreases items.len(),
{
    if i < items.len() - 1 {
        lemma_wf_arr_index(items.drop_last(), i);
        assert(items.drop_last()[i] == items[i]);
    }
}

pub proof fn lemma_wf_obj_index(ms: Seq<(Seq<char>, JsonVal)>, i: int)
    requires
        wf_obj(ms),
        0 <= i < ms.len(),
    ensures
        wf_json(ms[i].1),
    decreases ms.len(),
{
    if i < ms.len() - 1 {
        lemma_wf_obj_index(ms.drop_last(), i);
        assert(ms.drop_last()[i] == ms[i]);
    }
}

proof fn lemma_dec_digits_digits(n: nat)
    ensures
        dec_digits(n).len() >= 1,
        forall|i: int| 0 <= i < dec_digits(n).len() ==> is_digit(#[trigger] dec_digits(n)[i]),
    decreases n,
{
    if n >= 10 {
        lemma_dec_digits_digits(n / 10);
        assert forall|i: int| 0 <= i < dec_digits(n).len() implies is_digit(
            #[trigger] dec_digits(n)[i],
        ) by {
            if i < dec_digits(n).len() - 1 {
                assert(dec_digits(n)[i] == dec_digits(n / 10)[i]);
            }
        }
    }
}

/// A character that can start a printed value.
pub open spec fn is_value_start(c: char) -> bool {
    c == 'n' || c == 't' || c == 'f' || c == '"' || c == '[' || c == '{' || c == '-' || is_digit(c)
}

proof fn lemma_print_starts(v: JsonVal)
    ensures
        spec_print(v).len() >= 1,
        is_value_start(spec_print(v)[0]),
{
    match v {
        JsonVal::Num(n) => {
            if n < 0 {
                lemma_dec_digits_digits((-n) as nat);
            } else {
                lemma_dec_digits_digits(n as nat);
            }
        },
        _ => {},
    }
}

/// Splitting a known concatenation at a position.
proof fn lemma_split(s: Seq<char>, i: int, a: Seq<char>, b: Seq<char>)
    requires
        0 <= i,
        i + a.len() + b.len() <= s.len(),
        s.subrange(i, i + a.len() + b.len()) == a + b,
    ensures
        s.subrange(i, i + a.len()) == a,
        s.subrange(i + a.len(), i + a.len() + b.len()) == b,
        forall|q: int| 0 <= q < a.len() ==> s[i + q] == a[q],
        forall|q: int| 0 <= q < b.len() ==> s[i + a.len() + q] == b[q],
        a.len() > 0 ==> s[i] == a[0],
        b.len() > 0 ==> s[i + a.len()] == b[0],
{
    let whole = s.subrange(i, i + a.len() + b.len());
    assert forall|q: int| 0 <= q < a.len() implies s[i + q] == a[q] by {
        assert(whole[q] == (a + b)[q]);
    }
    assert forall|q: int| 0 <= q < b.len() implies s[i + a.len() + q] == b[q] by {
        assert(whole[a.len() + q] == (a + b)[a.len() + q]);
    }
    assert(s.subrange(i, i + a.len()) =~= a);
    assert(s.subrange(i + a.len(), i + a.len() + b.len()) =~= b);
    if a.len() > 0 {
        assert(whole[0] == (a + b)[0]);
    }
    if b.len() > 0 {
        assert(whole[a.len() as int] == (a + b)[a.len() as int]);
    }
}

proof fn lemma_esc_str_front(b: Seq<char>)
    requires
        b.len() > 0,
    ensures
        esc_str(b) == esc_char(b[0]) + esc_str(b.drop_first()),
    decreases b.len(),
{
    if b.len() == 1 {
        assert(b.drop_last() =~= Seq::<char>::empty());
        assert(b.drop_first() =~= Seq::<char>::empty());
        assert(esc_str(b) =~= esc_char(b[0]) + esc_str(b.drop_first()));
    } else {
        lemma_esc_str_front(b.drop_last());
        assert(b.drop_last()[0] == b[0]);
        assert(b.drop_last().drop_first() =~= b.drop_first().drop_last());
        assert(b.drop_first().last() == b.last());
        assert(esc_str(b) =~= esc_char(b[0]) + esc_str(b.drop_first()));
    }
}

proof fn lemma_parse_str_of_esc(s: Seq<char>, i: int, b: Seq<char>)
    requires
        0 <= i,
        i + esc_str(b).len() + 1 <= s.len(),
        s.subrange(i, i + esc_str(b).len() + 1) == esc_str(b) + seq!['"'],
    ensures
        parse_str_body(s, i) == Some((b, i + esc_str(b).len() + 1)),
    decreases b.len(),
{
    let whole = esc_str(b) + seq!['"'];
    if b.len() == 0 {
        assert(s[i] == whole[0]);
    } else {
        let c = b[0];
        let e = esc_char(c);
        lemma_esc_str_front(b);
        let rest = esc_str(b.drop_first()) + seq!['"'];
        assert(whole =~= e + rest);
        lemma_split(s, i, e, rest);
        lemma_parse_str_of_esc(s, i + e.len(), b.drop_first());
        assert(s[i] == e[0]);
        if e.len() == 2 {
            assert(s[i] == '\\');
            assert(s[i + 1] == e[1]);
            assert(unescape(e[1]) == Some(c));
            assert(seq![c] + b.drop_first() =~= b);
        } else {
            assert(s[i] == c);
            assert(c != '"' && c != '\\');
            assert(seq![c] + b.drop_first() =~= b);
        }
    }
}

/// What may follow a printed number: anything but more digits or a
/// fraction or exponent mark.
pub open spec fn num_sep_ok(s: Seq<char>, j: int) -> bool {
    j >= s.len() || !(is_digit(s[j]) || s[j] == '.' || s[j] == 'e' || s[j] == 'E')
}

proof fn lemma_digits_end_at(s: Seq<char>, i: int, j: int)
    requires
        0 <= i <= j <= s.len(),
        forall|k: int| i <= k < j ==> is_digit(#[trigger] s[k]),
        j == s.len() || !is_digit(s[j]),
    ensures
        digits_end(s, i) == j,
    decreases j - i,
{
    if i < j {
        lemma_digits_end_at(s, i + 1, j);
    }
}

proof fn lemma_digits_val_of_dec(s: Seq<char>, i: int, n: nat)
    requires
        0 <= i,
        i + dec_digits(n).len() <= s.len(),
        s.subrange(i, i + dec_digits(n).len()) == dec_digits(n),
    ensures
        digits_val(s, i, i + dec_digits(n).len()) == n,
    decreases n,
{
    let d = dec_digits(n);
    let j = i + d.len();
    assert(s[j - 1] == d[d.len() - 1]);
    if n < 10 {
        assert(d =~= seq![digit_char(n as int)]);
        assert(s[j - 1] == digit_char(n as int));
        assert(digits_val(s, i, j) == digits_val(s, i, j - 1) * 10 + (s[j - 1] as int
            - '0' as int));
    } else {
        assert(d == dec_digits(n / 10).push(digit_char((n % 10) as int)));
        assert(s.subrange(i, j - 1) =~= dec_digits(n / 10)) by {
            assert forall|q: int| 0 <= q < d.len() - 1 implies #[trigger] s.subrange(i, j - 1)[q]
                == dec_digits(n / 10)[q] by {
                assert(s.subrange(i, j)[q] == d[q]);
            }
        }
        lemma_digits_val_of_dec(s, i, n / 10);
        assert(s[j - 1] == digit_char((n % 10) as int));
    }
}

proof fn lemma_parse_number_of_dec(s: Seq<char>, i: int, n: int)
    requires
        i64::MIN <= n <= i64::MAX,
        0 <= i,
        i + dec_str(n).len() <= s.len(),
        s.subrange(i, i + dec_str(n).len()) == dec_str(n),
        num_sep_ok(s, i + dec_str(n).len()),
    ensures
        parse_number(s, i) == Some((JsonVal::Num(n), i + dec_str(n).len())),
{
    let t = dec_str(n);
    let j = i + t.len();
    if n < 0 {
        let m = (-n) as nat;
        lemma_dec_digits_digits(m);
        assert(t == seq!['-'] + dec_digits(m));
        lemma_split(s, i, seq!['-'], dec_digits(m));
        assert(s.subrange(i, i + 1)[0] == '-');
        assert(s[i] == '-');
        assert forall|k: int| i + 1 <= k < j implies is_digit(#[trigger] s[k]) && s[k]
            == dec_digits(m)[k - (i + 1)] by {
            assert(s.subrange(i + 1, j)[k - (i + 1)] == dec_digits(m)[k - (i + 1)]);
        }
        lemma_digits_end_at(s, i + 1, j);
        lemma_digits_val_of_dec(s, i + 1, m);
        assert(at_least(digits_end(s, i + 1), i + 1) == j);
    } else {
        let m = n as nat;
        lemma_dec_digits_digits(m);
        assert(t == dec_digits(m));
        assert forall|k: int| i <= k < j implies #[trigger] s[k] == dec_digits(m)[k - i] by {
            assert(s.subrange(i, j)[k - i] == dec_digits(m)[k - i]);
        }
        assert(forall|k: int| i <= k < j ==> is_digit(#[trigger] s[k]));
        assert(s[i] == dec_digits(m)[0]);
        assert(s[i] != '-');
        lemma_digits_end_at(s, i, j);
        lemma_digits_val_of_dec(s, i, m);
        assert(at_least(digits_end(s, i), i) == j);
    }
}

proof fn lemma_skip_at(s: Seq<char>, j: int)
    requires
        0 <= j < s.len(),
        !is_ws(s[j]),
    ensures
        skip_ws(s, j) == j,
{
}

proof fn lemma_print_items_front(items: Seq<JsonVal>)
    requires
        items.len() > 0,
    ensures
        print_items(items) == spec_print(items[0]) + (if items.len() > 1 {
            seq![','] + print_items(items.drop_first())
        } else {
            Seq::<char>::empty()
        }),
    decreases items.len(),
{
    if items.len() == 1 {
        assert(print_items(items) =~= spec_print(items[0]) + Seq::<char>::empty());
    } else if items.len() == 2 {
        assert(items.drop_last()[0] == items[0]);
        assert(items.drop_first()[0] == items[1]);
        assert(items.drop_first().len() == 1);
        assert(items.last() == items[1]);
        assert(print_items(items.drop_last()) == spec_print(items[0]));
        assert(print_items(items.drop_first()) == spec_print(items[1]));
        assert(print_items(items) == spec_print(items[0]) + seq![','] + spec_print(items[1]));
        assert(print_items(items) =~= spec_print(items[0]) + (seq![','] + print_items(
            items.drop_first(),
        )));
    } else {
        lemma_print_items_front(items.drop_last());
        assert(items.drop_last()[0] == items[0]);
        assert(items.drop_last().drop_first() =~= items.drop_first().drop_last());
        assert(items.drop_first().last() == items.last());
        assert(items.drop_first().len() > 1);
        let a = spec_print(items[0]);
        let m = seq![','];
        let x = print_items(items.drop_first().drop_last());
        let z = spec_print(items.last());
        assert(print_items(items.drop_last()) == a + (m + x));
        assert(print_items(items) == (a + (m + x)) + m + z);
        assert(print_items(items.drop_first()) == x + m + z);
        assert((a + (m + x)) + m + z =~= a + (m + (x + m + z)));
        assert(print_items(items) =~= spec_print(items[0]) + (seq![','] + print_items(
            items.drop_first(),
        )));
    }
}

proof fn lemma_print_members_front(ms: Seq<(Seq<char>, JsonVal)>)
    requires
        ms.len() > 0,
    ensures
        print_members(ms) == quoted(ms[0].0) + seq![':'] + spec_print(ms[0].1) + (if ms.len()
            > 1 {
            seq![','] + print_members(ms.drop_first())
        } else {
            Seq::<char>::empty()
        }),
    decreases ms.len(),
{
    if ms.len() == 1 {
        assert(print_members(ms) =~= quoted(ms[0].0) + seq![':'] + spec_print(ms[0].1)
            + Seq::<char>::empty());
    } else if ms.len() == 2 {
        assert(ms.drop_last()[0] == ms[0]);
        assert(ms.drop_first()[0] == ms[1]);
        assert(ms.drop_first().len() == 1);
        assert(ms.last() == ms[1]);
        assert(print_members(ms.drop_last()) == quoted(ms[0].0) + seq![':'] + spec_print(
            ms[0].1,
        ));
        assert(print_members(ms.drop_first()) == quoted(ms[1].0) + seq![':'] + spec_print(
            ms[1].1,
        ));
        assert(print_members(ms) == quoted(ms[0].0) + seq![':'] + spec_print(ms[0].1) + seq![',']
            + quoted(ms[1].0) + seq![':'] + spec_print(ms[1].1));
        assert(print_members(ms) =~= quoted(ms[0].0) + seq![':'] + spec_print(ms[0].1) + (
        seq![','] + print_members(ms.drop_first())));
    } else {
        lemma_print_members_front(ms.drop_last());
        assert(ms.drop_last()[0] == ms[0]);
        assert(ms.drop_last().drop_first() =~= ms.drop_first().drop_last());
        assert(ms.drop_first().last() == ms.last());
        assert(ms.drop_first().len() > 1);
        let a = quoted(ms[0].0) + seq![':'] + spec_print(ms[0].1);
        let m = seq![','];
        let x = print_members(ms.drop_first().drop_last());
        let z = quoted(ms.last().0) + seq![':'] + spec_print(ms.last().1);
        assert(print_members(ms.drop_last()) == quoted(ms.drop_last()[0].0) + seq![':']
            + spec_print(ms.drop_last()[0].1) + (m + x));
        assert(quoted(ms.drop_last()[0].0) + seq![':'] + spec_print(ms.drop_last()[0].1) == a);
        assert(print_members(ms) == (a + (m + x)) + m + quoted(ms.last().0) + seq![':']
            + spec_print(ms.last().1));
        assert(print_members(ms.drop_first()) == x + m + quoted(ms.drop_first().last().0) + seq![
            ':',
        ] + spec_print(ms.drop_first().last().1));
        assert(print_members(ms.drop_first()) =~= x + (m + z));
        assert((a + (m + x)) + m + quoted(ms.last().0) + seq![':'] + spec_print(ms.last().1) =~= a
            + (m + (x + (m + z))));
        assert(print_members(ms) =~= quoted(ms[0].0) + seq![':'] + spec_print(ms[0].1) + (
        seq![','] + print_members(ms.drop_first())));
    }
}

/// Parsing recovers any printed value: the heart of the text round
/// trip.
pub proof fn lemma_parse_value_print(s: Seq<char>, i: int, v: JsonVal)
    requires
        wf_json(v),
        0 <= i,
        i + spec_print(v).len() <= s.len(),
        s.subrange(i, i + spec_print(v).len()) == spec_print(v),
        num_sep_ok(s, i + spec_print(v).len()),
    ensures
        parse_value(s, i) == Some((v, i + spec_print(v).len())),
    decreases v, 0int,
{
    let t = spec_print(v);
    let lend = i + t.len();
    lemma_print_starts(v);
    assert(s[i] == t[0]) by {
        assert(s.subrange(i, lend)[0] == t[0]);
    }
    match v {
        JsonVal::Null => {
            assert(s.subrange(i, i + 4) == seq!['n', 'u', 'l', 'l']);
        },
        JsonVal::Bool(b) => {
            if b {
                assert(s.subrange(i, i + 4) == seq!['t', 'r', 'u', 'e']);
            } else {
                assert(s.subrange(i, i + 5) == seq!['f', 'a', 'l', 's', 'e']);
            }
        },
        JsonVal::Num(n) => {
            lemma_parse_number_of_dec(s, i, n);
            if n < 0 {
                assert(s[i] == '-');
            } else {
                lemma_dec_digits_digits(n as nat);
                assert(is_digit(s[i]));
            }
        },
        JsonVal::Str(body) => {
            assert(t =~= seq!['"'] + (esc_str(body) + seq!['"']));
            lemma_split(s, i, seq!['"'], esc_str(body) + seq!['"']);
            lemma_parse_str_of_esc(s, i + 1, body);
        },
        JsonVal::Arr(items) => {
            assert(t =~= seq!['['] + (print_items(items) + seq![']']));
            lemma_split(s, i, seq!['['], print_items(items) + seq![']']);
            lemma_split(s, i + 1, print_items(items), seq![']']);
            let li = print_items(items).len();
            assert(s[i + 1 + li] == ']');
            if items.len() == 0 {
                assert(s[i + 1] == ']');
                lemma_skip_at(s, i + 1);
                assert(items =~= Seq::<JsonVal>::empty());
            } else {
                lemma_print_items_front(items);
                lemma_wf_arr_index(items, 0);
                lemma_print_starts(items[0]);
                assert(s[i + 1] == print_items(items)[0]);
                assert(print_items(items)[0] == spec_print(items[0])[0]);
                assert(is_value_start(s[i + 1]));
                assert(!is_ws(s[i + 1]));
                lemma_skip_at(s, i + 1);
                assert(s[i + 1] != ']');
                assert(decreases_to!(v => items));
                lemma_parse_elems_print(s, i + 1, items);
            }
        },
        JsonVal::Obj(ms) => {
            assert(t =~= seq!['{'] + (print_members(ms) + seq!['}']));
            lemma_split(s, i, seq!['{'], print_members(ms) + seq!['}']);
            lemma_split(s, i + 1, print_members(ms), seq!['}']);
            let lm = print_members(ms).len();
            assert(s[i + 1 + lm] == '}');
            if ms.len() == 0 {
                assert(s[i + 1] == '}');
                lemma_skip_at(s, i + 1);
                assert(ms =~= Seq::<(Seq<char>, JsonVal)>::empty());
            } else {
                lemma_print_members_front(ms);
                assert(s[i + 1] == print_members(ms)[0]);
                assert(print_members(ms)[0] == '"');
                lemma_skip_at(s, i + 1);
                assert(s[i + 1] != '}');
                assert(decreases_to!(v => ms));
                lemma_parse_members_print(s, i + 1, ms);
            }
        },
    }
}

/// Parsing recovers printed array elements up to the closing bracket.
proof fn lemma_parse_elems_print(s: Seq<char>, i: int, items: Seq<JsonVal>)
    requires
        items.len() > 0,
        wf_arr(items),
        0 <= i,
        i + print_items(items).len() < s.len(),
        s.subrange(i, i + print_items(items).len()) == print_items(items),
        s[i + print_items(items).len()] == ']',
    ensures
        parse_elems(s, i) == Some((items, i + print_items(items).len() + 1)),
    decreases items, 1int,
{
    let li = print_items(items).len();
    lemma_print_items_front(items);
    let first = spec_print(items[0]);
    let rest = if items.len() > 1 {
        seq![','] + print_items(items.drop_first())
    } else {
        Seq::<char>::empty()
    };
    lemma_split(s, i, first, rest);
    lemma_wf_arr_index(items, 0);
    lemma_print_starts(items[0]);
    assert(decreases_to!(items => items[0]));
    if items.len() > 1 {
        assert(s[i + first.len()] == ',');
    } else {
        assert(i + first.len() == i + li);
    }
    lemma_parse_value_print(s, i, items[0]);
    let j0 = i + first.len();
    lemma_skip_at(s, j0);
    if items.len() == 1 {
        assert(s[j0] == ']');
        assert(parse_elems(s, i) == Some((seq![items[0]], j0 + 1)));
        assert(seq![items[0]] =~= items);
    } else {
        let tail = items.drop_first();
        lemma_split(s, j0, seq![','], print_items(tail));
        assert(s[j0] == ',');
        lemma_wf_arr_index(items, 1);
        assert(tail[0] == items[1]);
        lemma_print_items_front(tail);
        lemma_print_starts(tail[0]);
        assert(s[j0 + 1] == print_items(tail)[0]);
        assert(print_items(tail)[0] == spec_print(tail[0])[0]);
        assert(!is_ws(s[j0 + 1]));
        lemma_skip_at(s, j0 + 1);
        assert forall|q: int| 0 <= q < tail.len() implies wf_json(#[trigger] tail[q]) by {
            lemma_wf_arr_index(items, q + 1);
        }
        assert(wf_arr(tail)) by {
            lemma_wf_arr_all(tail);
        }
        assert(s[j0 + 1 + print_items(tail).len()] == ']');
        vstd::seq::axiom_seq_subrange_decreases(items, 1, items.len() as int);
        lemma_parse_elems_print(s, j0 + 1, tail);
        assert(seq![items[0]] + tail =~= items);
    }
}

/// Parsing recovers printed object members up to the closing brace.
proof fn lemma_parse_members_print(s: Seq<char>, i: int, ms: Seq<(Seq<char>, JsonVal)>)
    requires
        ms.len() > 0,
        wf_obj(ms),
        0 <= i,
        i + print_members(ms).len() < s.len(),
        s.subrange(i, i + print_members(ms).len()) == print_members(ms),
        s[i + print_members(ms).len()] == '}',
    ensures
        parse_members(s, i) == Some((ms, i + print_members(ms).len() + 1)),
    decreases ms, 1int,
{
    let lm = print_members(ms).len();
    lemma_print_members_front(ms);
    let key = ms[0].0;
    let v0 = ms[0].1;
    let head = quoted(key) + seq![':'] + spec_print(v0);
    let rest = if ms.len() > 1 {
        seq![','] + print_members(ms.drop_first())
    } else {
        Seq::<char>::empty()
    };
    assert(print_members(ms) =~= head + rest);
    lemma_split(s, i, head, rest);
    assert(head =~= quoted(key) + (seq![':'] + spec_print(v0)));
    lemma_split(s, i, quoted(key), seq![':'] + spec_print(v0));
    let qk = quoted(key).len();
    lemma_split(s, i + qk, seq![':'], spec_print(v0));
    assert(quoted(key) =~= seq!['"'] + (esc_str(key) + seq!['"']));
    lemma_split(s, i, seq!['"'], esc_str(key) + seq!['"']);
    assert(s[i] == '"');
    lemma_parse_str_of_esc(s, i + 1, key);
    assert(s[i + qk] == ':');
    lemma_skip_at(s, i + qk);
    let k = i + qk + 1;
    assert(decreases_to!(ms => ms[0]));
    assert(decreases_to!(ms[0] => ms[0].1));
    lemma_wf_obj_index(ms, 0);
    lemma_print_starts(v0);
    assert(s[k] == spec_print(v0)[0]);
    assert(!is_ws(s[k]));
    lemma_skip_at(s, k);
    let m0 = k + spec_print(v0).len();
    if ms.len() > 1 {
        assert(s[m0] == ',');
    } else {
        assert(m0 == i + lm);
    }
    lemma_parse_value_print(s, k, v0);
    lemma_skip_at(s, m0);
    if ms.len() == 1 {
        assert(s[m0] == '}');
        assert(parse_members(s, i) == Some((seq![(key, v0)], m0 + 1)));
        assert(seq![(key, v0)] =~= ms);
    } else {
        let tail = ms.drop_first();
        lemma_split(s, m0, seq![','], print_members(tail));
        assert(s[m0] == ',');
        lemma_print_members_front(tail);
        assert(s[m0 + 1] == print_members(tail)[0]);
        assert(print_members(tail)[0] == '"');
        lemma_skip_at(s, m0 + 1);
        assert forall|q: int| 0 <= q < tail.len() implies wf_json((#[trigger] tail[q]).1) by {
            lemma_wf_obj_index(ms, q + 1);
        }
        assert(wf_obj(tail)) by {
            lemma_wf_obj_all(tail);
        }
        assert(s[m0 + 1 + print_members(tail).len()] == '}');
        vstd::seq::axiom_seq_subrange_decreases(ms, 1, ms.len() as int);
        lemma_parse_members_print(s, m0 + 1, tail);
        assert(seq![(key, v0)] + tail =~= ms);
    }
}

pub proof fn lemma_wf_arr_all(items: Seq<JsonVal>)
    requires
        forall|q: int| 0 <= q < items.len() ==> wf_json(#[trigger] items[q]),
    ensures
        wf_arr(items),
    decreases items.len(),
{
    if items.len() > 0 {
        assert(forall|q: int|
            0 <= q < items.drop_last().len() ==> #[trigger] items.drop_last()[q] == items[q]);
        lemma_wf_arr_all(items.drop_last());
    }
}

pub proof fn lemma_wf_obj_all(ms: Seq<(Seq<char>, JsonVal)>)
    requires
        forall|q: int| 0 <= q < ms.len() ==> wf_json((#[trigger] ms[q]).1),
    ensures
        wf_obj(ms),
    decreases ms.len(),
{
    if ms.len() > 0 {
        assert(forall|q: int|
            0 <= q < ms.drop_last().len() ==> #[trigger] ms.drop_last()[q] == ms[q]);
        lemma_wf_obj_all(ms.drop_last());
    }
}

/// The text round trip: printing any valid tree and parsing the text
/// yields the tree again.
pub proof fn lemma_text_roundtrip(v: JsonVal)
    requires
        wf_json(v),
    ensures
        spec_parse(spec_print(v)) == Some(v),
{
    let s = spec_print(v);
    lemma_print_starts(v);
    assert(!is_ws(s[0]));
    lemma_skip_at(s, 0);
    assert(s.subrange(0, s.len() as int) =~= s);
    lemma_parse_value_print(s, 0, v);
    let lend = s.len() as int;
    assert(at_least(skip_ws(s, 0), 0) == 0);
    assert(skip_ws(s, lend) == lend);
}

} // verus!
