//! Rendering a tree to compact JSON text.
//!
//! [`spec_print`] is the mathematical form of the output: no
//! insignificant whitespace, object members and array elements in
//! order, strings quoted with `"` and `\` escaped and the five named
//! control escapes used; any other character is written as itself.
//! The executable printer produces exactly that text.

use vstd::prelude::*;

use crate::cjson::CJson;
use crate::cjson::JsonVal;
use crate::cjson::arr_view;
use crate::cjson::obj_view;
use crate::text::dec_str;

verus! {

/// The escape of one string character.
pub open spec fn esc_char(c: char) -> Seq<char> {
    if c == '"' {
        seq!['\\', '"']
    } else if c == '\\' {
        seq!['\\', '\\']
    } else if c == '\u{8}' {
        seq!['\\', 'b']
    } else if c == '\u{c}' {
        seq!['\\', 'f']
    } else if c == '\n' {
        seq!['\\', 'n']
    } else if c == '\r' {
        seq!['\\', 'r']
    } else if c == '\t' {
        seq!['\\', 't']
    } else {
        seq![c]
    }
}

/// The escaped body of a string.
pub open spec fn esc_str(s: Seq<char>) -> Seq<char>
    decreases s.len(),
{
    if s.len() == 0 {
        Seq::empty()
    } else {
        esc_str(s.drop_last()) + esc_char(s.last())
    }
}

/// A quoted, escaped string.
pub open spec fn quoted(s: Seq<char>) -> Seq<char> {
    seq!['"'] + esc_str(s) + seq!['"']
}

/// The compact text of a value.
pub open spec fn spec_print(v: JsonVal) -> Seq<char>
    decreases v, 1int,
{
    match v {
        JsonVal::Null => seq!['n', 'u', 'l', 'l'],
        JsonVal::Bool(b) => if b {
            seq!['t', 'r', 'u', 'e']
        } else {
            seq!['f', 'a', 'l', 's', 'e']
        },
        JsonVal::Num(n) => dec_str(n),
        JsonVal::Str(s) => quoted(s),
        JsonVal::Arr(items) => seq!['['] + print_items(items) + seq![']'],
        JsonVal::Obj(ms) => seq!['{'] + print_members(ms) + seq!['}'],
    }
}

/// The comma-separated texts of array elements.
pub open spec fn print_items(items: Seq<JsonVal>) -> Seq<char>
    decreases items, 0int,
{
    if items.len() == 0 {
        Seq::empty()
    } else if items.len() == 1 {
        proof {
            assert(decreases_to!(items => items[0]));
        }
        spec_print(items[0])
    } else {
        proof {
            assert(decreases_to!(items => items[items.len() - 1]));
            vstd::seq::axiom_seq_subrange_decreases(items, 0, items.len() - 1);
        }
        print_items(items.drop_last()) + seq![','] + spec_print(items.last())
    }
}

/// The comma-separated texts of object members, each a quoted key, a
/// colon, and the value.
pub open spec fn print_members(ms: Seq<(Seq<char>, JsonVal)>) -> Seq<char>
    decreases ms, 0int,
{
    if ms.len() == 0 {
        Seq::empty()
    } else if ms.len() == 1 {
        proof {
            assert(decreases_to!(ms => ms[0]));
            assert(decreases_to!(ms[0] => ms[0].1));
        }
        quoted(ms[0].0) + seq![':'] + spec_print(ms[0].1)
    } else {
        proof {
            assert(decreases_to!(ms => ms[ms.len() - 1]));
            assert(decreases_to!(ms[ms.len() - 1] => ms[ms.len() - 1].1));
            vstd::seq::axiom_seq_subrange_decreases(ms, 0, ms.len() - 1);
        }
        print_members(ms.drop_last()) + seq![','] + quoted(ms.last().0) + seq![':'] + spec_print(
            ms.last().1,
        )
    }
}

proof fn lemma_print_items_step(items: Seq<JsonVal>, k: int)
    requires
        1 <= k < items.len(),
    ensures
        print_items(items.take(k + 1)) == print_items(items.take(k)) + seq![','] + spec_print(
            items[k],
        ),
{
    assert(items.take(k + 1).drop_last() =~= items.take(k));
    assert(items.take(k + 1).last() == items[k]);
}

proof fn lemma_print_members_step(ms: Seq<(Seq<char>, JsonVal)>, k: int)
    requires
        1 <= k < ms.len(),
    ensures
        print_members(ms.take(k + 1)) == print_members(ms.take(k)) + seq![','] + quoted(ms[k].0)
            + seq![':'] + spec_print(ms[k].1),
{
    assert(ms.take(k + 1).drop_last() =~= ms.take(k));
    assert(ms.take(k + 1).last() == ms[k]);
}

fn push_escaped(out: &mut Vec<char>, c: char)
    ensures
        final(out)@ == old(out)@ + esc_char(c),
{
    if c == '"' {
        out.push('\\');
        out.push('"');
    } else if c == '\\' {
        out.push('\\');
        out.push('\\');
    } else if c == '\u{8}' {
        out.push('\\');
        out.push('b');
    } else if c == '\u{c}' {
        out.push('\\');
        out.push('f');
    } else if c == '\n' {
        out.push('\\');
        out.push('n');
    } else if c == '\r' {
        out.push('\\');
        out.push('r');
    } else if c == '\t' {
        out.push('\\');
        out.push('t');
    } else {
        out.push(c);
    }
    proof {
        assert(final(out)@ =~= old(out)@ + esc_char(c));
    }
}

fn push_quoted(out: &mut Vec<char>, s: &Vec<char>)
    ensures
        final(out)@ == old(out)@ + quoted(s@),
{
    out.push('"');
    let ghost base = out@;
    let mut k: usize = 0;
    while k < s.len()
        invariant
            k <= s@.len(),
            out@ == base + esc_str(s@.take(k as int)),
        decreases s@.len() - k,
    {
        push_escaped(out, s[k]);
        proof {
            assert(s@.take(k + 1).drop_last() =~= s@.take(k as int));
            assert(s@.take(k + 1).last() == s@[k as int]);
        }
        k += 1;
    }
    out.push('"');
    proof {
        assert(s@.take(s@.len() as int) =~= s@);
        assert(final(out)@ =~= old(out)@ + quoted(s@));
    }
}

/// Append the compact text of a node.
fn print_node(n: &CJson, out: &mut Vec<char>)
    ensures
        final(out)@ == old(out)@ + spec_print(n@),
    decreases n,
{
    broadcast use crate::cjson::group_json_view_lemmas;

    match n {
        CJson::Null => {
            out.push('n');
            out.push('u');
            out.push('l');
            out.push('l');
            proof {
                assert(final(out)@ =~= old(out)@ + spec_print(n@));
            }
        },
        CJson::Bool(b) => {
            if *b {
                out.push('t');
                out.push('r');
                out.push('u');
                out.push('e');
            } else {
                out.push('f');
                out.push('a');
                out.push('l');
                out.push('s');
                out.push('e');
            }
            proof {
                assert(final(out)@ =~= old(out)@ + spec_print(n@));
            }
        },
        CJson::Num(x) => {
            let mut digits = crate::text::i64_to_dec_chars(*x);
            out.append(&mut digits);
        },
        CJson::Str(s) => {
            push_quoted(out, s);
        },
        CJson::Arr(items) => {
            out.push('[');
            let ghost base = out@;
            let ghost elems = arr_view(items@);
            let mut k: usize = 0;
            while k < items.len()
                invariant
                    *n == CJson::Arr(*items),
                    elems == arr_view(items@),
                    elems.len() == items@.len(),
                    k <= items@.len(),
                    out@ == base + print_items(elems.take(k as int)),
                decreases items@.len() - k, 1int,
            {
                proof {
                    assert(decreases_to!(*n => n->Arr_0));
                    assert(decreases_to!(*items => items@));
                    assert(decreases_to!(items@ => items@[k as int]));
                }
                if k > 0 {
                    out.push(',');
                }
                let ghost before = out@;
                print_node(&items[k], out);
                proof {
                    crate::cjson::lemma_arr_view_index(items@, k as int);
                    if k == 0 {
                        assert(elems.take(1).len() == 1);
                        assert(elems.take(1)[0] == elems[0]);
                        assert(out@ =~= base + print_items(elems.take(k + 1)));
                    } else {
                        lemma_print_items_step(elems, k as int);
                        assert(out@ =~= base + print_items(elems.take(k + 1)));
                    }
                }
                k += 1;
            }
            out.push(']');
            proof {
                assert(elems.take(elems.len() as int) =~= elems);
                assert(final(out)@ =~= old(out)@ + spec_print(n@));
            }
        },
        CJson::Obj(members) => {
            out.push('{');
            let ghost base = out@;
            let ghost ms = obj_view(members@);
            let mut k: usize = 0;
            while k < members.len()
                invariant
                    *n == CJson::Obj(*members),
                    ms == obj_view(members@),
                    ms.len() == members@.len(),
                    k <= members@.len(),
                    out@ == base + print_members(ms.take(k as int)),
                decreases members@.len() - k, 1int,
            {
                proof {
                    assert(decreases_to!(*n => n->Obj_0));
                    assert(decreases_to!(*members => members@));
                    assert(decreases_to!(members@ => members@[k as int]));
                    assert(decreases_to!(members@[k as int] => members@[k as int].1));
                    crate::cjson::lemma_obj_view_index(members@, k as int);
                }
                if k > 0 {
                    out.push(',');
                }
                push_quoted(out, &members[k].0);
                out.push(':');
                print_node(&members[k].1, out);
                proof {
                    if k == 0 {
                        assert(ms.take(1).len() == 1);
                        assert(ms.take(1)[0] == ms[0]);
                        assert(out@ =~= base + print_members(ms.take(k + 1)));
                    } else {
                        lemma_print_members_step(ms, k as int);
                        assert(out@ =~= base + print_members(ms.take(k + 1)));
                    }
                }
                k += 1;
            }
            out.push('}');
            proof {
                assert(ms.take(ms.len() as int) =~= ms);
                assert(final(out)@ =~= old(out)@ + spec_print(n@));
            }
        },
    }
}

/// The compact text of a node.
pub fn print_chars(n: &CJson) -> (r: Vec<char>)
    ensures
        r@ == spec_print(n@),
{
    let mut out: Vec<char> = Vec::new();
    print_node(n, &mut out);
    out
}

impl CJson {
    /// Render this node to compact JSON text.
    pub fn print_unformatted(&self) -> (r: crate::cjson::CJsonResult<String>)
        ensures
            r is Ok && r->Ok_0@ == spec_print(self@),
    {
        let chars = print_chars(self);
        Ok(crate::cjson::chars_to_string(&chars))
    }

    /// Render this node to formatted JSON text: each object member on
    /// its own line, indented one tab per nesting depth.
    pub fn print(&self) -> (r: crate::cjson::CJsonResult<String>)
        ensures
            r is Ok && r->Ok_0@ == spec_print_fmt(self@, 0),
    {
        let chars = print_fmt_chars(self);
        Ok(crate::cjson::chars_to_string(&chars))
    }
}

/// One tab per nesting depth.
pub open spec fn indent(depth: nat) -> Seq<char>
    decreases depth,
{
    if depth == 0 {
        Seq::empty()
    } else {
        indent((depth - 1) as nat).push('\t')
    }
}

/// The formatted text of a value at a nesting depth: scalars and
/// strings as in the compact form, array elements separated by a comma
/// and a space, each object member on its own line one tab deeper.
pub open spec fn spec_print_fmt(v: JsonVal, depth: nat) -> Seq<char>
    decreases v, 1int,
{
    match v {
        JsonVal::Arr(items) => seq!['['] + fmt_items(items, depth) + seq![']'],
        JsonVal::Obj(ms) => {
            if ms.len() == 0 {
                seq!['{', '}']
            } else {
                seq!['{', '\n'] + fmt_members(ms, (depth + 1) as nat) + seq!['\n'] + indent(depth)
                    + seq!['}']
            }
        },
        _ => spec_print(v),
    }
}

/// The formatted texts of array elements, separated by a comma and a
/// space.
pub open spec fn fmt_items(items: Seq<JsonVal>, depth: nat) -> Seq<char>
    decreases items, 0int,
{
    if items.len() == 0 {
        Seq::empty()
    } else if items.len() == 1 {
        proof {
            assert(decreases_to!(items => items[0]));
        }
        spec_print_fmt(items[0], depth)
    } else {
        proof {
            assert(decreases_to!(items => items[items.len() - 1]));
            vstd::seq::axiom_seq_subrange_decreases(items, 0, items.len() - 1);
        }
        fmt_items(items.drop_last(), depth) + seq![',', ' '] + spec_print_fmt(items.last(), depth)
    }
}

/// The formatted texts of object members, one per line, each indented
/// to its depth.
pub open spec fn fmt_members(ms: Seq<(Seq<char>, JsonVal)>, depth: nat) -> Seq<char>
    decreases ms, 0int,
{
    if ms.len() == 0 {
        Seq::empty()
    } else if ms.len() == 1 {
        proof {
            assert(decreases_to!(ms => ms[0]));
            assert(decreases_to!(ms[0] => ms[0].1));
        }
        indent(depth) + quoted(ms[0].0) + seq![':', ' '] + spec_print_fmt(ms[0].1, depth)
    } else {
        proof {
            assert(decreases_to!(ms => ms[ms.len() - 1]));
            assert(decreases_to!(ms[ms.len() - 1] => ms[ms.len() - 1].1));
            vstd::seq::axiom_seq_subrange_decreases(ms, 0, ms.len() - 1);
        }
        fmt_members(ms.drop_last(), depth) + seq![',', '\n'] + indent(depth) + quoted(ms.last().0)
            + seq![':', ' '] + spec_print_fmt(ms.last().1, depth)
    }
}

proof fn lemma_fmt_items_step(items: Seq<JsonVal>, depth: nat, k: int)
    requires
        1 <= k < items.len(),
    ensures
        fmt_items(items.take(k + 1), depth) == fmt_items(items.take(k), depth) + seq![',', ' ']
            + spec_print_fmt(items[k], depth),
{
    assert(items.take(k + 1).drop_last() =~= items.take(k));
    assert(items.take(k + 1).last() == items[k]);
}

proof fn lemma_fmt_members_step(ms: Seq<(Seq<char>, JsonVal)>, depth: nat, k: int)
    requires
        1 <= k < ms.len(),
    ensures
        fmt_members(ms.take(k + 1), depth) == fmt_members(ms.take(k), depth) + seq![',', '\n']
            + indent(depth) + quoted(ms[k].0) + seq![':', ' '] + spec_print_fmt(ms[k].1, depth),
{
    assert(ms.take(k + 1).drop_last() =~= ms.take(k));
    assert(ms.take(k + 1).last() == ms[k]);
}

/// Append the formatted text of a node.  The current indentation run
/// is carried as characters, one tab per depth.
fn print_fmt_node(n: &CJson, ind: &Vec<char>, depth: Ghost<nat>, out: &mut Vec<char>)
    requires
        ind@ == indent(depth@),
    ensures
        final(out)@ == old(out)@ + spec_print_fmt(n@, depth@),
    decreases n,
{
    broadcast use crate::cjson::group_json_view_lemmas;

    match n {
        CJson::Arr(items) => {
            out.push('[');
            let ghost base = out@;
            let ghost elems = arr_view(items@);
            let mut k: usize = 0;
            while k < items.len()
                invariant
                    *n == CJson::Arr(*items),
                    ind@ == indent(depth@),
                    elems == arr_view(items@),
                    elems.len() == items@.len(),
                    k <= items@.len(),
                    out@ == base + fmt_items(elems.take(k as int), depth@),
                decreases items@.len() - k, 1int,
            {
                proof {
                    assert(decreases_to!(*n => n->Arr_0));
                    assert(decreases_to!(*items => items@));
                    assert(decreases_to!(items@ => items@[k as int]));
                }
                if k > 0 {
                    out.push(',');
                    out.push(' ');
                }
                print_fmt_node(&items[k], ind, depth, out);
                proof {
                    crate::cjson::lemma_arr_view_index(items@, k as int);
                    if k == 0 {
                        assert(elems.take(1).len() == 1);
                        assert(elems.take(1)[0] == elems[0]);
                        assert(out@ =~= base + fmt_items(elems.take(k + 1), depth@));
                    } else {
                        lemma_fmt_items_step(elems, depth@, k as int);
                        assert(out@ =~= base + fmt_items(elems.take(k + 1), depth@));
                    }
                }
                k += 1;
            }
            out.push(']');
            proof {
                assert(elems.take(elems.len() as int) =~= elems);
                assert(final(out)@ =~= old(out)@ + spec_print_fmt(n@, depth@));
            }
        },
        CJson::Obj(members) => {
            out.push('{');
            if members.len() == 0 {
                out.push('}');
                proof {
                    assert(final(out)@ =~= old(out)@ + spec_print_fmt(n@, depth@));
                }
                return ;
            }
            out.push('\n');
            let ghost base = out@;
            let ghost ms = obj_view(members@);
            let mut inner_ind = ind.clone();
            inner_ind.push('\t');
            let ghost inner: nat = depth@ + 1;
            proof {
                assert(inner_ind@ == indent(inner));
            }
            let mut k: usize = 0;
            while k < members.len()
                invariant
                    *n == CJson::Obj(*members),
                    ind@ == indent(depth@),
                    inner == depth@ + 1,
                    inner_ind@ == indent(inner),
                    ms == obj_view(members@),
                    ms.len() == members@.len(),
                    k <= members@.len(),
                    out@ == base + fmt_members(ms.take(k as int), inner),
                decreases members@.len() - k, 1int,
            {
                proof {
                    assert(decreases_to!(*n => n->Obj_0));
                    assert(decreases_to!(*members => members@));
                    assert(decreases_to!(members@ => members@[k as int]));
                    assert(decreases_to!(members@[k as int] => members@[k as int].1));
                    crate::cjson::lemma_obj_view_index(members@, k as int);
                }
                if k > 0 {
                    out.push(',');
                    out.push('\n');
                }
                let mut tabs = inner_ind.clone();
                out.append(&mut tabs);
                push_quoted(out, &members[k].0);
                out.push(':');
                out.push(' ');
                print_fmt_node(&members[k].1, &inner_ind, Ghost(inner), out);
                proof {
                    if k == 0 {
                        assert(ms.take(1).len() == 1);
                        assert(ms.take(1)[0] == ms[0]);
                        assert(out@ =~= base + fmt_members(ms.take(k + 1), inner));
                    } else {
                        lemma_fmt_members_step(ms, inner, k as int);
                        assert(out@ =~= base + fmt_members(ms.take(k + 1), inner));
                    }
                }
                k += 1;
            }
            out.push('\n');
            let mut tabs = ind.clone();
            out.append(&mut tabs);
            out.push('}');
            proof {
                assert(ms.take(ms.len() as int) =~= ms);
                assert(final(out)@ =~= old(out)@ + spec_print_fmt(n@, depth@));
            }
        },
        _ => {
            print_node(n, out);
        },
    }
}

/// The formatted text of a node.
pub fn print_fmt_chars(n: &CJson) -> (r: Vec<char>)
    ensures
        r@ == spec_print_fmt(n@, 0),
{
    let mut out: Vec<char> = Vec::new();
    let ind: Vec<char> = Vec::new();
    proof {
        assert(ind@ =~= indent(0));
    }
    print_fmt_node(n, &ind, Ghost(0nat), &mut out);
    out
}

} // verus!
