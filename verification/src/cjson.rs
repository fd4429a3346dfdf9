//! The JSON tree: an owned, mutable tree of typed nodes.
//!
//! A [`CJson`] value owns its entire subtree.  Object members keep their
//! insertion order; member lookup scans from the front, either
//! case-insensitively (ASCII, the default, as [`CJson::get_object_item`])
//! or exactly ([`CJson::get_object_item_case_sensitive`]).  Numbers are
//! 64-bit signed integers; text is kept as a sequence of characters.
//!
//! The mathematical model of a tree is [`JsonVal`]; every operation's
//! contract is stated over that model through the [`View`] of [`CJson`].

use vstd::prelude::*;

verus! {

/// Result type for JSON tree and bridge operations.
pub type CJsonResult<T> = Result<T, CJsonError>;

/// Error conditions reported by the tree and the serialization bridge.
#[derive(Debug, Clone, Copy, PartialEq, Eq, Structural)]
pub enum CJsonError {
    /// The input text is not a well-formed JSON document.
    ParseError,
    /// An expected node handle was absent.
    NullPointer,
    /// A text value could not be represented.
    InvalidUtf8,
    /// A named member or an indexed element does not exist.
    NotFound,
    /// A node's kind does not match the requested kind, or a numeric
    /// value lies outside the destination's range.
    TypeError,
    /// A node or a printed buffer could not be allocated.
    AllocationError,
    /// A protocol precondition was violated (stack underflow, length
    /// mismatch of a fixed-size array, duplicate root context).
    InvalidOperation,
}

/// The mathematical model of a JSON tree node.
pub enum JsonVal {
    Null,
    Bool(bool),
    Num(int),
    Str(Seq<char>),
    Arr(Seq<JsonVal>),
    Obj(Seq<(Seq<char>, JsonVal)>),
}

/// One JSON document node, owning its whole subtree.
pub enum CJson {
    Null,
    Bool(bool),
    Num(i64),
    Str(Vec<char>),
    Arr(Vec<CJson>),
    Obj(Vec<(Vec<char>, CJson)>),
}

/// The model of a node: the node with every container replaced by the
/// sequence of the models of its children.
pub open spec fn node_view(n: CJson) -> JsonVal
    decreases n,
{
    match n {
        CJson::Null => JsonVal::Null,
        CJson::Bool(b) => JsonVal::Bool(b),
        CJson::Num(x) => JsonVal::Num(x as int),
        CJson::Str(s) => JsonVal::Str(s@),
        CJson::Arr(items) => {
            proof {
                assert(decreases_to!(n => items));
                assert(decreases_to!(items => items@));
            }
            JsonVal::Arr(arr_view(items@))
        },
        CJson::Obj(members) => {
            proof {
                assert(decreases_to!(n => members));
                assert(decreases_to!(members => members@));
            }
            JsonVal::Obj(obj_view(members@))
        },
    }
}

/// The models of a sequence of nodes, in order.
pub open spec fn arr_view(s: Seq<CJson>) -> Seq<JsonVal>
    decreases s,
{
    if s.len() == 0 {
        Seq::empty()
    } else {
        proof {
            assert(decreases_to!(s => s[s.len() - 1]));
            vstd::seq::axiom_seq_subrange_decreases(s, 0, s.len() - 1);
        }
        arr_view(s.drop_last()).push(node_view(s.last()))
    }
}

/// The models of a sequence of object members, in order.
pub open spec fn obj_view(s: Seq<(Vec<char>, CJson)>) -> Seq<(Seq<char>, JsonVal)>
    decreases s,
{
    if s.len() == 0 {
        Seq::empty()
    } else {
        proof {
            assert(decreases_to!(s => s[s.len() - 1]));
            assert(decreases_to!(s[s.len() - 1] => s[s.len() - 1].1));
            vstd::seq::axiom_seq_subrange_decreases(s, 0, s.len() - 1);
        }
        obj_view(s.drop_last()).push((s.last().0@, node_view(s.last().1)))
    }
}

pub broadcast proof fn lemma_arr_view_len(s: Seq<CJson>)
    ensures
        #[trigger] arr_view(s).len() == s.len(),
    decreases s.len(),
{
    if s.len() > 0 {
        lemma_arr_view_len(s.drop_last());
    }
}

pub broadcast proof fn lemma_arr_view_index(s: Seq<CJson>, i: int)
    requires
        0 <= i < s.len(),
    ensures
        #[trigger] arr_view(s)[i] == node_view(s[i]),
    decreases s.len(),
{
    lemma_arr_view_len(s.drop_last());
    if i < s.len() - 1 {
        lemma_arr_view_index(s.drop_last(), i);
        assert(s.drop_last()[i] == s[i]);
    }
}

pub broadcast proof fn lemma_obj_view_len(s: Seq<(Vec<char>, CJson)>)
    ensures
        #[trigger] obj_view(s).len() == s.len(),
    decreases s.len(),
{
    if s.len() > 0 {
        lemma_obj_view_len(s.drop_last());
    }
}

pub broadcast proof fn lemma_obj_view_index(s: Seq<(Vec<char>, CJson)>, i: int)
    requires
        0 <= i < s.len(),
    ensures
        #[trigger] obj_view(s)[i] == (s[i].0@, node_view(s[i].1)),
    decreases s.len(),
{
    lemma_obj_view_len(s.drop_last());
    if i < s.len() - 1 {
        lemma_obj_view_index(s.drop_last(), i);
        assert(s.drop_last()[i] == s[i]);
    }
}

pub broadcast group group_json_view_lemmas {
    lemma_arr_view_len,
    lemma_arr_view_index,
    lemma_obj_view_len,
    lemma_obj_view_index,
}

impl View for CJson {
    type V = JsonVal;

    open spec fn view(&self) -> JsonVal {
        node_view(*self)
    }
}

/// An ASCII upper-case letter folded to lower case; any other character
/// unchanged.
pub open spec fn lower(c: char) -> char {
    if 'A' <= c && c <= 'Z' {
        ((c as u8) + 32) as char
    } else {
        c
    }
}

/// Character sequences equal up to ASCII case.
pub open spec fn eq_ci(a: Seq<char>, b: Seq<char>) -> bool {
    a.len() == b.len() && forall|i: int| 0 <= i < a.len() ==> lower(#[trigger] a[i]) == lower(b[i])
}

/// Whether a member key matches a looked-up name, under the given case
/// sensitivity.
pub open spec fn key_matches(key: Seq<char>, name: Seq<char>, case_sensitive: bool) -> bool {
    if case_sensitive {
        key == name
    } else {
        eq_ci(key, name)
    }
}

/// The value of the first member whose key matches `name`, if any.
pub open spec fn obj_lookup(
    ms: Seq<(Seq<char>, JsonVal)>,
    name: Seq<char>,
    case_sensitive: bool,
) -> Option<JsonVal>
    decreases ms.len(),
{
    if ms.len() == 0 {
        None
    } else if key_matches(ms[0].0, name, case_sensitive) {
        Some(ms[0].1)
    } else {
        obj_lookup(ms.drop_first(), name, case_sensitive)
    }
}

/// The member list with `v` stored under `key`: the first member whose
/// key equals `key` exactly is replaced, else the pair is appended.
pub open spec fn obj_upsert(
    ms: Seq<(Seq<char>, JsonVal)>,
    key: Seq<char>,
    v: JsonVal,
) -> Seq<(Seq<char>, JsonVal)>
    decreases ms.len(),
{
    if ms.len() == 0 {
        seq![(key, v)]
    } else if ms[0].0 == key {
        seq![(key, v)] + ms.drop_first()
    } else {
        seq![ms[0]] + obj_upsert(ms.drop_first(), key, v)
    }
}

/// The member list with the first member matching `key` taken out.
pub open spec fn obj_remove_first(
    ms: Seq<(Seq<char>, JsonVal)>,
    key: Seq<char>,
    case_sensitive: bool,
) -> Seq<(Seq<char>, JsonVal)>
    decreases ms.len(),
{
    if ms.len() == 0 {
        Seq::empty()
    } else if key_matches(ms[0].0, key, case_sensitive) {
        ms.drop_first()
    } else {
        seq![ms[0]] + obj_remove_first(ms.drop_first(), key, case_sensitive)
    }
}

/// Relies on `str::chars` and `Iterator::collect`: collecting the
/// characters of a string slice yields exactly its characters in order.
#[verifier::external_body]
pub(crate) fn str_to_chars(s: &str) -> (r: Vec<char>)
    ensures
        r@ == s@,
{
    s.chars().collect()
}

/// Relies on `String::from_iter`: a string collected from characters
/// holds exactly those characters in order.
#[verifier::external_body]
pub(crate) fn chars_to_string(v: &Vec<char>) -> (r: String)
    ensures
        r@ == v@,
{
    v.iter().collect()
}

/// Exact equality of two character vectors.
pub(crate) fn chars_eq(a: &Vec<char>, b: &Vec<char>) -> (r: bool)
    ensures
        r == (a@ == b@),
{
    if a.len() != b.len() {
        return false;
    }
    let mut i: usize = 0;
    while i < a.len()
        invariant
            a@.len() == b@.len(),
            i <= a@.len(),
            forall|j: int| 0 <= j < i ==> a@[j] == b@[j],
        decreases a@.len() - i,
    {
        if a[i] != b[i] {
            return false;
        }
        i += 1;
    }
    proof {
        assert(a@ =~= b@);
    }
    true
}

fn lower_char(c: char) -> (r: char)
    ensures
        r == lower(c),
{
    if c >= 'A' && c <= 'Z' {
        ((c as u8) + 32) as char
    } else {
        c
    }
}

/// Equality of two character vectors up to ASCII case.
pub(crate) fn chars_eq_ci(a: &Vec<char>, b: &Vec<char>) -> (r: bool)
    ensures
        r == eq_ci(a@, b@),
{
    if a.len() != b.len() {
        return false;
    }
    let mut i: usize = 0;
    while i < a.len()
        invariant
            a@.len() == b@.len(),
            i <= a@.len(),
            forall|j: int| 0 <= j < i ==> lower(#[trigger] a@[j]) == lower(b@[j]),
        decreases a@.len() - i,
    {
        if lower_char(a[i]) != lower_char(b[i]) {
            return false;
        }
        i += 1;
    }
    true
}

proof fn lemma_remove_first_at(
    ms: Seq<(Seq<char>, JsonVal)>,
    key: Seq<char>,
    case_sensitive: bool,
    idx: int,
)
    requires
        0 <= idx < ms.len(),
        key_matches(ms[idx].0, key, case_sensitive),
        forall|j: int| 0 <= j < idx ==> !key_matches((#[trigger] ms[j]).0, key, case_sensitive),
    ensures
        obj_remove_first(ms, key, case_sensitive) == ms.remove(idx),
    decreases idx,
{
    if idx == 0 {
        assert(obj_remove_first(ms, key, case_sensitive) =~= ms.remove(0));
    } else {
        lemma_remove_first_at(ms.drop_first(), key, case_sensitive, idx - 1);
        assert(obj_remove_first(ms, key, case_sensitive) =~= ms.remove(idx));
    }
}

proof fn lemma_remove_first_absent(
    ms: Seq<(Seq<char>, JsonVal)>,
    key: Seq<char>,
    case_sensitive: bool,
)
    requires
        forall|j: int| 0 <= j < ms.len() ==> !key_matches((#[trigger] ms[j]).0, key, case_sensitive),
    ensures
        obj_remove_first(ms, key, case_sensitive) == ms,
    decreases ms.len(),
{
    if ms.len() > 0 {
        lemma_remove_first_absent(ms.drop_first(), key, case_sensitive);
        assert(obj_remove_first(ms, key, case_sensitive) =~= ms);
    }
}

proof fn lemma_upsert_found(ms: Seq<(Seq<char>, JsonVal)>, key: Seq<char>, v: JsonVal, idx: int)
    requires
        0 <= idx < ms.len(),
        ms[idx].0 == key,
        forall|j: int| 0 <= j < idx ==> (#[trigger] ms[j]).0 != key,
    ensures
        obj_upsert(ms, key, v) == ms.update(idx, (key, v)),
    decreases idx,
{
    if idx == 0 {
        assert(obj_upsert(ms, key, v) =~= ms.update(0, (key, v)));
    } else {
        lemma_upsert_found(ms.drop_first(), key, v, idx - 1);
        assert(obj_upsert(ms, key, v) =~= ms.update(idx, (key, v)));
    }
}

/// A lookup resolves to the first member whose key matches.
pub proof fn lemma_lookup_at(
    ms: Seq<(Seq<char>, JsonVal)>,
    name: Seq<char>,
    case_sensitive: bool,
    idx: int,
)
    requires
        0 <= idx < ms.len(),
        key_matches(ms[idx].0, name, case_sensitive),
        forall|j: int| 0 <= j < idx ==> !key_matches((#[trigger] ms[j]).0, name, case_sensitive),
    ensures
        obj_lookup(ms, name, case_sensitive) == Some(ms[idx].1),
    decreases idx,
{
    if idx > 0 {
        lemma_lookup_at(ms.drop_first(), name, case_sensitive, idx - 1);
    }
}

/// Storing under a key no member carries appends the pair.
pub proof fn lemma_upsert_absent(ms: Seq<(Seq<char>, JsonVal)>, key: Seq<char>, v: JsonVal)
    requires
        forall|j: int| 0 <= j < ms.len() ==> (#[trigger] ms[j]).0 != key,
    ensures
        obj_upsert(ms, key, v) == ms.push((key, v)),
    decreases ms.len(),
{
    if ms.len() == 0 {
        assert(obj_upsert(ms, key, v) =~= ms.push((key, v)));
    } else {
        lemma_upsert_absent(ms.drop_first(), key, v);
        assert(obj_upsert(ms, key, v) =~= ms.push((key, v)));
    }
}

/// A borrow of the value of the first member whose key matches.
fn find_member<'a>(
    members: &'a Vec<(Vec<char>, CJson)>,
    key: &Vec<char>,
    case_sensitive: bool,
) -> (r: Option<&'a CJson>)
    ensures
        match obj_lookup(obj_view(members@), key@, case_sensitive) {
            Some(v) => r is Some && r->0@ == v,
            None => r is None,
        },
{
    broadcast use group_json_view_lemmas;

    let ghost full = obj_view(members@);
    proof {
        assert(full.skip(0) =~= full);
    }
    let mut i: usize = 0;
    while i < members.len()
        invariant
            full == obj_view(members@),
            i <= members@.len(),
            full.len() == members@.len(),
            obj_lookup(full, key@, case_sensitive) == obj_lookup(
                full.skip(i as int),
                key@,
                case_sensitive,
            ),
        decreases members@.len() - i,
    {
        let ghost tail = full.skip(i as int);
        proof {
            vstd::seq_lib::lemma_seq_skip_index(full, i as int, 0);
            assert(tail[0] == full[i as int]);
            lemma_obj_view_index(members@, i as int);
            assert(full[i as int] == (members@[i as int].0@, node_view(members@[i as int].1)));
        }
        let matched = if case_sensitive {
            chars_eq(&members[i].0, key)
        } else {
            chars_eq_ci(&members[i].0, key)
        };
        if matched {
            return Some(&members[i].1);
        }
        proof {
            assert forall|j: int| 0 <= j < tail.drop_first().len() implies tail.drop_first()[j]
                == full.skip(i + 1)[j] by {
                vstd::seq_lib::lemma_seq_skip_index(full, i as int, j + 1);
                vstd::seq_lib::lemma_seq_skip_index(full, i + 1, j);
            }
            assert(tail.drop_first() =~= full.skip(i + 1));
        }
        i += 1;
    }
    proof {
        assert(full.skip(i as int).len() == 0);
    }
    None
}

proof fn lemma_arr_view_ext(a: Seq<CJson>, b: Seq<CJson>)
    requires
        a.len() == b.len(),
        forall|i: int| 0 <= i < a.len() ==> node_view(#[trigger] a[i]) == node_view(b[i]),
    ensures
        arr_view(a) == arr_view(b),
    decreases a.len(),
{
    if a.len() > 0 {
        lemma_arr_view_ext(a.drop_last(), b.drop_last());
        assert(forall|i: int| 0 <= i < a.len() - 1 ==> #[trigger] a.drop_last()[i] == a[i]);
        assert(arr_view(a) =~= arr_view(b));
    } else {
        assert(arr_view(a) =~= arr_view(b));
    }
}

proof fn lemma_obj_view_ext(a: Seq<(Vec<char>, CJson)>, b: Seq<(Vec<char>, CJson)>)
    requires
        a.len() == b.len(),
        forall|i: int| 0 <= i < a.len() ==> (#[trigger] a[i]).0@ == b[i].0@ && node_view(a[i].1)
            == node_view(b[i].1),
    ensures
        obj_view(a) == obj_view(b),
    decreases a.len(),
{
    if a.len() > 0 {
        lemma_obj_view_ext(a.drop_last(), b.drop_last());
        assert(forall|i: int| 0 <= i < a.len() - 1 ==> #[trigger] a.drop_last()[i] == a[i]);
        assert(obj_view(a) =~= obj_view(b));
    } else {
        assert(obj_view(a) =~= obj_view(b));
    }
}

fn deep_copy_members(v: &Vec<(Vec<char>, CJson)>) -> (r: Vec<(Vec<char>, CJson)>)
    ensures
        r@.len() == v@.len(),
        forall|i: int| 0 <= i < r@.len() ==> (#[trigger] r@[i]).0@ == v@[i].0@ && node_view(
            r@[i].1,
        ) == node_view(v@[i].1),
    decreases v,
{
    let mut out: Vec<(Vec<char>, CJson)> = Vec::new();
    let mut k: usize = 0;
    while k < v.len()
        invariant
            k <= v@.len(),
            out@.len() == k,
            forall|i: int| 0 <= i < k ==> (#[trigger] out@[i]).0@ == v@[i].0@ && node_view(
                out@[i].1,
            ) == node_view(v@[i].1),
        decreases v@.len() - k,
    {
        let (name, node) = &v[k];
        proof {
            assert(decreases_to!(*v => v@));
            assert(decreases_to!(v@ => v@[k as int]));
            assert(decreases_to!(v@[k as int] => v@[k as int].1));
        }
        let name2 = name.clone();
        let node2 = deep_copy(node);
        out.push((name2, node2));
        k += 1;
    }
    out
}

fn deep_copy(n: &CJson) -> (r: CJson)
    ensures
        r@ == n@,
    decreases n,
{
    match n {
        CJson::Null => CJson::Null,
        CJson::Bool(b) => CJson::Bool(*b),
        CJson::Num(x) => CJson::Num(*x),
        CJson::Str(s) => CJson::Str(s.clone()),
        CJson::Arr(items) => {
            let mut out: Vec<CJson> = Vec::new();
            let mut k: usize = 0;
            while k < items.len()
                invariant
                    *n == CJson::Arr(*items),
                    k <= items@.len(),
                    out@.len() == k,
                    forall|i: int| 0 <= i < k ==> node_view(#[trigger] out@[i]) == node_view(
                        items@[i],
                    ),
                decreases items@.len() - k,
            {
                proof {
                    assert(decreases_to!(*n => n->Arr_0));
                    assert(decreases_to!(*items => items@));
                    assert(decreases_to!(items@ => items@[k as int]));
                }
                let d = deep_copy(&items[k]);
                out.push(d);
                k += 1;
            }
            proof {
                lemma_arr_view_ext(out@, items@);
            }
            CJson::Arr(out)
        },
        CJson::Obj(members) => {
            let out = deep_copy_members(members);
            proof {
                lemma_obj_view_ext(out@, members@);
            }
            CJson::Obj(out)
        },
    }
}

/// Store `item` under `key` in a member list: the first member whose
/// key equals `key` exactly is replaced, else the pair is appended.
pub(crate) fn upsert_members(members: &mut Vec<(Vec<char>, CJson)>, key: Vec<char>, item: CJson)
    ensures
        obj_view(final(members)@) == obj_upsert(obj_view(old(members)@), key@, item@),
{
    broadcast use group_json_view_lemmas;

    let kv = key;
    let ghost old_ms = obj_view(members@);
    let mut i: usize = 0;
    while i < members.len()
        invariant
            old_ms == obj_view(old(members)@),
            old_ms == obj_view(members@),
            i <= members@.len(),
            old_ms.len() == members@.len(),
            kv@ == key@,
            forall|j: int| 0 <= j < i ==> (#[trigger] old_ms[j]).0 != key@,
        decreases members@.len() - i,
    {
        if chars_eq(&members[i].0, &kv) {
            let ghost idx = i as int;
            let ghost before = members@;
            members.remove(i);
            members.insert(i, (kv, item));
            proof {
                assert(members@ =~= before.update(idx, (kv, item)));
                lemma_obj_view_index(before, idx);
                lemma_upsert_found(old_ms, key@, item@, idx);
                lemma_obj_view_len(members@);
                assert forall|j: int| 0 <= j < members@.len() implies obj_view(members@)[j]
                    == old_ms.update(idx, (key@, item@))[j] by {
                    lemma_obj_view_index(members@, j);
                    if j != idx {
                        lemma_obj_view_index(before, j);
                    }
                }
                assert(obj_view(members@) =~= old_ms.update(idx, (key@, item@)));
            }
            return ;
        }
        proof {
            lemma_obj_view_index(members@, i as int);
        }
        i += 1;
    }
    let ghost before = members@;
    members.push((kv, item));
    proof {
        lemma_upsert_absent(old_ms, key@, item@);
        lemma_obj_view_len(members@);
        assert forall|j: int| 0 <= j < members@.len() implies obj_view(members@)[j] == old_ms.push(
            (key@, item@),
        )[j] by {
            lemma_obj_view_index(members@, j);
            if j < before.len() {
                lemma_obj_view_index(before, j);
            }
        }
        assert(obj_view(members@) =~= old_ms.push((key@, item@)));
    }
}

/// An independent copy of the value of the first member whose key
/// matches.
pub(crate) fn find_member_clone(
    members: &Vec<(Vec<char>, CJson)>,
    key: &Vec<char>,
    case_sensitive: bool,
) -> (r: Option<CJson>)
    ensures
        match obj_lookup(obj_view(members@), key@, case_sensitive) {
            Some(v) => r is Some && r->0@ == v,
            None => r is None,
        },
{
    match find_member(members, key, case_sensitive) {
        Some(item) => match item.duplicate(true) {
            Ok(c) => Some(c),
            Err(_) => None,
        },
        None => None,
    }
}

proof fn lemma_arr_view_remove(v: Seq<CJson>, i: int)
    requires
        0 <= i < v.len(),
    ensures
        arr_view(v.remove(i)) == arr_view(v).remove(i),
{
    broadcast use group_json_view_lemmas;

    assert forall|q: int| 0 <= q < v.remove(i).len() implies arr_view(v.remove(i))[q] == arr_view(
        v,
    ).remove(i)[q] by {
        lemma_arr_view_index(v.remove(i), q);
        if q < i {
            lemma_arr_view_index(v, q);
        } else {
            lemma_arr_view_index(v, q + 1);
        }
    }
    assert(arr_view(v.remove(i)) =~= arr_view(v).remove(i));
}

proof fn lemma_obj_view_remove(v: Seq<(Vec<char>, CJson)>, i: int)
    requires
        0 <= i < v.len(),
    ensures
        obj_view(v.remove(i)) == obj_view(v).remove(i),
{
    broadcast use group_json_view_lemmas;

    assert forall|q: int| 0 <= q < v.remove(i).len() implies obj_view(v.remove(i))[q] == obj_view(
        v,
    ).remove(i)[q] by {
        lemma_obj_view_index(v.remove(i), q);
        if q < i {
            lemma_obj_view_index(v, q);
        } else {
            lemma_obj_view_index(v, q + 1);
        }
    }
    assert(obj_view(v.remove(i)) =~= obj_view(v).remove(i));
}

/// A lookup misses exactly when no member's key matches.
proof fn lemma_lookup_none_iff(ms: Seq<(Seq<char>, JsonVal)>, name: Seq<char>, case_sensitive: bool)
    ensures
        (obj_lookup(ms, name, case_sensitive) is None) <==> (forall|j: int|
            0 <= j < ms.len() ==> !key_matches((#[trigger] ms[j]).0, name, case_sensitive)),
    decreases ms.len(),
{
    if ms.len() > 0 {
        lemma_lookup_none_iff(ms.drop_first(), name, case_sensitive);
        assert(forall|j: int|
            0 <= j < ms.drop_first().len() ==> #[trigger] ms.drop_first()[j] == ms[j + 1]);
        if !key_matches(ms[0].0, name, case_sensitive) && (forall|j: int|
            0 <= j < ms.drop_first().len() ==> !key_matches(
                (#[trigger] ms.drop_first()[j]).0,
                name,
                case_sensitive,
            )) {
            assert forall|j: int| 0 <= j < ms.len() implies !key_matches(
                (#[trigger] ms[j]).0,
                name,
                case_sensitive,
            ) by {
                if j > 0 {
                    assert(ms.drop_first()[j - 1] == ms[j]);
                }
            }
        }
    }
}

impl CJson {
    /// Take out the array element at `index`; past the end nothing
    /// changes.
    pub fn delete_item_from_array(&mut self, index: usize) -> (r: CJsonResult<()>)
        ensures
            match old(self)@ {
                JsonVal::Arr(items) => r is Ok && final(self)@ == JsonVal::Arr(
                    if index < items.len() {
                        items.remove(index as int)
                    } else {
                        items
                    },
                ),
                _ => r == Err::<(), CJsonError>(CJsonError::TypeError) && final(self)@ == old(self)@,
            },
    {
        broadcast use group_json_view_lemmas;

        let mut taken = CJson::Null;
        core::mem::swap(self, &mut taken);
        match taken {
            CJson::Arr(mut items) => {
                proof {
                    lemma_arr_view_len(items@);
                    assert(old(self)@ == JsonVal::Arr(arr_view(items@)));
                }
                let ghost before = items@;
                if index < items.len() {
                    let _removed = items.remove(index);
                    proof {
                        lemma_arr_view_remove(before, index as int);
                        assert(arr_view(items@) == arr_view(before).remove(index as int));
                    }
                }
                *self = CJson::Arr(items);
                proof {
                    assert(self@ == JsonVal::Arr(arr_view(items@)));
                }
                Ok(())
            },
            other => {
                *self = other;
                Err(CJsonError::TypeError)
            },
        }
    }

    /// Take out and return the array element at `index`.
    pub fn detach_item_from_array(&mut self, index: usize) -> (r: CJsonResult<CJson>)
        ensures
            match old(self)@ {
                JsonVal::Arr(items) => {
                    if index < items.len() {
                        r is Ok && r->Ok_0@ == items[index as int] && final(self)@ == JsonVal::Arr(
                            items.remove(index as int),
                        )
                    } else {
                        r == Err::<CJson, CJsonError>(CJsonError::NullPointer) && final(self)@
                            == old(self)@
                    }
                },
                _ => r == Err::<CJson, CJsonError>(CJsonError::TypeError) && final(self)@ == old(
                    self,
                )@,
            },
    {
        broadcast use group_json_view_lemmas;

        let mut taken = CJson::Null;
        core::mem::swap(self, &mut taken);
        match taken {
            CJson::Arr(mut items) => {
                proof {
                    lemma_arr_view_len(items@);
                    assert(old(self)@ == JsonVal::Arr(arr_view(items@)));
                }
                let ghost before = items@;
                if index < items.len() {
                    let removed = items.remove(index);
                    proof {
                        lemma_arr_view_remove(before, index as int);
                        lemma_arr_view_index(before, index as int);
                        assert(arr_view(items@) == arr_view(before).remove(index as int));
                    }
                    *self = CJson::Arr(items);
                    proof {
                        assert(self@ == JsonVal::Arr(arr_view(items@)));
                    }
                    Ok(removed)
                } else {
                    *self = CJson::Arr(items);
                    proof {
                        assert(self@ == JsonVal::Arr(arr_view(items@)));
                    }
                    Err(CJsonError::NullPointer)
                }
            },
            other => {
                *self = other;
                Err(CJsonError::TypeError)
            },
        }
    }

    /// Take out the first member matching `key` (ASCII case ignored);
    /// with no match nothing changes.
    pub fn delete_item_from_object(&mut self, key: &str) -> (r: CJsonResult<()>)
        ensures
            match old(self)@ {
                JsonVal::Obj(ms) => r is Ok && final(self)@ == JsonVal::Obj(
                    obj_remove_first(ms, key@, false),
                ),
                _ => r == Err::<(), CJsonError>(CJsonError::TypeError) && final(self)@ == old(self)@,
            },
    {
        match self.detach_item_from_object(key) {
            Ok(_) => Ok(()),
            Err(CJsonError::NullPointer) => {
                proof {
                    if old(self)@ is Obj {
                        let ms = old(self)@->Obj_0;
                        lemma_lookup_none_iff(ms, key@, false);
                        lemma_remove_first_absent(ms, key@, false);
                    }
                }
                Ok(())
            },
            Err(e) => Err(e),
        }
    }

    /// Take out and return the first member matching `key` (ASCII case
    /// ignored).
    pub fn detach_item_from_object(&mut self, key: &str) -> (r: CJsonResult<CJson>)
        ensures
            match old(self)@ {
                JsonVal::Obj(ms) => match obj_lookup(ms, key@, false) {
                    Some(v) => r is Ok && r->Ok_0@ == v && final(self)@ == JsonVal::Obj(
                        obj_remove_first(ms, key@, false),
                    ),
                    None => r == Err::<CJson, CJsonError>(CJsonError::NullPointer) && final(self)@
                        == old(self)@,
                },
                _ => r == Err::<CJson, CJsonError>(CJsonError::TypeError) && final(self)@ == old(
                    self,
                )@,
            },
    {
        broadcast use group_json_view_lemmas;

        let mut taken = CJson::Null;
        core::mem::swap(self, &mut taken);
        match taken {
            CJson::Obj(mut members) => {
                let kv = str_to_chars(key);
                let ghost old_ms = obj_view(members@);
                let mut i: usize = 0;
                while i < members.len()
                    invariant
                        old(self)@ == JsonVal::Obj(old_ms),
                        old_ms == obj_view(members@),
                        i <= members@.len(),
                        old_ms.len() == members@.len(),
                        kv@ == key@,
                        forall|j: int|
                            0 <= j < i ==> !key_matches((#[trigger] old_ms[j]).0, key@, false),
                    decreases members@.len() - i,
                {
                    proof {
                        lemma_obj_view_index(members@, i as int);
                    }
                    if chars_eq_ci(&members[i].0, &kv) {
                        let ghost before = members@;
                        let removed_pair = members.remove(i);
                        proof {
                            lemma_lookup_at(old_ms, key@, false, i as int);
                            lemma_remove_first_at(old_ms, key@, false, i as int);
                            lemma_obj_view_remove(before, i as int);
                        }
                        *self = CJson::Obj(members);
                        return Ok(removed_pair.1);
                    }
                    i += 1;
                }
                proof {
                    lemma_lookup_none_iff(old_ms, key@, false);
                }
                *self = CJson::Obj(members);
                Err(CJsonError::NullPointer)
            },
            other => {
                *self = other;
                Err(CJsonError::TypeError)
            },
        }
    }
}

impl CJson {
    /// A borrow of the member of an object matching a key given as
    /// characters.
    pub(crate) fn get_object_item_find<'a>(&'a self, key: &Vec<char>, case_sensitive: bool) -> (r:
        Option<&'a CJson>)
        ensures
            match self@ {
                JsonVal::Obj(ms) => match obj_lookup(ms, key@, case_sensitive) {
                    Some(v) => r is Some && r->0@ == v,
                    None => r is None,
                },
                _ => r is None,
            },
    {
        match self {
            CJson::Obj(members) => find_member(members, key, case_sensitive),
            _ => None,
        }
    }

    /// An independent copy.  With `recurse` the whole subtree is copied
    /// and the copy's model equals this node's; without it, containers
    /// are copied empty and scalars are copied whole.
    pub fn duplicate(&self, recurse: bool) -> (r: CJsonResult<Self>)
        ensures
            r is Ok,
            recurse ==> r->Ok_0@ == self@,
            !recurse ==> r->Ok_0@ == match self@ {
                JsonVal::Arr(_) => JsonVal::Arr(Seq::<JsonVal>::empty()),
                JsonVal::Obj(_) => JsonVal::Obj(Seq::<(Seq<char>, JsonVal)>::empty()),
                v => v,
            },
    {
        if recurse {
            Ok(deep_copy(self))
        } else {
            match self {
                CJson::Null => Ok(CJson::Null),
                CJson::Bool(b) => Ok(CJson::Bool(*b)),
                CJson::Num(x) => Ok(CJson::Num(*x)),
                CJson::Str(s) => Ok(CJson::Str(s.clone())),
                CJson::Arr(_) => {
                    let items: Vec<CJson> = Vec::new();
                    Ok(CJson::Arr(items))
                },
                CJson::Obj(_) => {
                    let members: Vec<(Vec<char>, CJson)> = Vec::new();
                    Ok(CJson::Obj(members))
                },
            }
        }
    }

    /// Create a null node.
    pub fn create_null() -> (r: CJsonResult<Self>)
        ensures
            r is Ok && r->Ok_0@ == JsonVal::Null,
    {
        Ok(CJson::Null)
    }

    /// Create a `true` node.
    pub fn create_true() -> (r: CJsonResult<Self>)
        ensures
            r is Ok && r->Ok_0@ == JsonVal::Bool(true),
    {
        Ok(CJson::Bool(true))
    }

    /// Create a `false` node.
    pub fn create_false() -> (r: CJsonResult<Self>)
        ensures
            r is Ok && r->Ok_0@ == JsonVal::Bool(false),
    {
        Ok(CJson::Bool(false))
    }

    /// Create a boolean node.
    pub fn create_bool(value: bool) -> (r: CJsonResult<Self>)
        ensures
            r is Ok && r->Ok_0@ == JsonVal::Bool(value),
    {
        Ok(CJson::Bool(value))
    }

    /// Create a number node.  Numbers are 64-bit signed integers.
    pub fn create_number(value: i64) -> (r: CJsonResult<Self>)
        ensures
            r is Ok && r->Ok_0@ == JsonVal::Num(value as int),
    {
        Ok(CJson::Num(value))
    }

    /// Create a string node.
    pub fn create_string(value: &str) -> (r: CJsonResult<Self>)
        ensures
            r is Ok && r->Ok_0@ == JsonVal::Str(value@),
    {
        Ok(CJson::Str(str_to_chars(value)))
    }

    /// Create an empty array node.
    pub fn create_array() -> (r: CJsonResult<Self>)
        ensures
            r is Ok && r->Ok_0@ == JsonVal::Arr(Seq::<JsonVal>::empty()),
    {
        let items: Vec<CJson> = Vec::new();
        Ok(CJson::Arr(items))
    }

    /// Create an empty object node.
    pub fn create_object() -> (r: CJsonResult<Self>)
        ensures
            r is Ok && r->Ok_0@ == JsonVal::Obj(Seq::<(Seq<char>, JsonVal)>::empty()),
    {
        let members: Vec<(Vec<char>, CJson)> = Vec::new();
        Ok(CJson::Obj(members))
    }

    /// Whether this node is a boolean.
    pub fn is_bool(&self) -> (r: bool)
        ensures
            r == (self@ is Bool),
    {
        matches!(self, CJson::Bool(_))
    }

    /// Whether this node is the boolean `true`.
    pub fn is_true(&self) -> (r: bool)
        ensures
            r == (self@ == JsonVal::Bool(true)),
    {
        matches!(self, CJson::Bool(true))
    }

    /// Whether this node is the boolean `false`.
    pub fn is_false(&self) -> (r: bool)
        ensures
            r == (self@ == JsonVal::Bool(false)),
    {
        matches!(self, CJson::Bool(false))
    }

    /// Whether this node is null.
    pub fn is_null(&self) -> (r: bool)
        ensures
            r == (self@ is Null),
    {
        matches!(self, CJson::Null)
    }

    /// Whether this node is a number.
    pub fn is_number(&self) -> (r: bool)
        ensures
            r == (self@ is Num),
    {
        matches!(self, CJson::Num(_))
    }

    /// Whether this node is a string.
    pub fn is_string(&self) -> (r: bool)
        ensures
            r == (self@ is Str),
    {
        matches!(self, CJson::Str(_))
    }

    /// Whether this node is an array.
    pub fn is_array(&self) -> (r: bool)
        ensures
            r == (self@ is Arr),
    {
        matches!(self, CJson::Arr(_))
    }

    /// Whether this node is an object.
    pub fn is_object(&self) -> (r: bool)
        ensures
            r == (self@ is Obj),
    {
        matches!(self, CJson::Obj(_))
    }

    /// The boolean held by a boolean node.
    pub fn get_bool_value(&self) -> (r: CJsonResult<bool>)
        ensures
            match self@ {
                JsonVal::Bool(b) => r == Ok::<bool, CJsonError>(b),
                _ => r == Err::<bool, CJsonError>(CJsonError::TypeError),
            },
    {
        match self {
            CJson::Bool(b) => Ok(*b),
            _ => Err(CJsonError::TypeError),
        }
    }

    /// The integer held by a number node.
    pub fn get_int_value(&self) -> (r: CJsonResult<i64>)
        ensures
            match self@ {
                JsonVal::Num(n) => r is Ok && r->Ok_0 as int == n,
                _ => r == Err::<i64, CJsonError>(CJsonError::TypeError),
            },
    {
        match self {
            CJson::Num(n) => Ok(*n),
            _ => Err(CJsonError::TypeError),
        }
    }

    /// The text held by a string node.
    pub fn get_string_value(&self) -> (r: CJsonResult<String>)
        ensures
            match self@ {
                JsonVal::Str(s) => r is Ok && r->Ok_0@ == s,
                _ => r == Err::<String, CJsonError>(CJsonError::TypeError),
            },
    {
        match self {
            CJson::Str(s) => Ok(chars_to_string(s)),
            _ => Err(CJsonError::TypeError),
        }
    }

    /// The number of elements of an array node.
    pub fn get_array_size(&self) -> (r: CJsonResult<usize>)
        ensures
            match self@ {
                JsonVal::Arr(items) => r is Ok && r->Ok_0 == items.len(),
                _ => r == Err::<usize, CJsonError>(CJsonError::TypeError),
            },
    {
        match self {
            CJson::Arr(items) => {
                proof {
                    lemma_arr_view_len(items@);
                }
                Ok(items.len())
            },
            _ => Err(CJsonError::TypeError),
        }
    }

    /// A borrow of the array element at `index`.
    pub fn get_array_item(&self, index: usize) -> (r: CJsonResult<&CJson>)
        ensures
            match self@ {
                JsonVal::Arr(items) => {
                    if index < items.len() {
                        r is Ok && r->Ok_0@ == items[index as int]
                    } else {
                        r == Err::<&CJson, CJsonError>(CJsonError::NotFound)
                    }
                },
                _ => r == Err::<&CJson, CJsonError>(CJsonError::TypeError),
            },
    {
        match self {
            CJson::Arr(items) => {
                proof {
                    lemma_arr_view_len(items@);
                }
                if index < items.len() {
                    proof {
                        lemma_arr_view_index(items@, index as int);
                    }
                    Ok(&items[index])
                } else {
                    Err(CJsonError::NotFound)
                }
            },
            _ => Err(CJsonError::TypeError),
        }
    }

    /// A borrow of the member of an object matching `key`, compared
    /// without regard to ASCII case; the first match wins.
    pub fn get_object_item(&self, key: &str) -> (r: CJsonResult<&CJson>)
        ensures
            match self@ {
                JsonVal::Obj(ms) => match obj_lookup(ms, key@, false) {
                    Some(v) => r is Ok && r->Ok_0@ == v,
                    None => r == Err::<&CJson, CJsonError>(CJsonError::NotFound),
                },
                _ => r == Err::<&CJson, CJsonError>(CJsonError::TypeError),
            },
    {
        match self {
            CJson::Obj(members) => {
                let kv = str_to_chars(key);
                match find_member(members, &kv, false) {
                    Some(item) => Ok(item),
                    None => Err(CJsonError::NotFound),
                }
            },
            _ => Err(CJsonError::TypeError),
        }
    }

    /// A borrow of the member of an object matching `key` exactly; the
    /// first match wins.
    pub fn get_object_item_case_sensitive(&self, key: &str) -> (r: CJsonResult<&CJson>)
        ensures
            match self@ {
                JsonVal::Obj(ms) => match obj_lookup(ms, key@, true) {
                    Some(v) => r is Ok && r->Ok_0@ == v,
                    None => r == Err::<&CJson, CJsonError>(CJsonError::NotFound),
                },
                _ => r == Err::<&CJson, CJsonError>(CJsonError::TypeError),
            },
    {
        match self {
            CJson::Obj(members) => {
                let kv = str_to_chars(key);
                match find_member(members, &kv, true) {
                    Some(item) => Ok(item),
                    None => Err(CJsonError::NotFound),
                }
            },
            _ => Err(CJsonError::TypeError),
        }
    }

    /// Whether an object holds a member matching `key` (ASCII case
    /// ignored); `false` on any non-object node.
    pub fn has_object_item(&self, key: &str) -> (r: bool)
        ensures
            r == match self@ {
                JsonVal::Obj(ms) => obj_lookup(ms, key@, false) is Some,
                _ => false,
            },
    {
        match self {
            CJson::Obj(members) => {
                let kv = str_to_chars(key);
                find_member(members, &kv, false).is_some()
            },
            _ => false,
        }
    }

    /// Append `item` to an array node, transferring ownership.
    pub fn add_item_to_array(&mut self, item: CJson) -> (r: CJsonResult<()>)
        ensures
            match old(self)@ {
                JsonVal::Arr(items) => r is Ok && final(self)@ == JsonVal::Arr(items.push(item@)),
                _ => r == Err::<(), CJsonError>(CJsonError::TypeError) && final(self)@ == old(self)@,
            },
    {
        broadcast use group_json_view_lemmas;

        let mut taken = CJson::Null;
        core::mem::swap(self, &mut taken);
        match taken {
            CJson::Arr(mut items) => {
                let ghost old_items = items@;
                items.push(item);
                proof {
                    assert(arr_view(items@) =~= arr_view(old_items).push(item@));
                }
                *self = CJson::Arr(items);
                Ok(())
            },
            other => {
                *self = other;
                Err(CJsonError::TypeError)
            },
        }
    }

    /// Store `item` under `key` in an object node: the first member whose
    /// key equals `key` exactly is replaced, else the pair is appended.
    pub fn add_item_to_object(&mut self, key: &str, item: CJson) -> (r: CJsonResult<()>)
        ensures
            match old(self)@ {
                JsonVal::Obj(ms) => r is Ok && final(self)@ == JsonVal::Obj(
                    obj_upsert(ms, key@, item@),
                ),
                _ => r == Err::<(), CJsonError>(CJsonError::TypeError) && final(self)@ == old(self)@,
            },
    {
        self.add_item_to_object_chars(str_to_chars(key), item)
    }

    /// Store a null member under `key`.
    pub fn add_null_to_object(&mut self, key: &str) -> (r: CJsonResult<()>)
        ensures
            match old(self)@ {
                JsonVal::Obj(ms) => r is Ok && final(self)@ == JsonVal::Obj(
                    obj_upsert(ms, key@, JsonVal::Null),
                ),
                _ => r == Err::<(), CJsonError>(CJsonError::TypeError) && final(self)@ == old(self)@,
            },
    {
        self.add_item_to_object(key, CJson::Null)
    }

    /// Store a `true` member under `key`.
    pub fn add_true_to_object(&mut self, key: &str) -> (r: CJsonResult<()>)
        ensures
            match old(self)@ {
                JsonVal::Obj(ms) => r is Ok && final(self)@ == JsonVal::Obj(
                    obj_upsert(ms, key@, JsonVal::Bool(true)),
                ),
                _ => r == Err::<(), CJsonError>(CJsonError::TypeError) && final(self)@ == old(self)@,
            },
    {
        self.add_item_to_object(key, CJson::Bool(true))
    }

    /// Store a `false` member under `key`.
    pub fn add_false_to_object(&mut self, key: &str) -> (r: CJsonResult<()>)
        ensures
            match old(self)@ {
                JsonVal::Obj(ms) => r is Ok && final(self)@ == JsonVal::Obj(
                    obj_upsert(ms, key@, JsonVal::Bool(false)),
                ),
                _ => r == Err::<(), CJsonError>(CJsonError::TypeError) && final(self)@ == old(self)@,
            },
    {
        self.add_item_to_object(key, CJson::Bool(false))
    }

    /// Store a boolean member under `key`.
    pub fn add_bool_to_object(&mut self, key: &str, value: bool) -> (r: CJsonResult<()>)
        ensures
            match old(self)@ {
                JsonVal::Obj(ms) => r is Ok && final(self)@ == JsonVal::Obj(
                    obj_upsert(ms, key@, JsonVal::Bool(value)),
                ),
                _ => r == Err::<(), CJsonError>(CJsonError::TypeError) && final(self)@ == old(self)@,
            },
    {
        self.add_item_to_object(key, CJson::Bool(value))
    }

    /// Store a number member under `key`.
    pub fn add_number_to_object(&mut self, key: &str, value: i64) -> (r: CJsonResult<()>)
        ensures
            match old(self)@ {
                JsonVal::Obj(ms) => r is Ok && final(self)@ == JsonVal::Obj(
                    obj_upsert(ms, key@, JsonVal::Num(value as int)),
                ),
                _ => r == Err::<(), CJsonError>(CJsonError::TypeError) && final(self)@ == old(self)@,
            },
    {
        self.add_item_to_object(key, CJson::Num(value))
    }

    /// Store a string member under `key`.
    pub fn add_string_to_object(&mut self, key: &str, value: &str) -> (r: CJsonResult<()>)
        ensures
            match old(self)@ {
                JsonVal::Obj(ms) => r is Ok && final(self)@ == JsonVal::Obj(
                    obj_upsert(ms, key@, JsonVal::Str(value@)),
                ),
                _ => r == Err::<(), CJsonError>(CJsonError::TypeError) && final(self)@ == old(self)@,
            },
    {
        self.add_item_to_object(key, CJson::Str(str_to_chars(value)))
    }

    /// As [`CJson::add_item_to_object`], with the key already split into
    /// characters.
    pub(crate) fn add_item_to_object_chars(&mut self, key: Vec<char>, item: CJson) -> (r:
        CJsonResult<()>)
        ensures
            match old(self)@ {
                JsonVal::Obj(ms) => r is Ok && final(self)@ == JsonVal::Obj(
                    obj_upsert(ms, key@, item@),
                ),
                _ => r == Err::<(), CJsonError>(CJsonError::TypeError) && final(self)@ == old(self)@,
            },
    {
        let mut taken = CJson::Null;
        core::mem::swap(self, &mut taken);
        match taken {
            CJson::Obj(mut members) => {
                upsert_members(&mut members, key, item);
                *self = CJson::Obj(members);
                Ok(())
            },
            other => {
                *self = other;
                Err(CJsonError::TypeError)
            },
        }
    }
}

} // verus!
