//! JSON Pointer lookup, patch-operation building, JSON Merge Patch, and
//! member sorting over the tree.
//!
//! A pointer is a run of `/`-prefixed reference tokens; `~1` stands for
//! `/` and `~0` for `~` inside a token.  A token selects a member of an
//! object (by its key) or an element of an array (by a run of decimal
//! digits).  A merge patch is applied recursively: a non-object patch
//! replaces the target outright; an object patch merges member by
//! member, a null member removing the target's member.  Sorting orders
//! an object's members by key and keeps exactly the members it held.

use vstd::prelude::*;

use crate::cjson::CJson;
use crate::cjson::CJsonError;
use crate::cjson::CJsonResult;
use crate::cjson::JsonVal;
use crate::cjson::obj_lookup;
use crate::cjson::obj_upsert;
use crate::cjson::key_matches;
use crate::parse::is_digit;

verus! {

/// A reference token with `~1` and `~0` unescaped.
pub open spec fn unescape_token(t: Seq<char>) -> Seq<char>
    decreases t.len(),
{
    if t.len() == 0 {
        Seq::empty()
    } else if t.len() >= 2 && t[0] == '~' && t[1] == '1' {
        seq!['/'] + unescape_token(t.skip(2))
    } else if t.len() >= 2 && t[0] == '~' && t[1] == '0' {
        seq!['~'] + unescape_token(t.skip(2))
    } else {
        seq![t[0]] + unescape_token(t.skip(1))
    }
}

/// The end of the token starting at `i`: the next `/`, or the end of
/// the pointer.
pub open spec fn token_end(p: Seq<char>, i: int) -> int
    decreases p.len() - i,
{
    if 0 <= i < p.len() && p[i] != '/' {
        token_end(p, i + 1)
    } else {
        i
    }
}

/// Whether a token is a valid array index: one or more decimal digits.
pub open spec fn is_index_token(t: Seq<char>) -> bool {
    t.len() > 0 && forall|i: int| 0 <= i < t.len() ==> is_digit(#[trigger] t[i])
}

/// The number an index token denotes.
pub open spec fn index_of_token(t: Seq<char>) -> int {
    crate::parse::digits_val(t, 0, t.len() as int)
}

/// The node a pointer selects, starting from `v` at position `i` of the
/// pointer text.  The empty remainder selects `v` itself; each further
/// token steps into a member or an element.
pub open spec fn ptr_lookup(v: JsonVal, p: Seq<char>, i: int, case_sensitive: bool) -> Option<
    JsonVal,
>
    decreases crate::parse::rem(p, i),
{
    if i >= p.len() {
        Some(v)
    } else if !(0 <= i < p.len() && p[i] == '/') {
        None
    } else {
        let e = token_end(p, i + 1);
        let e2 = if e >= i + 1 {
            e
        } else {
            i + 1
        };
        let tok = unescape_token(p.subrange(i + 1, if e2 <= p.len() {
            e2
        } else {
            p.len() as int
        }));
        match v {
            JsonVal::Obj(ms) => match obj_lookup(ms, tok, case_sensitive) {
                Some(x) => ptr_lookup(x, p, e2, case_sensitive),
                None => None,
            },
            JsonVal::Arr(items) => {
                if is_index_token(tok) && 0 <= index_of_token(tok) < items.len() {
                    ptr_lookup(items[index_of_token(tok)], p, e2, case_sensitive)
                } else {
                    None
                }
            },
            _ => None,
        }
    }
}

/// The member list without any member matching `key`.
pub open spec fn obj_remove(
    ms: Seq<(Seq<char>, JsonVal)>,
    key: Seq<char>,
    case_sensitive: bool,
) -> Seq<(Seq<char>, JsonVal)>
    decreases ms.len(),
{
    if ms.len() == 0 {
        Seq::empty()
    } else if key_matches(ms[0].0, key, case_sensitive) {
        obj_remove(ms.drop_first(), key, case_sensitive)
    } else {
        seq![ms[0]] + obj_remove(ms.drop_first(), key, case_sensitive)
    }
}

/// The merge of one patch into one target, as a merge patch is defined:
/// a non-object patch replaces the target; an object patch merges
/// member by member over an object target (any other target is treated
/// as empty), a null member removing the key, any other member merged
/// recursively into the target's member.
pub open spec fn spec_merge(target: JsonVal, patch: JsonVal, case_sensitive: bool) -> JsonVal
    decreases patch, 1int,
{
    match patch {
        JsonVal::Obj(pms) => {
            let base = match target {
                JsonVal::Obj(tms) => tms,
                _ => Seq::<(Seq<char>, JsonVal)>::empty(),
            };
            proof {
                assert(decreases_to!(patch => pms));
            }
            JsonVal::Obj(merge_members(base, pms, case_sensitive))
        },
        _ => patch,
    }
}

/// The target's members after each patch member is applied in order.
pub open spec fn merge_members(
    tms: Seq<(Seq<char>, JsonVal)>,
    pms: Seq<(Seq<char>, JsonVal)>,
    case_sensitive: bool,
) -> Seq<(Seq<char>, JsonVal)>
    decreases pms, 0int,
{
    if pms.len() == 0 {
        tms
    } else {
        let done = merge_members(tms, pms.drop_last(), case_sensitive);
        let key = pms.last().0;
        let pv = pms.last().1;
        proof {
            assert(decreases_to!(pms => pms[pms.len() - 1]));
            assert(decreases_to!(pms[pms.len() - 1] => pms[pms.len() - 1].1));
            vstd::seq::axiom_seq_subrange_decreases(pms, 0, pms.len() - 1);
        }
        if pv is Null {
            obj_remove(done, key, case_sensitive)
        } else {
            let old_member = match obj_lookup(done, key, case_sensitive) {
                Some(x) => x,
                None => JsonVal::Null,
            };
            obj_upsert(done, key, spec_merge(old_member, pv, case_sensitive))
        }
    }
}

fn unescape_token_exec(t: &Vec<char>, i: usize) -> (r: Vec<char>)
    requires
        i <= t@.len(),
    ensures
        r@ == unescape_token(t@.skip(i as int)),
    decreases t@.len() - i,
{
    if i >= t.len() {
        let empty: Vec<char> = Vec::new();
        proof {
            assert(t@.skip(i as int) =~= Seq::<char>::empty());
        }
        return empty;
    }
    proof {
        assert(t@.skip(i as int)[0] == t@[i as int]);
        if i + 1 < t@.len() {
            assert(t@.skip(i as int)[1] == t@[i + 1]);
        }
        if i + 2 <= t@.len() {
            assert(t@.skip(i as int).skip(2) =~= t@.skip(i + 2));
        }
        assert(t@.skip(i as int).skip(1) =~= t@.skip(i + 1));
    }
    if t.len() - i >= 2 && t[i] == '~' && t[i + 1] == '1' {
        let mut rest = unescape_token_exec(t, i + 2);
        let mut out: Vec<char> = Vec::new();
        out.push('/');
        out.append(&mut rest);
        proof {
            assert(out@ =~= unescape_token(t@.skip(i as int)));
        }
        out
    } else if t.len() - i >= 2 && t[i] == '~' && t[i + 1] == '0' {
        let mut rest = unescape_token_exec(t, i + 2);
        let mut out: Vec<char> = Vec::new();
        out.push('~');
        out.append(&mut rest);
        proof {
            assert(out@ =~= unescape_token(t@.skip(i as int)));
        }
        out
    } else {
        let mut rest = unescape_token_exec(t, i + 1);
        let mut out: Vec<char> = Vec::new();
        out.push(t[i]);
        out.append(&mut rest);
        proof {
            assert(out@ =~= unescape_token(t@.skip(i as int)));
        }
        out
    }
}

fn token_end_exec(p: &Vec<char>, i: usize) -> (r: usize)
    requires
        i <= p@.len(),
    ensures
        r as int == token_end(p@, i as int),
        i <= r <= p@.len(),
{
    let mut k = i;
    while k < p.len() && p[k] != '/'
        invariant
            i <= k <= p@.len(),
            token_end(p@, i as int) == token_end(p@, k as int),
        decreases p@.len() - k,
    {
        k += 1;
    }
    k
}

/// The index a token denotes, when every character is a digit and the
/// value fits 64 bits; `None` past 64 bits.
fn token_index(t: &Vec<char>) -> (r: Option<u64>)
    requires
        forall|k: int| 0 <= k < t@.len() ==> is_digit(#[trigger] t@[k]),
    ensures
        match r {
            Some(m) => m as int == index_of_token(t@),
            None => index_of_token(t@) > u64::MAX,
        },
{
    let mut acc: u64 = 0;
    let mut over = false;
    let mut k: usize = 0;
    while k < t.len()
        invariant
            k <= t@.len(),
            forall|j: int| 0 <= j < t@.len() ==> is_digit(#[trigger] t@[j]),
            !over ==> acc as int == crate::parse::digits_val(t@, 0, k as int),
            over ==> crate::parse::digits_val(t@, 0, k as int) > u64::MAX,
        decreases t@.len() - k,
    {
        let d = (t[k] as u8) - ('0' as u8);
        proof {
            crate::parse::lemma_digits_val_nonneg(t@, 0, k as int);
        }
        if over {
            proof {
                crate::parse::lemma_digits_val_mono(t@, 0, k as int, k + 1);
            }
        } else if acc > u64::MAX / 10 || (acc == u64::MAX / 10 && d > 5) {
            over = true;
            proof {
                assert(crate::parse::digits_val(t@, 0, k + 1) == crate::parse::digits_val(
                    t@,
                    0,
                    k as int,
                ) * 10 + (t@[k as int] as int - '0' as int));
            }
        } else {
            acc = acc * 10 + (d as u64);
        }
        k += 1;
    }
    if over {
        None
    } else {
        Some(acc)
    }
}

fn all_digits(t: &Vec<char>) -> (r: bool)
    ensures
        r == forall|k: int| 0 <= k < t@.len() ==> is_digit(#[trigger] t@[k]),
{
    let mut k: usize = 0;
    while k < t.len()
        invariant
            k <= t@.len(),
            forall|j: int| 0 <= j < k ==> is_digit(#[trigger] t@[j]),
        decreases t@.len() - k,
    {
        if !('0' <= t[k] && t[k] <= '9') {
            return false;
        }
        k += 1;
    }
    true
}

fn ptr_walk<'a>(cur: &'a CJson, p: &Vec<char>, i: usize, case_sensitive: bool) -> (r: Option<
    &'a CJson,
>)
    requires
        i <= p@.len(),
    ensures
        match ptr_lookup(cur@, p@, i as int, case_sensitive) {
            Some(v) => r is Some && r->0@ == v,
            None => r is None,
        },
    decreases p@.len() - i,
{
    broadcast use crate::cjson::group_json_view_lemmas;

    if i >= p.len() {
        return Some(cur);
    }
    if p[i] != '/' {
        return None;
    }
    let e = token_end_exec(p, i + 1);
    let raw = vstd::slice::slice_to_vec(vstd::slice::slice_subrange(p.as_slice(), i + 1, e));
    proof {
        assert(raw@ =~= p@.subrange(i + 1, e as int));
    }
    let tok = unescape_token_exec(&raw, 0);
    proof {
        assert(raw@.skip(0) =~= raw@);
    }
    match cur {
        CJson::Obj(_) => {
            match cur.get_object_item_find(&tok, case_sensitive) {
                Some(x) => ptr_walk(x, p, e, case_sensitive),
                None => None,
            }
        },
        CJson::Arr(items) => {
            if !all_digits(&tok) || tok.len() == 0 {
                return None;
            }
            let count = items.len();
            let idx = match token_index(&tok) {
                Some(m) => m,
                None => {
                    proof {
                        crate::cjson::lemma_arr_view_len(items@);
                        assert(count as int <= usize::MAX as int);
                        assert(usize::MAX as int <= u64::MAX as int);
                    }
                    return None;
                },
            };
            proof {
                crate::cjson::lemma_arr_view_len(items@);
            }
            if idx < items.len() as u64 {
                proof {
                    crate::cjson::lemma_arr_view_index(items@, idx as int);
                }
                ptr_walk(&items[idx as usize], p, e, case_sensitive)
            } else {
                None
            }
        },
        _ => None,
    }
}

/// JSON Pointer lookup over the tree.
pub struct JsonPointer;

impl JsonPointer {
    /// The node `pointer` selects within `object`, member keys compared
    /// without regard to ASCII case; any failure is reported as
    /// [`CJsonError::NotFound`].
    pub fn get<'a>(object: &'a CJson, pointer: &str) -> (r: CJsonResult<&'a CJson>)
        ensures
            match ptr_lookup(object@, pointer@, 0, false) {
                Some(v) => r is Ok && r->Ok_0@ == v,
                None => r == Err::<&'a CJson, CJsonError>(CJsonError::NotFound),
            },
    {
        let p = crate::cjson::str_to_chars(pointer);
        match ptr_walk(object, &p, 0, false) {
            Some(x) => Ok(x),
            None => Err(CJsonError::NotFound),
        }
    }

    /// The node `pointer` selects within `object`, member keys compared
    /// exactly.
    pub fn get_case_sensitive<'a>(object: &'a CJson, pointer: &str) -> (r: CJsonResult<&'a CJson>)
        ensures
            match ptr_lookup(object@, pointer@, 0, true) {
                Some(v) => r is Ok && r->Ok_0@ == v,
                None => r == Err::<&'a CJson, CJsonError>(CJsonError::NotFound),
            },
    {
        let p = crate::cjson::str_to_chars(pointer);
        match ptr_walk(object, &p, 0, true) {
            Some(x) => Ok(x),
            None => Err(CJsonError::NotFound),
        }
    }
}

/// The member list without any member matching `key`.
fn remove_members(
    members: Vec<(Vec<char>, CJson)>,
    key: &Vec<char>,
    case_sensitive: bool,
) -> (r: Vec<(Vec<char>, CJson)>)
    ensures
        crate::cjson::obj_view(r@) == obj_remove(
            crate::cjson::obj_view(members@),
            key@,
            case_sensitive,
        ),
{
    broadcast use crate::cjson::group_json_view_lemmas;

    let ghost full = crate::cjson::obj_view(members@);
    let mut out: Vec<(Vec<char>, CJson)> = Vec::new();
    let mut members = members;
    let mut k: usize = 0;
    proof {
        assert(full.skip(0) =~= full);
    }
    while k < members.len()
        invariant
            full == crate::cjson::obj_view(members@),
            k <= members@.len(),
            full.len() == members@.len(),
            obj_remove(full, key@, case_sensitive) == crate::cjson::obj_view(out@) + obj_remove(
                full.skip(k as int),
                key@,
                case_sensitive,
            ),
        decreases members@.len() - k,
    {
        let ghost tail = full.skip(k as int);
        proof {
            vstd::seq_lib::lemma_seq_skip_index(full, k as int, 0);
            crate::cjson::lemma_obj_view_index(members@, k as int);
            assert forall|q: int| 0 <= q < tail.drop_first().len() implies tail.drop_first()[q]
                == full.skip(k + 1)[q] by {
                vstd::seq_lib::lemma_seq_skip_index(full, k as int, q + 1);
                vstd::seq_lib::lemma_seq_skip_index(full, k + 1, q);
            }
            assert(tail.drop_first() =~= full.skip(k + 1));
        }
        let matched = if case_sensitive {
            crate::cjson::chars_eq(&members[k].0, key)
        } else {
            crate::cjson::chars_eq_ci(&members[k].0, key)
        };
        if !matched {
            let (name, node) = &members[k];
            let name2 = name.clone();
            let node2 = match node.duplicate(true) {
                Ok(c) => c,
                Err(_) => CJson::Null,
            };
            let ghost out_before = out@;
            out.push((name2, node2));
            proof {
                crate::cjson::lemma_obj_view_len(out@);
                crate::cjson::lemma_obj_view_len(out_before);
                crate::cjson::lemma_obj_view_index(out@, out@.len() - 1);
                assert forall|q: int| 0 <= q < out@.len() implies crate::cjson::obj_view(out@)[q]
                    == (crate::cjson::obj_view(out_before) + seq![full[k as int]])[q] by {
                    crate::cjson::lemma_obj_view_index(out@, q);
                    if q < out_before.len() {
                        crate::cjson::lemma_obj_view_index(out_before, q);
                    }
                }
                assert(crate::cjson::obj_view(out@) =~= crate::cjson::obj_view(out_before)
                    + seq![full[k as int]]);
                assert(crate::cjson::obj_view(out@) + obj_remove(
                    full.skip(k + 1),
                    key@,
                    case_sensitive,
                ) =~= crate::cjson::obj_view(out_before) + obj_remove(
                    tail,
                    key@,
                    case_sensitive,
                ));
            }
        }
        k += 1;
    }
    proof {
        assert(full.skip(members@.len() as int).len() == 0);
        assert(crate::cjson::obj_view(out@) + obj_remove(
            full.skip(members@.len() as int),
            key@,
            case_sensitive,
        ) =~= crate::cjson::obj_view(out@));
    }
    out
}

/// Merge one patch node into one target node, exactly as [`spec_merge`]
/// says; the target is consumed.
fn merge_node(target: CJson, patch: &CJson, case_sensitive: bool) -> (r: CJson)
    ensures
        r@ == spec_merge(target@, patch@, case_sensitive),
    decreases patch,
{
    broadcast use crate::cjson::group_json_view_lemmas;

    match patch {
        CJson::Obj(pms) => {
            let ghost pview = crate::cjson::obj_view(pms@);
            let mut acc: Vec<(Vec<char>, CJson)> = match target {
                CJson::Obj(t) => t,
                _ => Vec::new(),
            };
            let ghost base = crate::cjson::obj_view(acc@);
            proof {
                assert(base =~= match target@ {
                    JsonVal::Obj(tms) => tms,
                    _ => Seq::<(Seq<char>, JsonVal)>::empty(),
                });
            }
            let mut k: usize = 0;
            while k < pms.len()
                invariant
                    *patch == CJson::Obj(*pms),
                    pview == crate::cjson::obj_view(pms@),
                    pview.len() == pms@.len(),
                    k <= pms@.len(),
                    crate::cjson::obj_view(acc@) == merge_members(
                        base,
                        pview.take(k as int),
                        case_sensitive,
                    ),
                decreases pms@.len() - k,
            {
                proof {
                    assert(decreases_to!(*patch => patch->Obj_0));
                    assert(decreases_to!(*pms => pms@));
                    assert(decreases_to!(pms@ => pms@[k as int]));
                    assert(decreases_to!(pms@[k as int] => pms@[k as int].1));
                    crate::cjson::lemma_obj_view_index(pms@, k as int);
                    assert(pview.take(k + 1).drop_last() =~= pview.take(k as int));
                    assert(pview.take(k + 1).last() == pview[k as int]);
                }
                let (key, pv) = &pms[k];
                if pv.is_null() {
                    let key2 = key.clone();
                    acc = remove_members(acc, &key2, case_sensitive);
                } else {
                    let old_m = match crate::cjson::find_member_clone(&acc, key, case_sensitive) {
                        Some(c) => c,
                        None => CJson::Null,
                    };
                    let merged = merge_node(old_m, pv, case_sensitive);
                    crate::cjson::upsert_members(&mut acc, key.clone(), merged);
                }
                k += 1;
            }
            proof {
                assert(pview.take(pview.len() as int) =~= pview);
            }
            CJson::Obj(acc)
        },
        _ => {
            match patch.duplicate(true) {
                Ok(c) => c,
                Err(_) => CJson::Null,
            }
        },
    }
}

/// One patch operation as a tree node: the operation name and the
/// pointer path, and the operation's value when one is given.
pub open spec fn patch_op(op: Seq<char>, path: Seq<char>, value: Option<JsonVal>) -> JsonVal {
    JsonVal::Obj(
        seq![("op"@, JsonVal::Str(op)), ("path"@, JsonVal::Str(path))] + match value {
            Some(v) => seq![("value"@, v)],
            None => Seq::<(Seq<char>, JsonVal)>::empty(),
        },
    )
}

/// Building arrays of patch operations.
pub struct JsonPatch;

impl JsonPatch {
    /// Append one patch operation to an array of operations: an object
    /// holding the operation name under `op`, the pointer path under
    /// `path`, and an independent copy of the value under `value` when
    /// one is given.
    pub fn add_to_array(
        array: &mut CJson,
        operation: &str,
        path: &str,
        value: Option<&CJson>,
    ) -> (r: CJsonResult<()>)
        ensures
            match old(array)@ {
                JsonVal::Arr(items) => r is Ok && final(array)@ == JsonVal::Arr(
                    items.push(
                        patch_op(
                            operation@,
                            path@,
                            match value {
                                Some(v) => Some(v@),
                                None => None,
                            },
                        ),
                    ),
                ),
                _ => r == Err::<(), CJsonError>(CJsonError::TypeError) && final(array)@ == old(
                    array,
                )@,
            },
    {
        broadcast use crate::cjson::group_json_view_lemmas;

        if !array.is_array() {
            return Err(CJsonError::TypeError);
        }
        let mut members: Vec<(Vec<char>, CJson)> = Vec::new();
        members.push((crate::cjson::str_to_chars("op"), CJson::Str(crate::cjson::str_to_chars(
            operation,
        ))));
        members.push((crate::cjson::str_to_chars("path"), CJson::Str(crate::cjson::str_to_chars(
            path,
        ))));
        match value {
            Some(v) => {
                let copy = match v.duplicate(true) {
                    Ok(c) => c,
                    Err(e) => {
                        return Err(e);
                    },
                };
                members.push((crate::cjson::str_to_chars("value"), copy));
            },
            None => {},
        }
        let ghost expected = match value {
            Some(v) => patch_op(operation@, path@, Some(v@)),
            None => patch_op(operation@, path@, None),
        };
        let node = CJson::Obj(members);
        proof {
            crate::cjson::lemma_obj_view_len(node->Obj_0@);
            assert forall|q: int| 0 <= q < node->Obj_0@.len() implies crate::cjson::obj_view(
                node->Obj_0@,
            )[q] == expected->Obj_0[q] by {
                crate::cjson::lemma_obj_view_index(node->Obj_0@, q);
            }
            assert(crate::cjson::obj_view(node->Obj_0@) =~= expected->Obj_0);
        }
        array.add_item_to_array(node)
    }
}

/// A key character under the chosen case sensitivity: itself, or folded
/// to lower case.
pub open spec fn key_char(c: char, case_sensitive: bool) -> char {
    if case_sensitive {
        c
    } else {
        crate::cjson::lower(c)
    }
}

/// Lexicographic order on member keys, by code point, under the chosen
/// case sensitivity.
pub open spec fn key_le(a: Seq<char>, b: Seq<char>, case_sensitive: bool) -> bool
    decreases a.len(),
{
    if a.len() == 0 {
        true
    } else if b.len() == 0 {
        false
    } else {
        let ca = key_char(a[0], case_sensitive);
        let cb = key_char(b[0], case_sensitive);
        if ca != cb {
            ca < cb
        } else {
            key_le(a.drop_first(), b.drop_first(), case_sensitive)
        }
    }
}

/// The key order is total.
pub proof fn lemma_key_le_total(a: Seq<char>, b: Seq<char>, case_sensitive: bool)
    ensures
        key_le(a, b, case_sensitive) || key_le(b, a, case_sensitive),
    decreases a.len(),
{
    if a.len() > 0 && b.len() > 0 && key_char(a[0], case_sensitive) == key_char(
        b[0],
        case_sensitive,
    ) {
        lemma_key_le_total(a.drop_first(), b.drop_first(), case_sensitive);
    }
}

/// The key order is transitive.
pub proof fn lemma_key_le_trans(a: Seq<char>, b: Seq<char>, c: Seq<char>, case_sensitive: bool)
    requires
        key_le(a, b, case_sensitive),
        key_le(b, c, case_sensitive),
    ensures
        key_le(a, c, case_sensitive),
    decreases a.len(),
{
    if a.len() > 0 && b.len() > 0 && c.len() > 0 {
        let ca = key_char(a[0], case_sensitive);
        let cb = key_char(b[0], case_sensitive);
        let cc = key_char(c[0], case_sensitive);
        if ca == cb && cb == cc {
            lemma_key_le_trans(a.drop_first(), b.drop_first(), c.drop_first(), case_sensitive);
        }
    }
}

/// Member keys in ascending order.
pub open spec fn keys_sorted(
    ms: Seq<(Seq<char>, JsonVal)>,
    case_sensitive: bool,
) -> bool {
    forall|i: int, j: int|
        0 <= i < j < ms.len() ==> key_le((#[trigger] ms[i]).0, (#[trigger] ms[j]).0, case_sensitive)
}

fn key_le_at(a: &Vec<char>, b: &Vec<char>, i: usize, case_sensitive: bool) -> (r: bool)
    requires
        i <= a@.len(),
        i <= b@.len(),
    ensures
        r == key_le(a@.skip(i as int), b@.skip(i as int), case_sensitive),
    decreases a@.len() - i,
{
    if i >= a.len() {
        proof {
            assert(a@.skip(i as int).len() == 0);
        }
        return true;
    }
    if i >= b.len() {
        proof {
            assert(b@.skip(i as int).len() == 0);
            assert(a@.skip(i as int).len() > 0);
        }
        return false;
    }
    proof {
        assert(a@.skip(i as int)[0] == a@[i as int]);
        assert(b@.skip(i as int)[0] == b@[i as int]);
        assert(a@.skip(i as int).drop_first() =~= a@.skip(i + 1));
        assert(b@.skip(i as int).drop_first() =~= b@.skip(i + 1));
    }
    let ca = if case_sensitive {
        a[i]
    } else {
        fold_char(a[i])
    };
    let cb = if case_sensitive {
        b[i]
    } else {
        fold_char(b[i])
    };
    if ca != cb {
        ca < cb
    } else {
        key_le_at(a, b, i + 1, case_sensitive)
    }
}

fn fold_char(c: char) -> (r: char)
    ensures
        r == crate::cjson::lower(c),
{
    if c >= 'A' && c <= 'Z' {
        ((c as u8) + 32) as char
    } else {
        c
    }
}

fn key_le_exec(a: &Vec<char>, b: &Vec<char>, case_sensitive: bool) -> (r: bool)
    ensures
        r == key_le(a@, b@, case_sensitive),
{
    let r = key_le_at(a, b, 0, case_sensitive);
    proof {
        assert(a@.skip(0) =~= a@);
        assert(b@.skip(0) =~= b@);
    }
    r
}

proof fn lemma_obj_view_insert(v: Seq<(Vec<char>, CJson)>, i: int, x: (Vec<char>, CJson))
    requires
        0 <= i <= v.len(),
    ensures
        crate::cjson::obj_view(v.insert(i, x)) == crate::cjson::obj_view(v).insert(
            i,
            (x.0@, crate::cjson::node_view(x.1)),
        ),
{
    broadcast use crate::cjson::group_json_view_lemmas;

    let a = crate::cjson::obj_view(v.insert(i, x));
    let b = crate::cjson::obj_view(v).insert(i, (x.0@, crate::cjson::node_view(x.1)));
    assert forall|q: int| 0 <= q < a.len() implies a[q] == b[q] by {
        crate::cjson::lemma_obj_view_index(v.insert(i, x), q);
        if q < i {
            crate::cjson::lemma_obj_view_index(v, q);
        } else if q > i {
            crate::cjson::lemma_obj_view_index(v, q - 1);
        }
    }
    assert(a =~= b);
}

/// Sort a member list by key, ascending: the result is ordered and
/// holds exactly the members of the input.
fn sort_members(v: Vec<(Vec<char>, CJson)>, case_sensitive: bool) -> (r: Vec<(Vec<char>, CJson)>)
    ensures
        keys_sorted(crate::cjson::obj_view(r@), case_sensitive),
        crate::cjson::obj_view(r@).to_multiset() == crate::cjson::obj_view(v@).to_multiset(),
{
    broadcast use crate::cjson::group_json_view_lemmas;
    broadcast use vstd::seq_lib::group_to_multiset_ensures;
    broadcast use vstd::multiset::group_multiset_axioms;

    let ghost orig = crate::cjson::obj_view(v@);
    let mut v = v;
    let mut out: Vec<(Vec<char>, CJson)> = Vec::new();
    proof {
        assert(crate::cjson::obj_view(out@) =~= Seq::<(Seq<char>, JsonVal)>::empty());
        vstd::multiset::lemma_multiset_empty_len(
            crate::cjson::obj_view(out@).to_multiset(),
        );
        assert(crate::cjson::obj_view(out@).to_multiset().add(
            crate::cjson::obj_view(v@).to_multiset(),
        ) =~= orig.to_multiset());
    }
    while v.len() > 0
        invariant
            keys_sorted(crate::cjson::obj_view(out@), case_sensitive),
            crate::cjson::obj_view(out@).to_multiset().add(
                crate::cjson::obj_view(v@).to_multiset(),
            ) == orig.to_multiset(),
        decreases v@.len(),
    {
        let ghost v_before = v@;
        let m = v.pop().unwrap();
        let ghost mv = (m.0@, crate::cjson::node_view(m.1));
        proof {
            broadcast use vstd::seq_lib::group_to_multiset_ensures;

            assert(v_before =~= v@.push(m));
            assert(crate::cjson::obj_view(v_before) == crate::cjson::obj_view(v@).push(mv));
            assert(crate::cjson::obj_view(v_before).to_multiset() =~= crate::cjson::obj_view(
                v@,
            ).to_multiset().insert(mv));
        }
        let ghost out_before = crate::cjson::obj_view(out@);
        proof {
            crate::cjson::lemma_obj_view_len(out@);
        }
        let mut idx: usize = 0;
        while idx < out.len() && key_le_exec(&out[idx].0, &m.0, case_sensitive)
            invariant
                out_before == crate::cjson::obj_view(out@),
                out_before.len() == out@.len(),
                mv.0 == m.0@,
                idx <= out@.len(),
                forall|q: int|
                    0 <= q < idx ==> key_le((#[trigger] out_before[q]).0, mv.0, case_sensitive),
            decreases out@.len() - idx,
        {
            proof {
                crate::cjson::lemma_obj_view_index(out@, idx as int);
            }
            idx += 1;
        }
        proof {
            if idx < out@.len() {
                crate::cjson::lemma_obj_view_index(out@, idx as int);
            }
        }
        let ghost insert_at = idx as int;
        let ghost out_vec_before = out@;
        let ghost mg = m;
        out.insert(idx, m);
        proof {
            assert(out@ == out_vec_before.insert(insert_at, mg));
            lemma_obj_view_insert(out_vec_before, insert_at, mg);
            assert(crate::cjson::obj_view(out@) == out_before.insert(insert_at, mv));
            vstd::seq_lib::to_multiset_insert(out_before, insert_at, mv);
            assert(crate::cjson::obj_view(out@).to_multiset() =~= out_before.to_multiset().insert(
                mv,
            ));
            let new_view = crate::cjson::obj_view(out@);
            assert forall|i: int, j: int| 0 <= i < j < new_view.len() implies key_le(
                (#[trigger] new_view[i]).0,
                (#[trigger] new_view[j]).0,
                case_sensitive,
            ) by {
                if i < insert_at && j < insert_at {
                    assert(new_view[i] == out_before[i]);
                    assert(new_view[j] == out_before[j]);
                } else if i < insert_at && j == insert_at {
                    assert(new_view[i] == out_before[i]);
                    assert(new_view[j] == mv);
                } else if i < insert_at && j > insert_at {
                    assert(new_view[i] == out_before[i]);
                    assert(new_view[j] == out_before[j - 1]);
                } else if i == insert_at {
                    assert(new_view[i] == mv);
                    assert(new_view[j] == out_before[j - 1]);
                    lemma_key_le_total(out_before[insert_at].0, mv.0, case_sensitive);
                    assert(key_le(mv.0, out_before[insert_at].0, case_sensitive));
                    if j - 1 > insert_at {
                        lemma_key_le_trans(
                            mv.0,
                            out_before[insert_at].0,
                            out_before[j - 1].0,
                            case_sensitive,
                        );
                    }
                } else {
                    assert(new_view[i] == out_before[i - 1]);
                    assert(new_view[j] == out_before[j - 1]);
                }
            }
            let ghost vms = crate::cjson::obj_view(v@).to_multiset();
            assert(out_before.to_multiset().insert(mv).add(vms) =~= out_before.to_multiset().add(
                vms.insert(mv),
            ));
            assert(crate::cjson::obj_view(v_before).to_multiset() == vms.insert(mv));
            assert(out_before.to_multiset().add(crate::cjson::obj_view(v_before).to_multiset())
                == orig.to_multiset());
            assert(crate::cjson::obj_view(out@).to_multiset() == out_before.to_multiset().insert(
                mv,
            ));
            assert(crate::cjson::obj_view(out@).to_multiset().add(vms)
                == out_before.to_multiset().insert(mv).add(vms));
            assert(crate::cjson::obj_view(out@).to_multiset().add(vms) == orig.to_multiset());
        }
    }
    proof {
        assert(crate::cjson::obj_view(v@) =~= Seq::<(Seq<char>, JsonVal)>::empty());
        assert(crate::cjson::obj_view(out@).to_multiset().add(
            crate::cjson::obj_view(v@).to_multiset(),
        ) =~= crate::cjson::obj_view(out@).to_multiset());
    }
    out
}

/// Reordering object members.
pub struct JsonUtils;

impl JsonUtils {
    /// Sort an object's members by key, ascending, ASCII case ignored:
    /// the result is ordered and holds exactly the members the object
    /// held.
    pub fn sort_object(object: &mut CJson) -> (r: CJsonResult<()>)
        ensures
            match old(object)@ {
                JsonVal::Obj(ms) => r is Ok && final(object)@ is Obj && keys_sorted(
                    final(object)@->Obj_0,
                    false,
                ) && final(object)@->Obj_0.to_multiset() == ms.to_multiset(),
                _ => r == Err::<(), CJsonError>(CJsonError::TypeError) && final(object)@ == old(
                    object,
                )@,
            },
    {
        let mut taken = CJson::Null;
        core::mem::swap(object, &mut taken);
        match taken {
            CJson::Obj(members) => {
                let sorted = sort_members(members, false);
                *object = CJson::Obj(sorted);
                Ok(())
            },
            other => {
                *object = other;
                Err(CJsonError::TypeError)
            },
        }
    }

    /// Sort an object's members by key, ascending, ASCII case honoured.
    pub fn sort_object_case_sensitive(object: &mut CJson) -> (r: CJsonResult<()>)
        ensures
            match old(object)@ {
                JsonVal::Obj(ms) => r is Ok && final(object)@ is Obj && keys_sorted(
                    final(object)@->Obj_0,
                    true,
                ) && final(object)@->Obj_0.to_multiset() == ms.to_multiset(),
                _ => r == Err::<(), CJsonError>(CJsonError::TypeError) && final(object)@ == old(
                    object,
                )@,
            },
    {
        let mut taken = CJson::Null;
        core::mem::swap(object, &mut taken);
        match taken {
            CJson::Obj(members) => {
                let sorted = sort_members(members, true);
                *object = CJson::Obj(sorted);
                Ok(())
            },
            other => {
                *object = other;
                Err(CJsonError::TypeError)
            },
        }
    }
}

/// JSON Merge Patch over the tree.
pub struct JsonMergePatch;

impl JsonMergePatch {
    /// Apply a merge patch to a target, member keys compared without
    /// regard to ASCII case.  The merged tree is returned; the target is
    /// consumed and left null.
    pub fn apply(target: &mut CJson, patch: &CJson) -> (r: CJsonResult<CJson>)
        ensures
            r is Ok && r->Ok_0@ == spec_merge(old(target)@, patch@, false),
            final(target)@ == JsonVal::Null,
    {
        let mut taken = CJson::Null;
        core::mem::swap(target, &mut taken);
        Ok(merge_node(taken, patch, false))
    }

    /// Apply a merge patch to a target, member keys compared exactly.
    /// The merged tree is returned; the target is consumed and left
    /// null.
    pub fn apply_case_sensitive(target: &mut CJson, patch: &CJson) -> (r: CJsonResult<CJson>)
        ensures
            r is Ok && r->Ok_0@ == spec_merge(old(target)@, patch@, true),
            final(target)@ == JsonVal::Null,
    {
        let mut taken = CJson::Null;
        core::mem::swap(target, &mut taken);
        Ok(merge_node(taken, patch, true))
    }
}

} // verus!
