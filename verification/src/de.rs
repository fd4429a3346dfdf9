//! The deserializer state machine: consumes one JSON tree into one typed
//! value.
//!
//! A [`JsonDeserializer`] holds a stack of nodes currently being read;
//! the top is the current read source.  A read with the empty name takes
//! the top node itself; a named read takes that member of the top object.
//! Entering a named nested record pushes an independent deep copy of the
//! member; leaving a record pops it — but never the root, which only the
//! final teardown removes.  That rule keeps the iteration context of an
//! array of records alive across each element's start and end.
//!
//! Integer reads go through a 64-bit intermediate and are range-checked
//! against the destination width: an out-of-range value is a
//! [`CJsonError::TypeError`], never a silent truncation.  Byte buffers
//! accept hexadecimal text (tried first), raw text bytes, or an array of
//! small integers, each capped by the destination length.

use vstd::prelude::*;

use crate::cjson::CJson;
use crate::cjson::CJsonError;
use crate::cjson::CJsonResult;
use crate::cjson::JsonVal;
use crate::cjson::obj_lookup;
use crate::cjson::obj_view;
use crate::hex::hex_decode;
use crate::hex::is_hex_digit;
use crate::text::dec_str;
use vstd::utf8::encode_utf8;

verus! {

/// The node a read of `name` targets: the top of the stack for the empty
/// name, else that member of the top object (ASCII case ignored, first
/// match).  An empty stack is a protocol violation; a named read from a
/// non-object is a type error; an absent member is not found.
pub open spec fn resolve(frames: Seq<(Seq<char>, JsonVal)>, name: Seq<char>) -> Result<
    JsonVal,
    CJsonError,
> {
    if frames.len() == 0 {
        Err(CJsonError::InvalidOperation)
    } else if name.len() == 0 {
        Ok(frames.last().1)
    } else {
        match frames.last().1 {
            JsonVal::Obj(ms) => match obj_lookup(ms, name, false) {
                Some(v) => Ok(v),
                None => Err(CJsonError::NotFound),
            },
            _ => Err(CJsonError::TypeError),
        }
    }
}

/// The member of a record node a named field read targets: as
/// [`resolve`], within one node.
pub open spec fn field_of(v: JsonVal, fname: Seq<char>) -> Result<JsonVal, CJsonError> {
    match v {
        JsonVal::Obj(ms) => match obj_lookup(ms, fname, false) {
            Some(x) => Ok(x),
            None => Err(CJsonError::NotFound),
        },
        _ => Err(CJsonError::TypeError),
    }
}

/// A named read inside an open context targets that member of the
/// context's node.
pub broadcast proof fn lemma_resolve_named(frames: Seq<(Seq<char>, JsonVal)>, fname: Seq<char>)
    requires
        frames.len() > 0,
        fname.len() > 0,
    ensures
        #[trigger] resolve(frames, fname) == field_of(frames.last().1, fname),
{
}

/// The boolean a node yields.
pub open spec fn de_bool_of(v: JsonVal) -> Result<bool, CJsonError> {
    match v {
        JsonVal::Bool(b) => Ok(b),
        _ => Err(CJsonError::TypeError),
    }
}

/// The unsigned 64-bit integer a node yields: a non-negative number.
pub open spec fn de_u64_of(v: JsonVal) -> Result<u64, CJsonError> {
    match v {
        JsonVal::Num(n) => if 0 <= n <= u64::MAX {
            Ok(n as u64)
        } else {
            Err(CJsonError::TypeError)
        },
        _ => Err(CJsonError::TypeError),
    }
}

/// The signed 64-bit integer a node yields.
pub open spec fn de_i64_of(v: JsonVal) -> Result<i64, CJsonError> {
    match v {
        JsonVal::Num(n) => if i64::MIN <= n <= i64::MAX {
            Ok(n as i64)
        } else {
            Err(CJsonError::TypeError)
        },
        _ => Err(CJsonError::TypeError),
    }
}

/// The text a node yields: a string verbatim, or a number in its decimal
/// form.
pub open spec fn de_string_of(v: JsonVal) -> Result<Seq<char>, CJsonError> {
    match v {
        JsonVal::Str(s) => Ok(s),
        JsonVal::Num(n) => Ok(dec_str(n)),
        _ => Err(CJsonError::TypeError),
    }
}

/// The bytes a node yields into a buffer of length `cap`.  Text that is a
/// non-empty, even run of hexadecimal digits and fits decoded is decoded;
/// other text is copied as its encoded bytes, capped; an array is copied
/// elementwise, capped, each number truncated to its low byte.
pub open spec fn de_bytes_of(v: JsonVal, cap: nat) -> Result<Seq<u8>, CJsonError> {
    match v {
        JsonVal::Str(s) => {
            if s.len() > 0 && s.len() % 2 == 0 && (forall|i: int|
                0 <= i < s.len() ==> is_hex_digit(#[trigger] s[i])) && s.len() / 2 <= cap {
                Ok(hex_decode(s))
            } else {
                let bytes = encode_utf8(s);
                Ok(bytes.take(if bytes.len() <= cap { bytes.len() as int } else { cap as int }))
            }
        },
        JsonVal::Arr(elems) => {
            let n = if elems.len() <= cap { elems.len() as int } else { cap as int };
            if forall|i: int| 0 <= i < n ==> (#[trigger] elems[i]) is Num {
                Ok(Seq::new(n as nat, |i: int| (elems[i]->Num_0 % 256) as u8))
            } else {
                Err(CJsonError::TypeError)
            }
        },
        _ => Err(CJsonError::TypeError),
    }
}

/// The law of the byte-buffer round trip: a buffer written as
/// hexadecimal text reads back unchanged into a destination of at least
/// its length.
pub proof fn lemma_bytes_node_roundtrip(b: Seq<u8>, cap: nat)
    requires
        b.len() <= cap,
    ensures
        de_bytes_of(JsonVal::Str(crate::hex::hex_of(b)), cap) == Ok::<Seq<u8>, CJsonError>(b),
{
    crate::hex::lemma_hex_of_len(b);
    if b.len() > 0 {
        crate::hex::lemma_hex_of_digits(b);
        crate::hex::lemma_hex_roundtrip(b);
    } else {
        assert(crate::hex::hex_of(b) =~= Seq::<char>::empty());
        assert(encode_utf8(Seq::<char>::empty()) =~= Seq::<u8>::empty());
        assert(de_bytes_of(JsonVal::Str(crate::hex::hex_of(b)), cap)->Ok_0 =~= b);
    }
}

/// A deserializer: the per-pass stack of (context name, node) pairs.
pub struct JsonDeserializer {
    stack: Vec<(Vec<char>, CJson)>,
}

impl View for JsonDeserializer {
    type V = Seq<(Seq<char>, JsonVal)>;

    closed spec fn view(&self) -> Seq<(Seq<char>, JsonVal)> {
        obj_view(self.stack@)
    }
}

impl JsonDeserializer {
    /// A borrow of the node a read of `name` targets.
    fn get_item(&self, name: &str) -> (r: Result<&CJson, CJsonError>)
        ensures
            match resolve(self@, name@) {
                Ok(v) => r is Ok && r->Ok_0@ == v,
                Err(e) => r == Err::<&CJson, CJsonError>(e),
            },
    {
        broadcast use crate::cjson::group_json_view_lemmas;

        if self.stack.len() == 0 {
            return Err(CJsonError::InvalidOperation);
        }
        proof {
            crate::cjson::lemma_obj_view_index(self.stack@, self.stack@.len() - 1);
        }
        let top = &self.stack[self.stack.len() - 1].1;
        if name.is_empty() {
            Ok(top)
        } else {
            top.get_object_item(name)
        }
    }

    /// Read a boolean.
    pub fn deserialize_bool(&self, name: &str) -> (r: CJsonResult<bool>)
        ensures
            r == match resolve(self@, name@) {
                Ok(v) => de_bool_of(v),
                Err(e) => Err::<bool, CJsonError>(e),
            },
    {
        match self.get_item(name) {
            Ok(item) => item.get_bool_value(),
            Err(e) => Err(e),
        }
    }

    /// Read an unsigned 64-bit integer.
    pub fn deserialize_u64(&self, name: &str) -> (r: CJsonResult<u64>)
        ensures
            r == match resolve(self@, name@) {
                Ok(v) => de_u64_of(v),
                Err(e) => Err::<u64, CJsonError>(e),
            },
    {
        match self.get_item(name) {
            Ok(item) => match item.get_int_value() {
                Ok(n) => if n >= 0 {
                    Ok(n as u64)
                } else {
                    Err(CJsonError::TypeError)
                },
                Err(e) => Err(e),
            },
            Err(e) => Err(e),
        }
    }

    /// Read a signed 64-bit integer.
    pub fn deserialize_i64(&self, name: &str) -> (r: CJsonResult<i64>)
        ensures
            r == match resolve(self@, name@) {
                Ok(v) => de_i64_of(v),
                Err(e) => Err::<i64, CJsonError>(e),
            },
    {
        match self.get_item(name) {
            Ok(item) => item.get_int_value(),
            Err(e) => Err(e),
        }
    }

    /// Read an 8-bit unsigned integer: a 64-bit read, range-checked.
    pub fn deserialize_u8(&self, name: &str) -> (r: CJsonResult<u8>)
        ensures
            r == match resolve(self@, name@) {
                Ok(v) => match de_u64_of(v) {
                    Ok(x) => if x <= u8::MAX {
                        Ok(x as u8)
                    } else {
                        Err::<u8, CJsonError>(CJsonError::TypeError)
                    },
                    Err(e) => Err::<u8, CJsonError>(e),
                },
                Err(e) => Err::<u8, CJsonError>(e),
            },
    {
        match self.deserialize_u64(name) {
            Ok(x) => if x <= u8::MAX as u64 {
                Ok(x as u8)
            } else {
                Err(CJsonError::TypeError)
            },
            Err(e) => Err(e),
        }
    }

    /// Read a 16-bit unsigned integer: a 64-bit read, range-checked.
    pub fn deserialize_u16(&self, name: &str) -> (r: CJsonResult<u16>)
        ensures
            r == match resolve(self@, name@) {
                Ok(v) => match de_u64_of(v) {
                    Ok(x) => if x <= u16::MAX {
                        Ok(x as u16)
                    } else {
                        Err::<u16, CJsonError>(CJsonError::TypeError)
                    },
                    Err(e) => Err::<u16, CJsonError>(e),
                },
                Err(e) => Err::<u16, CJsonError>(e),
            },
    {
        match self.deserialize_u64(name) {
            Ok(x) => if x <= u16::MAX as u64 {
                Ok(x as u16)
            } else {
                Err(CJsonError::TypeError)
            },
            Err(e) => Err(e),
        }
    }

    /// Read a 32-bit unsigned integer: a 64-bit read, range-checked.
    pub fn deserialize_u32(&self, name: &str) -> (r: CJsonResult<u32>)
        ensures
            r == match resolve(self@, name@) {
                Ok(v) => match de_u64_of(v) {
                    Ok(x) => if x <= u32::MAX {
                        Ok(x as u32)
                    } else {
                        Err::<u32, CJsonError>(CJsonError::TypeError)
                    },
                    Err(e) => Err::<u32, CJsonError>(e),
                },
                Err(e) => Err::<u32, CJsonError>(e),
            },
    {
        match self.deserialize_u64(name) {
            Ok(x) => if x <= u32::MAX as u64 {
                Ok(x as u32)
            } else {
                Err(CJsonError::TypeError)
            },
            Err(e) => Err(e),
        }
    }

    /// Read a 128-bit unsigned integer: a 64-bit read, widened.
    pub fn deserialize_u128(&self, name: &str) -> (r: CJsonResult<u128>)
        ensures
            r == match resolve(self@, name@) {
                Ok(v) => match de_u64_of(v) {
                    Ok(x) => Ok::<u128, CJsonError>(x as u128),
                    Err(e) => Err::<u128, CJsonError>(e),
                },
                Err(e) => Err::<u128, CJsonError>(e),
            },
    {
        match self.deserialize_u64(name) {
            Ok(x) => Ok(x as u128),
            Err(e) => Err(e),
        }
    }

    /// Read an 8-bit signed integer: a 64-bit read, range-checked.
    pub fn deserialize_i8(&self, name: &str) -> (r: CJsonResult<i8>)
        ensures
            r == match resolve(self@, name@) {
                Ok(v) => match de_i64_of(v) {
                    Ok(x) => if i8::MIN <= x <= i8::MAX {
                        Ok(x as i8)
                    } else {
                        Err::<i8, CJsonError>(CJsonError::TypeError)
                    },
                    Err(e) => Err::<i8, CJsonError>(e),
                },
                Err(e) => Err::<i8, CJsonError>(e),
            },
    {
        match self.deserialize_i64(name) {
            Ok(x) => if i8::MIN as i64 <= x && x <= i8::MAX as i64 {
                Ok(x as i8)
            } else {
                Err(CJsonError::TypeError)
            },
            Err(e) => Err(e),
        }
    }

    /// Read a 16-bit signed integer: a 64-bit read, range-checked.
    pub fn deserialize_i16(&self, name: &str) -> (r: CJsonResult<i16>)
        ensures
            r == match resolve(self@, name@) {
                Ok(v) => match de_i64_of(v) {
                    Ok(x) => if i16::MIN <= x <= i16::MAX {
                        Ok(x as i16)
                    } else {
                        Err::<i16, CJsonError>(CJsonError::TypeError)
                    },
                    Err(e) => Err::<i16, CJsonError>(e),
                },
                Err(e) => Err::<i16, CJsonError>(e),
            },
    {
        match self.deserialize_i64(name) {
            Ok(x) => if i16::MIN as i64 <= x && x <= i16::MAX as i64 {
                Ok(x as i16)
            } else {
                Err(CJsonError::TypeError)
            },
            Err(e) => Err(e),
        }
    }

    /// Read a 32-bit signed integer: a 64-bit read, range-checked.
    pub fn deserialize_i32(&self, name: &str) -> (r: CJsonResult<i32>)
        ensures
            r == match resolve(self@, name@) {
                Ok(v) => match de_i64_of(v) {
                    Ok(x) => if i32::MIN <= x <= i32::MAX {
                        Ok(x as i32)
                    } else {
                        Err::<i32, CJsonError>(CJsonError::TypeError)
                    },
                    Err(e) => Err::<i32, CJsonError>(e),
                },
                Err(e) => Err::<i32, CJsonError>(e),
            },
    {
        match self.deserialize_i64(name) {
            Ok(x) => if i32::MIN as i64 <= x && x <= i32::MAX as i64 {
                Ok(x as i32)
            } else {
                Err(CJsonError::TypeError)
            },
            Err(e) => Err(e),
        }
    }

    /// Read a 128-bit signed integer: a 64-bit read, widened.
    pub fn deserialize_i128(&self, name: &str) -> (r: CJsonResult<i128>)
        ensures
            r == match resolve(self@, name@) {
                Ok(v) => match de_i64_of(v) {
                    Ok(x) => Ok::<i128, CJsonError>(x as i128),
                    Err(e) => Err::<i128, CJsonError>(e),
                },
                Err(e) => Err::<i128, CJsonError>(e),
            },
    {
        match self.deserialize_i64(name) {
            Ok(x) => Ok(x as i128),
            Err(e) => Err(e),
        }
    }

    /// Read text: a string verbatim, a number in its decimal form.
    pub fn deserialize_string(&self, name: &str) -> (r: CJsonResult<String>)
        ensures
            match resolve(self@, name@) {
                Ok(v) => match de_string_of(v) {
                    Ok(s) => r is Ok && r->Ok_0@ == s,
                    Err(e) => r == Err::<String, CJsonError>(e),
                },
                Err(e) => r == Err::<String, CJsonError>(e),
            },
    {
        let item = match self.get_item(name) {
            Ok(item) => item,
            Err(e) => {
                return Err(e);
            },
        };
        match item {
            CJson::Str(s) => Ok(crate::cjson::chars_to_string(s)),
            CJson::Num(n) => {
                let chars = crate::text::i64_to_dec_chars(*n);
                Ok(crate::cjson::chars_to_string(&chars))
            },
            _ => Err(CJsonError::TypeError),
        }
    }

    /// Read a byte buffer of at most `cap` bytes, as [`de_bytes_of`]
    /// says: hexadecimal text is decoded, other text copied byte for
    /// byte, an array of numbers copied elementwise; the buffer length
    /// caps the copy.
    pub fn deserialize_bytes(&self, name: &str, cap: usize) -> (r: CJsonResult<Vec<u8>>)
        ensures
            match resolve(self@, name@) {
                Ok(v) => match de_bytes_of(v, cap as nat) {
                    Ok(bytes) => r is Ok && r->Ok_0@ == bytes && bytes.len() <= cap,
                    Err(e) => r == Err::<Vec<u8>, CJsonError>(e),
                },
                Err(e) => r == Err::<Vec<u8>, CJsonError>(e),
            },
    {
        let item = match self.get_item(name) {
            Ok(item) => item,
            Err(e) => {
                return Err(e);
            },
        };
        match item {
            CJson::Str(s) => {
                let hexable = s.len() > 0 && s.len() % 2 == 0 && crate::hex::all_hex_digits(s)
                    && s.len() / 2 <= cap;
                if hexable {
                    let out = crate::hex::hex_decode_chars(s);
                    proof {
                        crate::hex::lemma_hex_decode_len(s@);
                    }
                    Ok(out)
                } else {
                    let text = crate::cjson::chars_to_string(s);
                    let bytes = text.as_str().as_bytes();
                    let n = if bytes.len() <= cap {
                        bytes.len()
                    } else {
                        cap
                    };
                    let prefix = vstd::slice::slice_subrange(bytes, 0, n);
                    let out = vstd::slice::slice_to_vec(prefix);
                    proof {
                        assert(out@ =~= encode_utf8(s@).take(
                            if encode_utf8(s@).len() <= cap as nat {
                                encode_utf8(s@).len() as int
                            } else {
                                cap as int
                            },
                        ));
                    }
                    Ok(out)
                }
            },
            CJson::Arr(items) => {
                broadcast use crate::cjson::group_json_view_lemmas;

                let ghost elems = crate::cjson::arr_view(items@);
                let n = if items.len() <= cap {
                    items.len()
                } else {
                    cap
                };
                let mut out: Vec<u8> = Vec::new();
                let mut k: usize = 0;
                while k < n
                    invariant
                        resolve(self@, name@) == Ok::<JsonVal, CJsonError>(JsonVal::Arr(elems)),
                        elems == crate::cjson::arr_view(items@),
                        elems.len() == items@.len(),
                        n <= items@.len(),
                        n as int == (if elems.len() <= cap as nat {
                            elems.len() as int
                        } else {
                            cap as int
                        }),
                        k <= n,
                        out@.len() == k,
                        forall|i: int| 0 <= i < k ==> (#[trigger] elems[i]) is Num,
                        forall|i: int|
                            0 <= i < k ==> #[trigger] out@[i] == (elems[i]->Num_0 % 256) as u8,
                    decreases n - k,
                {
                    proof {
                        crate::cjson::lemma_arr_view_index(items@, k as int);
                    }
                    match &items[k] {
                        CJson::Num(x) => {
                            let byte: u8 = if *x >= 0 {
                                ((*x as u64) % 256) as u8
                            } else {
                                let magnitude: u64 = if *x == i64::MIN {
                                    9223372036854775808u64
                                } else {
                                    (-*x) as u64
                                };
                                let low = magnitude % 256;
                                proof {
                                    let m = magnitude as int;
                                    let n = *x as int;
                                    vstd::arithmetic::div_mod::lemma_fundamental_div_mod(m, 256);
                                    if m % 256 == 0 {
                                        vstd::arithmetic::div_mod::lemma_fundamental_div_mod_converse_mod(
                                            n,
                                            256,
                                            -(m / 256),
                                            0,
                                        );
                                    } else {
                                        vstd::arithmetic::div_mod::lemma_fundamental_div_mod_converse_mod(
                                            n,
                                            256,
                                            -(m / 256) - 1,
                                            256 - (m % 256),
                                        );
                                    }
                                }
                                if low == 0 {
                                    0u8
                                } else {
                                    (256 - low) as u8
                                }
                            };
                            proof {
                                assert(byte as int == (*x as int) % 256);
                                assert(elems[k as int] == JsonVal::Num(*x as int));
                            }
                            out.push(byte);
                        },
                        _ => {
                            proof {
                                assert(!((elems[k as int]) is Num));
                                assert(de_bytes_of(JsonVal::Arr(elems), cap as nat) == Err::<
                                    Seq<u8>,
                                    CJsonError,
                                >(CJsonError::TypeError));
                            }
                            return Err(CJsonError::TypeError);
                        },
                    }
                    k += 1;
                }
                proof {
                    let m = if elems.len() <= cap as nat {
                        elems.len() as int
                    } else {
                        cap as int
                    };
                    assert(out@ =~= Seq::new(m as nat, |i: int| (elems[i]->Num_0 % 256) as u8));
                }
                Ok(out)
            },
            _ => Err(CJsonError::TypeError),
        }
    }

    /// Open a named nested record: an independent deep copy of the member
    /// becomes the new read source.  The empty name re-enters the current
    /// context without deepening the stack.
    pub fn deserialize_struct_start(&mut self, name: &str) -> (r: CJsonResult<()>)
        ensures
            name@.len() == 0 ==> r == Ok::<(), CJsonError>(()) && final(self)@ == old(self)@,
            name@.len() > 0 ==> match resolve(old(self)@, name@) {
                Ok(v) => r == Ok::<(), CJsonError>(()) && final(self)@ == old(self)@.push(
                    (name@, v),
                ),
                Err(e) => r == Err::<(), CJsonError>(e) && final(self)@ == old(self)@,
            },
    {
        broadcast use crate::cjson::group_json_view_lemmas;

        if name.is_empty() {
            return Ok(());
        }
        let copy = match self.get_item(name) {
            Ok(item) => match item.duplicate(true) {
                Ok(c) => c,
                Err(e) => {
                    return Err(e);
                },
            },
            Err(e) => {
                return Err(e);
            },
        };
        let key = crate::cjson::str_to_chars(name);
        self.stack.push((key, copy));
        proof {
            assert(self@ =~= old(self)@.push((name@, resolve(old(self)@, name@)->Ok_0)));
        }
        Ok(())
    }

    /// Close a nested record: pop the current context, unless only the
    /// root remains — the root is removed only by the final teardown.
    /// Popping on every close would corrupt the iteration context of an
    /// array of records.
    pub fn deserialize_struct_end(&mut self) -> (r: CJsonResult<()>)
        ensures
            r == Ok::<(), CJsonError>(()),
            final(self)@ == if old(self)@.len() > 1 {
                old(self)@.drop_last()
            } else {
                old(self)@
            },
    {
        broadcast use crate::cjson::group_json_view_lemmas;

        if self.stack.len() > 1 {
            let ghost before = self.stack@;
            let popped = self.stack.pop();
            proof {
                assert(self@ =~= obj_view(before).drop_last());
            }
        }
        Ok(())
    }

    /// Tear down the pass: every node still referenced by the stack is
    /// released.
    pub fn drop(&mut self)
        ensures
            final(self)@.len() == 0,
    {
        broadcast use crate::cjson::group_json_view_lemmas;

        self.stack.clear();
    }
}

/// A typed value that can read its own shape from the deserializer.
///
/// `de_err` says on which nodes the read succeeds and with which error it
/// fails; `decodes_to` says which value a node yields.  `deserialize`
/// resolves `name` against the current context, reads that node, and
/// leaves the context stack as it found it when it succeeds.
pub trait Deserialize: Sized {
    spec fn de_err(v: JsonVal) -> Result<(), CJsonError>;

    spec fn decodes_to(v: JsonVal, r: Self) -> bool;

    fn deserialize(de: &mut JsonDeserializer, name: &str) -> (r: Result<Self, CJsonError>)
        ensures
            match resolve(old(de)@, name@) {
                Ok(v) => match Self::de_err(v) {
                    Ok(u) => r is Ok && Self::decodes_to(v, r->Ok_0) && final(de)@ == old(de)@,
                    Err(e) => r == Err::<Self, CJsonError>(e),
                },
                Err(e) => r == Err::<Self, CJsonError>(e) && final(de)@ == old(de)@,
            },
    ;
}

impl Deserialize for bool {
    open spec fn de_err(v: JsonVal) -> Result<(), CJsonError> {
        match de_bool_of(v) {
            Ok(_) => Ok(()),
            Err(e) => Err(e),
        }
    }

    open spec fn decodes_to(v: JsonVal, r: Self) -> bool {
        de_bool_of(v) == Ok::<bool, CJsonError>(r)
    }

    fn deserialize(de: &mut JsonDeserializer, name: &str) -> (r: Result<Self, CJsonError>) {
        de.deserialize_bool(name)
    }
}

impl Deserialize for u8 {
    open spec fn de_err(v: JsonVal) -> Result<(), CJsonError> {
        match de_u64_of(v) {
            Ok(x) => if x <= u8::MAX {
                Ok(())
            } else {
                Err(CJsonError::TypeError)
            },
            Err(e) => Err(e),
        }
    }

    open spec fn decodes_to(v: JsonVal, r: Self) -> bool {
        match de_u64_of(v) {
            Ok(x) => x <= u8::MAX && r == x as u8,
            Err(_) => false,
        }
    }

    fn deserialize(de: &mut JsonDeserializer, name: &str) -> (r: Result<Self, CJsonError>) {
        de.deserialize_u8(name)
    }
}

impl Deserialize for u16 {
    open spec fn de_err(v: JsonVal) -> Result<(), CJsonError> {
        match de_u64_of(v) {
            Ok(x) => if x <= u16::MAX {
                Ok(())
            } else {
                Err(CJsonError::TypeError)
            },
            Err(e) => Err(e),
        }
    }

    open spec fn decodes_to(v: JsonVal, r: Self) -> bool {
        match de_u64_of(v) {
            Ok(x) => x <= u16::MAX && r == x as u16,
            Err(_) => false,
        }
    }

    fn deserialize(de: &mut JsonDeserializer, name: &str) -> (r: Result<Self, CJsonError>) {
        de.deserialize_u16(name)
    }
}

impl Deserialize for u32 {
    open spec fn de_err(v: JsonVal) -> Result<(), CJsonError> {
        match de_u64_of(v) {
            Ok(x) => if x <= u32::MAX {
                Ok(())
            } else {
                Err(CJsonError::TypeError)
            },
            Err(e) => Err(e),
        }
    }

    open spec fn decodes_to(v: JsonVal, r: Self) -> bool {
        match de_u64_of(v) {
            Ok(x) => x <= u32::MAX && r == x as u32,
            Err(_) => false,
        }
    }

    fn deserialize(de: &mut JsonDeserializer, name: &str) -> (r: Result<Self, CJsonError>) {
        de.deserialize_u32(name)
    }
}

impl Deserialize for u64 {
    open spec fn de_err(v: JsonVal) -> Result<(), CJsonError> {
        match de_u64_of(v) {
            Ok(_) => Ok(()),
            Err(e) => Err(e),
        }
    }

    open spec fn decodes_to(v: JsonVal, r: Self) -> bool {
        de_u64_of(v) == Ok::<u64, CJsonError>(r)
    }

    fn deserialize(de: &mut JsonDeserializer, name: &str) -> (r: Result<Self, CJsonError>) {
        de.deserialize_u64(name)
    }
}

impl Deserialize for u128 {
    open spec fn de_err(v: JsonVal) -> Result<(), CJsonError> {
        match de_u64_of(v) {
            Ok(_) => Ok(()),
            Err(e) => Err(e),
        }
    }

    open spec fn decodes_to(v: JsonVal, r: Self) -> bool {
        match de_u64_of(v) {
            Ok(x) => r == x as u128,
            Err(_) => false,
        }
    }

    fn deserialize(de: &mut JsonDeserializer, name: &str) -> (r: Result<Self, CJsonError>) {
        de.deserialize_u128(name)
    }
}

impl Deserialize for i8 {
    open spec fn de_err(v: JsonVal) -> Result<(), CJsonError> {
        match de_i64_of(v) {
            Ok(x) => if i8::MIN <= x <= i8::MAX {
                Ok(())
            } else {
                Err(CJsonError::TypeError)
            },
            Err(e) => Err(e),
        }
    }

    open spec fn decodes_to(v: JsonVal, r: Self) -> bool {
        match de_i64_of(v) {
            Ok(x) => i8::MIN <= x <= i8::MAX && r == x as i8,
            Err(_) => false,
        }
    }

    fn deserialize(de: &mut JsonDeserializer, name: &str) -> (r: Result<Self, CJsonError>) {
        de.deserialize_i8(name)
    }
}

impl Deserialize for i16 {
    open spec fn de_err(v: JsonVal) -> Result<(), CJsonError> {
        match de_i64_of(v) {
            Ok(x) => if i16::MIN <= x <= i16::MAX {
                Ok(())
            } else {
                Err(CJsonError::TypeError)
            },
            Err(e) => Err(e),
        }
    }

    open spec fn decodes_to(v: JsonVal, r: Self) -> bool {
        match de_i64_of(v) {
            Ok(x) => i16::MIN <= x <= i16::MAX && r == x as i16,
            Err(_) => false,
        }
    }

    fn deserialize(de: &mut JsonDeserializer, name: &str) -> (r: Result<Self, CJsonError>) {
        de.deserialize_i16(name)
    }
}

impl Deserialize for i32 {
    open spec fn de_err(v: JsonVal) -> Result<(), CJsonError> {
        match de_i64_of(v) {
            Ok(x) => if i32::MIN <= x <= i32::MAX {
                Ok(())
            } else {
                Err(CJsonError::TypeError)
            },
            Err(e) => Err(e),
        }
    }

    open spec fn decodes_to(v: JsonVal, r: Self) -> bool {
        match de_i64_of(v) {
            Ok(x) => i32::MIN <= x <= i32::MAX && r == x as i32,
            Err(_) => false,
        }
    }

    fn deserialize(de: &mut JsonDeserializer, name: &str) -> (r: Result<Self, CJsonError>) {
        de.deserialize_i32(name)
    }
}

impl Deserialize for i64 {
    open spec fn de_err(v: JsonVal) -> Result<(), CJsonError> {
        match de_i64_of(v) {
            Ok(_) => Ok(()),
            Err(e) => Err(e),
        }
    }

    open spec fn decodes_to(v: JsonVal, r: Self) -> bool {
        de_i64_of(v) == Ok::<i64, CJsonError>(r)
    }

    fn deserialize(de: &mut JsonDeserializer, name: &str) -> (r: Result<Self, CJsonError>) {
        de.deserialize_i64(name)
    }
}

impl Deserialize for i128 {
    open spec fn de_err(v: JsonVal) -> Result<(), CJsonError> {
        match de_i64_of(v) {
            Ok(_) => Ok(()),
            Err(e) => Err(e),
        }
    }

    open spec fn decodes_to(v: JsonVal, r: Self) -> bool {
        match de_i64_of(v) {
            Ok(x) => r == x as i128,
            Err(_) => false,
        }
    }

    fn deserialize(de: &mut JsonDeserializer, name: &str) -> (r: Result<Self, CJsonError>) {
        de.deserialize_i128(name)
    }
}

impl Deserialize for String {
    open spec fn de_err(v: JsonVal) -> Result<(), CJsonError> {
        match de_string_of(v) {
            Ok(_) => Ok(()),
            Err(e) => Err(e),
        }
    }

    open spec fn decodes_to(v: JsonVal, r: Self) -> bool {
        match de_string_of(v) {
            Ok(s) => r@ == s,
            Err(_) => false,
        }
    }

    fn deserialize(de: &mut JsonDeserializer, name: &str) -> (r: Result<Self, CJsonError>) {
        de.deserialize_string(name)
    }
}

/// Whether every element of a JSON array reads as a `T`, or the first
/// error among them.
pub open spec fn de_seq_err<T: Deserialize>(elems: Seq<JsonVal>) -> Result<(), CJsonError>
    decreases elems.len(),
{
    if elems.len() == 0 {
        Ok(())
    } else {
        match T::de_err(elems[0]) {
            Err(e) => Err(e),
            Ok(_) => de_seq_err::<T>(elems.drop_first()),
        }
    }
}

pub proof fn lemma_de_seq_all_ok<T: Deserialize>(elems: Seq<JsonVal>)
    requires
        forall|i: int| 0 <= i < elems.len() ==> (#[trigger] T::de_err(elems[i])) is Ok,
    ensures
        de_seq_err::<T>(elems) == Ok::<(), CJsonError>(()),
    decreases elems.len(),
{
    if elems.len() > 0 {
        lemma_de_seq_all_ok::<T>(elems.drop_first());
    }
}

pub proof fn lemma_de_seq_first_err<T: Deserialize>(elems: Seq<JsonVal>, k: int, e: CJsonError)
    requires
        0 <= k < elems.len(),
        forall|i: int| 0 <= i < k ==> (#[trigger] T::de_err(elems[i])) is Ok,
        T::de_err(elems[k]) == Err::<(), CJsonError>(e),
    ensures
        de_seq_err::<T>(elems) == Err::<(), CJsonError>(e),
    decreases k,
{
    if k > 0 {
        lemma_de_seq_first_err::<T>(elems.drop_first(), k - 1, e);
    }
}

impl JsonDeserializer {
    /// Read a variable-length sequence: resolve `name` as an array, then
    /// read each element in order from a deep copy pushed as its own
    /// context.  The first failing element aborts the pass; on success
    /// the stack is as it was.
    pub fn deserialize_vec<T: Deserialize>(&mut self, name: &str) -> (r: Result<
        Vec<T>,
        CJsonError,
    >)
        ensures
            match resolve(old(self)@, name@) {
                Err(e) => r == Err::<Vec<T>, CJsonError>(e) && final(self)@ == old(self)@,
                Ok(v) => match v {
                    JsonVal::Arr(elems) => match de_seq_err::<T>(elems) {
                        Ok(u) => r is Ok && final(self)@ == old(self)@ && r->Ok_0@.len()
                            == elems.len() && (forall|i: int|
                            0 <= i < elems.len() ==> T::decodes_to(
                                elems[i],
                                #[trigger] r->Ok_0@[i],
                            )),
                        Err(e) => r == Err::<Vec<T>, CJsonError>(e),
                    },
                    _ => r == Err::<Vec<T>, CJsonError>(CJsonError::TypeError) && final(self)@
                        == old(self)@,
                },
            },
    {
        broadcast use crate::cjson::group_json_view_lemmas;

        let ghost s0 = self@;
        let arr_copy = match self.get_item(name) {
            Ok(item) => {
                if !item.is_array() {
                    return Err(CJsonError::TypeError);
                }
                match item.duplicate(true) {
                    Ok(c) => c,
                    Err(e) => {
                        return Err(e);
                    },
                }
            },
            Err(e) => {
                return Err(e);
            },
        };
        let items = match arr_copy {
            CJson::Arr(items) => items,
            _ => {
                return Err(CJsonError::TypeError);
            },
        };
        let ghost elems = crate::cjson::arr_view(items@);
        let mut out: Vec<T> = Vec::new();
        let mut k: usize = 0;
        while k < items.len()
            invariant
                s0 == old(self)@,
                self@ == s0,
                elems == crate::cjson::arr_view(items@),
                elems.len() == items@.len(),
                resolve(s0, name@) == Ok::<JsonVal, CJsonError>(JsonVal::Arr(elems)),
                k <= items@.len(),
                out@.len() == k,
                forall|i: int| 0 <= i < k ==> (#[trigger] T::de_err(elems[i])) is Ok,
                forall|i: int| 0 <= i < k ==> T::decodes_to(elems[i], #[trigger] out@[i]),
            decreases items@.len() - k,
        {
            proof {
                crate::cjson::lemma_arr_view_index(items@, k as int);
            }
            let elem_copy = match items[k].duplicate(true) {
                Ok(c) => c,
                Err(e) => {
                    return Err(e);
                },
            };
            let frame_name: Vec<char> = Vec::new();
            let ghost pre = self.stack@;
            self.stack.push((frame_name, elem_copy));
            let ghost pushed = self@;
            proof {
                reveal_strlit("");
                assert(self.stack@.drop_last() =~= pre);
                assert(self.stack@.last().0@ =~= Seq::<char>::empty());
                assert(pushed == obj_view(pre).push(
                    (self.stack@.last().0@, crate::cjson::node_view(self.stack@.last().1)),
                ));
                assert(pushed =~= s0.push((Seq::<char>::empty(), elems[k as int])));
                assert(resolve(pushed, ""@) == Ok::<JsonVal, CJsonError>(elems[k as int]));
            }
            let item_r = T::deserialize(self, "");
            match item_r {
                Err(e) => {
                    proof {
                        if T::de_err(elems[k as int]) is Ok {
                            assert(false);
                        }
                        lemma_de_seq_first_err::<T>(elems, k as int, e);
                    }
                    return Err(e);
                },
                Ok(val) => {
                    proof {
                        if T::de_err(elems[k as int]) is Err {
                            assert(false);
                        }
                        assert(self@.len() == s0.len() + 1);
                        crate::cjson::lemma_obj_view_len(self.stack@);
                    }
                    let popped = self.stack.pop();
                    proof {
                        assert(self@ =~= pushed.drop_last());
                        assert(self@ =~= s0);
                    }
                    out.push(val);
                },
            }
            k += 1;
        }
        proof {
            lemma_de_seq_all_ok::<T>(elems);
        }
        Ok(out)
    }

    /// Read a fixed-size array of exactly `n` elements: a sequence read
    /// whose length must match — any other length is an invalid
    /// operation, never a truncation or a padding.
    pub fn deserialize_array<T: Deserialize>(&mut self, name: &str, n: usize) -> (r: Result<
        Vec<T>,
        CJsonError,
    >)
        ensures
            match resolve(old(self)@, name@) {
                Err(e) => r == Err::<Vec<T>, CJsonError>(e) && final(self)@ == old(self)@,
                Ok(v) => match v {
                    JsonVal::Arr(elems) => match de_seq_err::<T>(elems) {
                        Ok(u) => if elems.len() == n {
                            r is Ok && final(self)@ == old(self)@ && r->Ok_0@.len() == n && (
                            forall|i: int|
                                0 <= i < elems.len() ==> T::decodes_to(
                                    elems[i],
                                    #[trigger] r->Ok_0@[i],
                                ))
                        } else {
                            r == Err::<Vec<T>, CJsonError>(CJsonError::InvalidOperation)
                                && final(self)@ == old(self)@
                        },
                        Err(e) => r == Err::<Vec<T>, CJsonError>(e),
                    },
                    _ => r == Err::<Vec<T>, CJsonError>(CJsonError::TypeError) && final(self)@
                        == old(self)@,
                },
            },
    {
        match self.deserialize_vec::<T>(name) {
            Ok(v) => {
                if v.len() == n {
                    Ok(v)
                } else {
                    Err(CJsonError::InvalidOperation)
                }
            },
            Err(e) => Err(e),
        }
    }

    /// Read one named field of the current record.
    pub fn deserialize_field<T: Deserialize>(&mut self, name: &str) -> (r: Result<T, CJsonError>)
        ensures
            match resolve(old(self)@, name@) {
                Ok(v) => match T::de_err(v) {
                    Ok(u) => r is Ok && T::decodes_to(v, r->Ok_0) && final(self)@ == old(self)@,
                    Err(e) => r == Err::<T, CJsonError>(e),
                },
                Err(e) => r == Err::<T, CJsonError>(e) && final(self)@ == old(self)@,
            },
    {
        T::deserialize(self, name)
    }
}

impl JsonDeserializer {
    /// Parse a JSON text and seat the tree as the root read context.
    pub fn parse(json: &str) -> (r: CJsonResult<Self>)
        ensures
            match crate::parse::spec_parse(json@) {
                Some(t) => r is Ok && r->Ok_0@ == seq![(Seq::<char>::empty(), t)],
                None => r == Err::<JsonDeserializer, CJsonError>(CJsonError::ParseError),
            },
    {
        broadcast use crate::cjson::group_json_view_lemmas;

        let tree = match CJson::parse(json) {
            Ok(t) => t,
            Err(e) => {
                return Err(e);
            },
        };
        let root_name: Vec<char> = Vec::new();
        let mut stack: Vec<(Vec<char>, CJson)> = Vec::new();
        stack.push((root_name, tree));
        let de = JsonDeserializer { stack };
        proof {
            crate::cjson::lemma_obj_view_len(de.stack@);
            crate::cjson::lemma_obj_view_index(de.stack@, 0);
            assert(de@ =~= seq![
                (Seq::<char>::empty(), crate::parse::spec_parse(json@)->0),
            ]);
        }
        Ok(de)
    }
}

/// Deserialize a typed value from JSON text: the text is parsed, the
/// tree seated as the root context, the destination type's visiting
/// operation driven under the empty root name, and every node the pass
/// still holds released, whether it succeeded or failed.
pub fn from_json<T: Deserialize>(json: &str) -> (r: CJsonResult<T>)
    ensures
        match crate::parse::spec_parse(json@) {
            None => r == Err::<T, CJsonError>(CJsonError::ParseError),
            Some(t) => match T::de_err(t) {
                Ok(u) => r is Ok && T::decodes_to(t, r->Ok_0),
                Err(e) => r == Err::<T, CJsonError>(e),
            },
        },
{
    proof {
        reveal_strlit("");
    }
    let mut de = match JsonDeserializer::parse(json) {
        Ok(d) => d,
        Err(e) => {
            return Err(e);
        },
    };
    let out = T::deserialize(&mut de, "");
    de.drop();
    out
}

impl<T: Deserialize> Deserialize for Vec<T> {
    open spec fn de_err(v: JsonVal) -> Result<(), CJsonError> {
        match v {
            JsonVal::Arr(elems) => de_seq_err::<T>(elems),
            _ => Err(CJsonError::TypeError),
        }
    }

    open spec fn decodes_to(v: JsonVal, r: Self) -> bool {
        match v {
            JsonVal::Arr(elems) => r@.len() == elems.len() && (forall|i: int|
                0 <= i < elems.len() ==> T::decodes_to(elems[i], #[trigger] r@[i])),
            _ => false,
        }
    }

    fn deserialize(de: &mut JsonDeserializer, name: &str) -> (r: Result<Self, CJsonError>) {
        de.deserialize_vec(name)
    }
}

} // verus!
