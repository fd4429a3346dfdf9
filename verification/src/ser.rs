//! The serializer state machine: converts one typed value into exactly
//! one JSON tree.
//!
//! A [`JsonSerializer`] holds a stack of open containers.  Every write
//! targets the top of the stack: an open array receives values by
//! positional append (the field name is ignored), an open object receives
//! them under the field name.  Entering a nested record pushes a fresh
//! object; leaving it pops the frame and hands the finished node to the
//! container below — an array element is appended, never inserted under a
//! duplicate key.  When the root frame is popped the finished tree moves
//! to a harvest slot, from which [`JsonSerializer::print_unformatted`]
//! renders it.
//!
//! Numbers are 64-bit signed integers: a value outside that range is
//! rejected with [`CJsonError::TypeError`] instead of being rounded.
//! Byte buffers are written as lowercase hexadecimal text, two digits per
//! byte.

use vstd::prelude::*;

use crate::cjson::CJson;
use crate::cjson::CJsonError;
use crate::cjson::CJsonResult;
use crate::cjson::JsonVal;
use crate::cjson::obj_upsert;

verus! {

/// How a finished frame is handed to the container below it.
pub enum Attach {
    /// The bottom frame: the finished node becomes the harvested root.
    Root,
    /// Appended to the array below, positionally.
    Element,
    /// Stored in the object below under this key.
    Field(Vec<char>),
}

/// The model of an [`Attach`].
pub enum AttachV {
    Root,
    Element,
    Field(Seq<char>),
}

pub open spec fn attach_view(a: Attach) -> AttachV {
    match a {
        Attach::Root => AttachV::Root,
        Attach::Element => AttachV::Element,
        Attach::Field(k) => AttachV::Field(k@),
    }
}

impl View for Attach {
    type V = AttachV;

    open spec fn view(&self) -> AttachV {
        attach_view(*self)
    }
}

/// The model of a serializer: the open frames, bottom first, and the
/// harvested root, if the pass has finished.
#[verifier::ext_equal]
pub struct SerView {
    pub frames: Seq<(JsonVal, AttachV)>,
    pub root: Option<JsonVal>,
}

/// The models of a stack of frames, in order.
pub open spec fn frames_view(s: Seq<(CJson, Attach)>) -> Seq<(JsonVal, AttachV)>
    decreases s,
{
    if s.len() == 0 {
        Seq::empty()
    } else {
        frames_view(s.drop_last()).push((s.last().0@, s.last().1@))
    }
}

pub broadcast proof fn lemma_frames_view_len(s: Seq<(CJson, Attach)>)
    ensures
        #[trigger] frames_view(s).len() == s.len(),
    decreases s.len(),
{
    if s.len() > 0 {
        lemma_frames_view_len(s.drop_last());
    }
}

pub broadcast proof fn lemma_frames_view_index(s: Seq<(CJson, Attach)>, i: int)
    requires
        0 <= i < s.len(),
    ensures
        #[trigger] frames_view(s)[i] == (s[i].0@, s[i].1@),
    decreases s.len(),
{
    lemma_frames_view_len(s.drop_last());
    if i < s.len() - 1 {
        lemma_frames_view_index(s.drop_last(), i);
        assert(s.drop_last()[i] == s[i]);
    }
}

pub broadcast group group_frames_view_lemmas {
    lemma_frames_view_len,
    lemma_frames_view_index,
}

/// A serializer: the per-pass context stack and the harvest slot.
pub struct JsonSerializer {
    stack: Vec<(CJson, Attach)>,
    root: Option<CJson>,
}

impl View for JsonSerializer {
    type V = SerView;

    closed spec fn view(&self) -> SerView {
        SerView {
            frames: frames_view(self.stack@),
            root: match self.root {
                Some(n) => Some(n@),
                None => None,
            },
        }
    }
}

/// Well-formedness of a serializer state: the bottom frame (and only it)
/// is the root frame, every frame is an open container, and each frame's
/// attachment matches the kind of the container below it.  While frames
/// are open, nothing has been harvested.
pub open spec fn wf_ser(s: SerView) -> bool {
    &&& (forall|i: int|
        0 <= i < s.frames.len() ==> ((#[trigger] s.frames[i]).0 is Arr || s.frames[i].0 is Obj))
    &&& (s.frames.len() > 0 ==> s.frames[0].1 is Root && s.root is None)
    &&& (forall|i: int|
        1 <= i < s.frames.len() ==> !((#[trigger] s.frames[i]).1 is Root))
    &&& (forall|i: int|
        1 <= i < s.frames.len() && (#[trigger] s.frames[i]).1 is Element ==> s.frames[i
            - 1].0 is Arr)
    &&& (forall|i: int|
        1 <= i < s.frames.len() && (#[trigger] s.frames[i]).1 is Field ==> s.frames[i
            - 1].0 is Obj)
}

/// The state after writing value `v` under `name`: an open array receives
/// `v` positionally, an open object stores it under `name`.  On an empty
/// stack only a finished root object (an aggregate serialized under the
/// empty root name) is accepted, and it is harvested.  Re-opening a root
/// context inside an open object is refused.
pub open spec fn put_val(s: SerView, name: Seq<char>, v: JsonVal) -> Result<
    SerView,
    CJsonError,
> {
    if s.frames.len() == 0 {
        if name.len() == 0 && v is Obj {
            Ok(SerView { frames: s.frames, root: Some(v) })
        } else {
            Err(CJsonError::InvalidOperation)
        }
    } else {
        let top = s.frames.last();
        match top.0 {
            JsonVal::Arr(items) => Ok(
                SerView {
                    frames: s.frames.update(
                        s.frames.len() - 1,
                        (JsonVal::Arr(items.push(v)), top.1),
                    ),
                    root: s.root,
                },
            ),
            JsonVal::Obj(ms) => {
                if v is Obj && name.len() == 0 {
                    Err(CJsonError::InvalidOperation)
                } else {
                    Ok(
                        SerView {
                            frames: s.frames.update(
                                s.frames.len() - 1,
                                (JsonVal::Obj(obj_upsert(ms, name, v)), top.1),
                            ),
                            root: s.root,
                        },
                    )
                }
            },
            _ => Err(CJsonError::InvalidOperation),
        }
    }
}

/// The contract shape shared by every write: on success the state moves
/// exactly as [`put_val`] says; on failure it is unchanged and the error
/// is the one [`put_val`] names.
pub open spec fn put_outcome(
    s0: SerView,
    s1: SerView,
    name: Seq<char>,
    v: JsonVal,
    r: Result<(), CJsonError>,
) -> bool {
    match put_val(s0, name, v) {
        Ok(s2) => r == Ok::<(), CJsonError>(()) && s1 == s2,
        Err(e) => r == Err::<(), CJsonError>(e) && s1 == s0,
    }
}

impl JsonSerializer {
    /// A fresh serializer: no open frames, nothing harvested.
    pub fn new() -> (r: Self)
        ensures
            r@.frames.len() == 0,
            r@.root is None,
            wf_ser(r@),
    {
        let stack: Vec<(CJson, Attach)> = Vec::new();
        JsonSerializer { stack, root: None }
    }

    /// Write one finished node, as [`put_val`] says.
    fn put_node(&mut self, name: &str, node: CJson) -> (r: CJsonResult<()>)
        ensures
            put_outcome(old(self)@, final(self)@, name@, node@, r),
    {
        broadcast use group_frames_view_lemmas;

        let ghost s0 = self@;
        if self.stack.len() == 0 {
            if name.is_empty() && node.is_object() {
                self.root = Some(node);
                return Ok(());
            } else {
                return Err(CJsonError::InvalidOperation);
            }
        }
        let ghost old_stack = self.stack@;
        let popped = self.stack.pop();
        let (mut top_node, att) = match popped {
            Some(p) => p,
            None => {
                return Err(CJsonError::InvalidOperation);
            },
        };
        proof {
            assert(s0.frames.last() == (old_stack.last().0@, old_stack.last().1@));
        }
        if top_node.is_array() {
            let put = top_node.add_item_to_array(node);
            proof {
                assert(put is Ok);
            }
            self.stack.push((top_node, att));
            proof {
                let s2 = put_val(s0, name@, node@)->Ok_0;
                assert(frames_view(self.stack@) =~= s2.frames);
                assert(self@ =~= s2);
            }
            Ok(())
        } else if top_node.is_object() {
            if name.is_empty() && node.is_object() {
                self.stack.push((top_node, att));
                proof {
                    assert(frames_view(self.stack@) =~= s0.frames);
                    assert(self@ =~= s0);
                }
                return Err(CJsonError::InvalidOperation);
            }
            let put = top_node.add_item_to_object(name, node);
            proof {
                assert(put is Ok);
            }
            self.stack.push((top_node, att));
            proof {
                let s2 = put_val(s0, name@, node@)->Ok_0;
                assert(frames_view(self.stack@) =~= s2.frames);
                assert(self@ =~= s2);
            }
            Ok(())
        } else {
            self.stack.push((top_node, att));
            proof {
                assert(frames_view(self.stack@) =~= s0.frames);
                assert(self@ =~= s0);
            }
            Err(CJsonError::InvalidOperation)
        }
    }

    /// Write a boolean.
    pub fn serialize_bool(&mut self, name: &str, v: bool) -> (r: CJsonResult<()>)
        ensures
            put_outcome(old(self)@, final(self)@, name@, JsonVal::Bool(v), r),
    {
        self.put_node(name, CJson::Bool(v))
    }

    /// Write an 8-bit unsigned integer.
    pub fn serialize_u8(&mut self, name: &str, v: u8) -> (r: CJsonResult<()>)
        ensures
            put_outcome(old(self)@, final(self)@, name@, JsonVal::Num(v as int), r),
    {
        self.put_node(name, CJson::Num(v as i64))
    }

    /// Write an 8-bit signed integer.
    pub fn serialize_i8(&mut self, name: &str, v: i8) -> (r: CJsonResult<()>)
        ensures
            put_outcome(old(self)@, final(self)@, name@, JsonVal::Num(v as int), r),
    {
        self.put_node(name, CJson::Num(v as i64))
    }

    /// Write a 16-bit unsigned integer.
    pub fn serialize_u16(&mut self, name: &str, v: u16) -> (r: CJsonResult<()>)
        ensures
            put_outcome(old(self)@, final(self)@, name@, JsonVal::Num(v as int), r),
    {
        self.put_node(name, CJson::Num(v as i64))
    }

    /// Write a 16-bit signed integer.
    pub fn serialize_i16(&mut self, name: &str, v: i16) -> (r: CJsonResult<()>)
        ensures
            put_outcome(old(self)@, final(self)@, name@, JsonVal::Num(v as int), r),
    {
        self.put_node(name, CJson::Num(v as i64))
    }

    /// Write a 32-bit unsigned integer.
    pub fn serialize_u32(&mut self, name: &str, v: u32) -> (r: CJsonResult<()>)
        ensures
            put_outcome(old(self)@, final(self)@, name@, JsonVal::Num(v as int), r),
    {
        self.put_node(name, CJson::Num(v as i64))
    }

    /// Write a 32-bit signed integer.
    pub fn serialize_i32(&mut self, name: &str, v: i32) -> (r: CJsonResult<()>)
        ensures
            put_outcome(old(self)@, final(self)@, name@, JsonVal::Num(v as int), r),
    {
        self.put_node(name, CJson::Num(v as i64))
    }

    /// Write a 64-bit unsigned integer.  A value beyond the numeric
    /// range of the tree is refused, never rounded.
    pub fn serialize_u64(&mut self, name: &str, v: u64) -> (r: CJsonResult<()>)
        ensures
            v <= i64::MAX ==> put_outcome(old(self)@, final(self)@, name@, JsonVal::Num(v as int), r),
            v > i64::MAX ==> r == Err::<(), CJsonError>(CJsonError::TypeError) && final(self)@
                == old(self)@,
    {
        if v <= i64::MAX as u64 {
            self.put_node(name, CJson::Num(v as i64))
        } else {
            Err(CJsonError::TypeError)
        }
    }

    /// Write a 64-bit signed integer.
    pub fn serialize_i64(&mut self, name: &str, v: i64) -> (r: CJsonResult<()>)
        ensures
            put_outcome(old(self)@, final(self)@, name@, JsonVal::Num(v as int), r),
    {
        self.put_node(name, CJson::Num(v))
    }

    /// Write a 128-bit unsigned integer.  A value beyond the numeric
    /// range of the tree is refused, never rounded.
    pub fn serialize_u128(&mut self, name: &str, v: u128) -> (r: CJsonResult<()>)
        ensures
            v <= i64::MAX ==> put_outcome(old(self)@, final(self)@, name@, JsonVal::Num(v as int), r),
            v > i64::MAX ==> r == Err::<(), CJsonError>(CJsonError::TypeError) && final(self)@
                == old(self)@,
    {
        if v <= i64::MAX as u128 {
            self.put_node(name, CJson::Num(v as i64))
        } else {
            Err(CJsonError::TypeError)
        }
    }

    /// Write a 128-bit signed integer.  A value beyond the numeric range
    /// of the tree is refused, never rounded.
    pub fn serialize_i128(&mut self, name: &str, v: i128) -> (r: CJsonResult<()>)
        ensures
            i64::MIN <= v <= i64::MAX ==> put_outcome(
                old(self)@,
                final(self)@,
                name@,
                JsonVal::Num(v as int),
                r,
            ),
            !(i64::MIN <= v <= i64::MAX) ==> r == Err::<(), CJsonError>(CJsonError::TypeError)
                && final(self)@ == old(self)@,
    {
        if i64::MIN as i128 <= v && v <= i64::MAX as i128 {
            self.put_node(name, CJson::Num(v as i64))
        } else {
            Err(CJsonError::TypeError)
        }
    }

    /// Write a byte buffer: lowercase hexadecimal text, two digits per
    /// byte.
    pub fn serialize_bytes(&mut self, name: &str, v: &[u8]) -> (r: CJsonResult<()>)
        ensures
            put_outcome(
                old(self)@,
                final(self)@,
                name@,
                JsonVal::Str(crate::hex::hex_of(v@)),
                r,
            ),
    {
        self.put_node(name, CJson::Str(crate::hex::hex_encode(v)))
    }

    /// Write an owned string.
    pub fn serialize_string(&mut self, name: &str, v: &String) -> (r: CJsonResult<()>)
        ensures
            put_outcome(old(self)@, final(self)@, name@, JsonVal::Str(v@), r),
    {
        self.put_node(name, CJson::Str(crate::cjson::str_to_chars(v.as_str())))
    }

    /// Write a string slice.
    pub fn serialize_str(&mut self, name: &str, v: &str) -> (r: CJsonResult<()>)
        ensures
            put_outcome(old(self)@, final(self)@, name@, JsonVal::Str(v@), r),
    {
        self.put_node(name, CJson::Str(crate::cjson::str_to_chars(v)))
    }

    /// Open a record.  The empty name opens the root object on an empty
    /// stack; over an open array the new object is appended positionally
    /// when the record closes, whatever the name says; over an open
    /// object a named record becomes a field, and re-opening a root
    /// context is refused.
    pub fn serialize_struct_start(&mut self, name: &str, _len: usize) -> (r: CJsonResult<()>)
        ensures
            match struct_start_spec(old(self)@, name@) {
                Ok(s2) => r == Ok::<(), CJsonError>(()) && final(self)@ == s2,
                Err(e) => r == Err::<(), CJsonError>(e) && final(self)@ == old(self)@,
            },
    {
        broadcast use group_frames_view_lemmas;

        let ghost s0 = self@;
        let empty_members: Vec<(Vec<char>, CJson)> = Vec::new();
        let fresh = CJson::Obj(empty_members);
        if self.stack.len() == 0 {
            if name.is_empty() {
                self.root = None;
                self.stack.push((fresh, Attach::Root));
                proof {
                    assert(self@.frames =~= struct_start_spec(s0, name@)->Ok_0.frames);
                    assert(self@ =~= struct_start_spec(s0, name@)->Ok_0);
                }
                Ok(())
            } else {
                Err(CJsonError::InvalidOperation)
            }
        } else {
            let top_is_array = self.stack[self.stack.len() - 1].0.is_array();
            let top_is_object = self.stack[self.stack.len() - 1].0.is_object();
            proof {
                assert(s0.frames.last() == (self.stack@.last().0@, self.stack@.last().1@));
            }
            if top_is_array {
                self.stack.push((fresh, Attach::Element));
                proof {
                    assert(self@.frames =~= struct_start_spec(s0, name@)->Ok_0.frames);
                    assert(self@ =~= struct_start_spec(s0, name@)->Ok_0);
                }
                Ok(())
            } else if top_is_object {
                if name.is_empty() {
                    Err(CJsonError::InvalidOperation)
                } else {
                    self.stack.push((fresh, Attach::Field(crate::cjson::str_to_chars(name))));
                    proof {
                        assert(self@.frames =~= struct_start_spec(s0, name@)->Ok_0.frames);
                        assert(self@ =~= struct_start_spec(s0, name@)->Ok_0);
                    }
                    Ok(())
                }
            } else {
                Err(CJsonError::InvalidOperation)
            }
        }
    }

    /// Close the innermost open frame and hand its node to the container
    /// below: the root node moves to the harvest slot, an array element
    /// is appended, a field is stored under its key.
    pub fn serialize_struct_end(&mut self) -> (r: CJsonResult<()>)
        ensures
            match struct_end_spec(old(self)@) {
                Ok(s2) => r == Ok::<(), CJsonError>(()) && final(self)@ == s2,
                Err(e) => r == Err::<(), CJsonError>(e) && final(self)@ == old(self)@,
            },
    {
        broadcast use group_frames_view_lemmas;

        let ghost s0 = self@;
        if self.stack.len() == 0 {
            return Err(CJsonError::InvalidOperation);
        }
        let ghost old_stack = self.stack@;
        let popped = self.stack.pop();
        let (node, att) = match popped {
            Some(p) => p,
            None => {
                return Err(CJsonError::InvalidOperation);
            },
        };
        proof {
            assert(s0.frames.last() == (old_stack.last().0@, old_stack.last().1@));
        }
        match att {
            Attach::Root => {
                if self.stack.len() == 0 {
                    self.root = Some(node);
                    proof {
                        assert(self@.frames =~= struct_end_spec(s0)->Ok_0.frames);
                        assert(self@ =~= struct_end_spec(s0)->Ok_0);
                    }
                    Ok(())
                } else {
                    self.stack.push((node, Attach::Root));
                    proof {
                        assert(self@.frames =~= s0.frames);
                        assert(self@ =~= s0);
                    }
                    Err(CJsonError::InvalidOperation)
                }
            },
            Attach::Element => {
                if self.stack.len() == 0 {
                    self.stack.push((node, Attach::Element));
                    proof {
                        assert(self@.frames =~= s0.frames);
                        assert(self@ =~= s0);
                    }
                    return Err(CJsonError::InvalidOperation);
                }
                let ghost mid_stack = self.stack@;
                let parent = self.stack.pop();
                let (mut parent_node, parent_att) = match parent {
                    Some(p) => p,
                    None => {
                        return Err(CJsonError::InvalidOperation);
                    },
                };
                proof {
                    assert(s0.frames.drop_last().last() == (mid_stack.last().0@,
                    mid_stack.last().1@));
                    assert(s0.frames.drop_last()[s0.frames.len() - 2] == frames_view(
                        old_stack,
                    ).drop_last()[s0.frames.len() - 2]);
                }
                if parent_node.is_array() {
                    let put = parent_node.add_item_to_array(node);
                    proof {
                        assert(put is Ok);
                    }
                    self.stack.push((parent_node, parent_att));
                    proof {
                        let s2 = struct_end_spec(s0)->Ok_0;
                        assert(self@.frames =~= s2.frames);
                        assert(self@ =~= s2);
                    }
                    Ok(())
                } else {
                    self.stack.push((parent_node, parent_att));
                    self.stack.push((node, Attach::Element));
                    proof {
                        assert(self@.frames =~= s0.frames);
                        assert(self@ =~= s0);
                    }
                    Err(CJsonError::InvalidOperation)
                }
            },
            Attach::Field(key) => {
                if self.stack.len() == 0 {
                    self.stack.push((node, Attach::Field(key)));
                    proof {
                        assert(self@.frames =~= s0.frames);
                        assert(self@ =~= s0);
                    }
                    return Err(CJsonError::InvalidOperation);
                }
                let ghost mid_stack = self.stack@;
                let parent = self.stack.pop();
                let (mut parent_node, parent_att) = match parent {
                    Some(p) => p,
                    None => {
                        return Err(CJsonError::InvalidOperation);
                    },
                };
                proof {
                    assert(s0.frames.drop_last().last() == (mid_stack.last().0@,
                    mid_stack.last().1@));
                }
                if parent_node.is_object() {
                    let put = parent_node.add_item_to_object_chars(key, node);
                    proof {
                        assert(put is Ok);
                    }
                    self.stack.push((parent_node, parent_att));
                    proof {
                        let s2 = struct_end_spec(s0)->Ok_0;
                        assert(self@.frames =~= s2.frames);
                        assert(self@ =~= s2);
                    }
                    Ok(())
                } else {
                    self.stack.push((parent_node, parent_att));
                    self.stack.push((node, Attach::Field(key)));
                    proof {
                        assert(self@.frames =~= s0.frames);
                        assert(self@ =~= s0);
                    }
                    Err(CJsonError::InvalidOperation)
                }
            },
        }
    }
}

/// The state after opening a record under `name`.
pub open spec fn struct_start_spec(s: SerView, name: Seq<char>) -> Result<SerView, CJsonError> {
    let fresh = JsonVal::Obj(Seq::<(Seq<char>, JsonVal)>::empty());
    if s.frames.len() == 0 {
        if name.len() == 0 {
            Ok(SerView { frames: seq![(fresh, AttachV::Root)], root: None })
        } else {
            Err(CJsonError::InvalidOperation)
        }
    } else {
        let top = s.frames.last();
        match top.0 {
            JsonVal::Arr(_) => Ok(
                SerView { frames: s.frames.push((fresh, AttachV::Element)), root: s.root },
            ),
            JsonVal::Obj(_) => {
                if name.len() == 0 {
                    Err(CJsonError::InvalidOperation)
                } else {
                    Ok(
                        SerView {
                            frames: s.frames.push((fresh, AttachV::Field(name))),
                            root: s.root,
                        },
                    )
                }
            },
            _ => Err(CJsonError::InvalidOperation),
        }
    }
}

/// The state after closing the innermost open frame.
pub open spec fn struct_end_spec(s: SerView) -> Result<SerView, CJsonError> {
    if s.frames.len() == 0 {
        Err(CJsonError::InvalidOperation)
    } else {
        let node = s.frames.last().0;
        let att = s.frames.last().1;
        let rest = s.frames.drop_last();
        match att {
            AttachV::Root => {
                if rest.len() == 0 {
                    Ok(SerView { frames: rest, root: Some(node) })
                } else {
                    Err(CJsonError::InvalidOperation)
                }
            },
            AttachV::Element => {
                if rest.len() > 0 && rest.last().0 is Arr {
                    Ok(
                        SerView {
                            frames: rest.update(
                                rest.len() - 1,
                                (JsonVal::Arr(rest.last().0->Arr_0.push(node)), rest.last().1),
                            ),
                            root: s.root,
                        },
                    )
                } else {
                    Err(CJsonError::InvalidOperation)
                }
            },
            AttachV::Field(key) => {
                if rest.len() > 0 && rest.last().0 is Obj {
                    Ok(
                        SerView {
                            frames: rest.update(
                                rest.len() - 1,
                                (
                                    JsonVal::Obj(obj_upsert(rest.last().0->Obj_0, key, node)),
                                    rest.last().1,
                                ),
                            ),
                            root: s.root,
                        },
                    )
                } else {
                    Err(CJsonError::InvalidOperation)
                }
            },
        }
    }
}

/// A successful write preserves well-formedness.
pub proof fn lemma_put_val_wf(s: SerView, name: Seq<char>, v: JsonVal)
    requires
        wf_ser(s),
        put_val(s, name, v) is Ok,
    ensures
        wf_ser(put_val(s, name, v)->Ok_0),
{
}

/// Opening a record preserves well-formedness.
pub proof fn lemma_struct_start_wf(s: SerView, name: Seq<char>)
    requires
        wf_ser(s),
        struct_start_spec(s, name) is Ok,
    ensures
        wf_ser(struct_start_spec(s, name)->Ok_0),
{
}

/// Closing a record preserves well-formedness.
pub proof fn lemma_struct_end_wf(s: SerView)
    requires
        wf_ser(s),
        struct_end_spec(s) is Ok,
    ensures
        wf_ser(struct_end_spec(s)->Ok_0),
{
}

/// How a record opened under `name` will be attached when it closes.
pub open spec fn struct_attach(s0: SerView, name: Seq<char>) -> AttachV {
    if s0.frames.len() == 0 {
        AttachV::Root
    } else if s0.frames.last().0 is Arr {
        AttachV::Element
    } else {
        AttachV::Field(name)
    }
}

/// The serializer state while a record is being written: the caller's
/// frames with one open object frame on top.
pub open spec fn struct_state(
    s0: SerView,
    name: Seq<char>,
    ms: Seq<(Seq<char>, JsonVal)>,
) -> SerView {
    SerView {
        frames: s0.frames.push((JsonVal::Obj(ms), struct_attach(s0, name))),
        root: if s0.frames.len() == 0 {
            None
        } else {
            s0.root
        },
    }
}

/// Opening a record never fails where writing its finished object would
/// succeed, and fails with the same error where it would not.
pub proof fn lemma_struct_start_cases(s0: SerView, name: Seq<char>, ms: Seq<(Seq<char>, JsonVal)>)
    ensures
        match struct_start_spec(s0, name) {
            Err(e) => put_val(s0, name, JsonVal::Obj(ms)) == Err::<SerView, CJsonError>(e),
            Ok(_) => put_val(s0, name, JsonVal::Obj(ms)) is Ok,
        },
{
}

/// A successful open yields the record state over an empty member list.
pub proof fn lemma_struct_start_state(s0: SerView, name: Seq<char>)
    requires
        struct_start_spec(s0, name) is Ok,
    ensures
        struct_start_spec(s0, name)->Ok_0 == struct_state(s0, name, Seq::empty()),
{
    let a = struct_start_spec(s0, name)->Ok_0;
    let b = struct_state(s0, name, Seq::empty());
    assert(a.frames =~= b.frames);
    assert(a =~= b);
}

/// The record state is well formed whenever the caller's state was.
pub proof fn lemma_struct_state_wf(s0: SerView, name: Seq<char>, ms: Seq<(Seq<char>, JsonVal)>)
    requires
        wf_ser(s0),
        struct_start_spec(s0, name) is Ok,
    ensures
        wf_ser(struct_state(s0, name, ms)),
{
    let s1 = struct_state(s0, name, ms);
    assert(forall|i: int| 0 <= i < s0.frames.len() ==> s1.frames[i] == s0.frames[i]);
}

/// Writing a field into the open record stores it in the member list.
pub proof fn lemma_struct_field(
    s0: SerView,
    name: Seq<char>,
    ms: Seq<(Seq<char>, JsonVal)>,
    fname: Seq<char>,
    v: JsonVal,
)
    requires
        !(v is Obj && fname.len() == 0),
    ensures
        put_val(struct_state(s0, name, ms), fname, v) == Ok::<SerView, CJsonError>(
            struct_state(s0, name, obj_upsert(ms, fname, v)),
        ),
{
    let cur = struct_state(s0, name, ms);
    assert(cur.frames.last() == (JsonVal::Obj(ms), struct_attach(s0, name)));
    let s2 = put_val(cur, fname, v)->Ok_0;
    assert(s2.frames =~= struct_state(s0, name, obj_upsert(ms, fname, v)).frames);
    assert(s2 =~= struct_state(s0, name, obj_upsert(ms, fname, v)));
}

/// Closing the record hands the finished object to the container below,
/// exactly as one write of that object would have.
pub proof fn lemma_struct_end_state(s0: SerView, name: Seq<char>, ms: Seq<(Seq<char>, JsonVal)>)
    requires
        struct_start_spec(s0, name) is Ok,
    ensures
        struct_end_spec(struct_state(s0, name, ms)) == put_val(s0, name, JsonVal::Obj(ms)),
{
    let s1 = struct_state(s0, name, ms);
    assert(s1.frames.last() == (JsonVal::Obj(ms), struct_attach(s0, name)));
    assert(s1.frames.drop_last() =~= s0.frames);
    assert(struct_end_spec(s1) is Ok);
    assert(put_val(s0, name, JsonVal::Obj(ms)) is Ok);
    let a = struct_end_spec(s1)->Ok_0;
    let b = put_val(s0, name, JsonVal::Obj(ms))->Ok_0;
    assert(a.frames =~= b.frames);
    assert(a =~= b);
}

/// A typed value that can describe its own shape to the serializer.
///
/// `ser_spec` is the value's JSON model — or the first error its
/// serialization reports (a number beyond the range of the tree).
/// `serialize` drives the machine: its net effect on a well-formed
/// serializer is exactly one [`put_val`] of that model under the given
/// field name.
pub trait Serialize {
    spec fn ser_spec(&self) -> Result<JsonVal, CJsonError>;

    fn serialize(&self, name: &str, ser: &mut JsonSerializer) -> (r: CJsonResult<()>)
        requires
            wf_ser(old(ser)@),
        ensures
            wf_ser(final(ser)@),
            match self.ser_spec() {
                Ok(v) => put_outcome(old(ser)@, final(ser)@, name@, v, r),
                Err(e) => r == Err::<(), CJsonError>(e),
            },
    ;
}

impl Serialize for bool {
    open spec fn ser_spec(&self) -> Result<JsonVal, CJsonError> {
        Ok(JsonVal::Bool(*self))
    }

    fn serialize(&self, name: &str, ser: &mut JsonSerializer) -> (r: CJsonResult<()>) {
        let r = ser.serialize_bool(name, *self);
        proof {
            if put_val(old(ser)@, name@, JsonVal::Bool(*self)) is Ok {
                lemma_put_val_wf(old(ser)@, name@, JsonVal::Bool(*self));
            }
        }
        r
    }
}

impl Serialize for u8 {
    open spec fn ser_spec(&self) -> Result<JsonVal, CJsonError> {
        Ok(JsonVal::Num(*self as int))
    }

    fn serialize(&self, name: &str, ser: &mut JsonSerializer) -> (r: CJsonResult<()>) {
        let r = ser.serialize_u8(name, *self);
        proof {
            if put_val(old(ser)@, name@, JsonVal::Num(*self as int)) is Ok {
                lemma_put_val_wf(old(ser)@, name@, JsonVal::Num(*self as int));
            }
        }
        r
    }
}

impl Serialize for u16 {
    open spec fn ser_spec(&self) -> Result<JsonVal, CJsonError> {
        Ok(JsonVal::Num(*self as int))
    }

    fn serialize(&self, name: &str, ser: &mut JsonSerializer) -> (r: CJsonResult<()>) {
        let r = ser.serialize_u16(name, *self);
        proof {
            if put_val(old(ser)@, name@, JsonVal::Num(*self as int)) is Ok {
                lemma_put_val_wf(old(ser)@, name@, JsonVal::Num(*self as int));
            }
        }
        r
    }
}

impl Serialize for u32 {
    open spec fn ser_spec(&self) -> Result<JsonVal, CJsonError> {
        Ok(JsonVal::Num(*self as int))
    }

    fn serialize(&self, name: &str, ser: &mut JsonSerializer) -> (r: CJsonResult<()>) {
        let r = ser.serialize_u32(name, *self);
        proof {
            if put_val(old(ser)@, name@, JsonVal::Num(*self as int)) is Ok {
                lemma_put_val_wf(old(ser)@, name@, JsonVal::Num(*self as int));
            }
        }
        r
    }
}

impl Serialize for u64 {
    open spec fn ser_spec(&self) -> Result<JsonVal, CJsonError> {
        if *self <= i64::MAX {
            Ok(JsonVal::Num(*self as int))
        } else {
            Err(CJsonError::TypeError)
        }
    }

    fn serialize(&self, name: &str, ser: &mut JsonSerializer) -> (r: CJsonResult<()>) {
        let r = ser.serialize_u64(name, *self);
        proof {
            if *self <= i64::MAX && put_val(old(ser)@, name@, JsonVal::Num(*self as int)) is Ok {
                lemma_put_val_wf(old(ser)@, name@, JsonVal::Num(*self as int));
            }
        }
        r
    }
}

impl Serialize for i8 {
    open spec fn ser_spec(&self) -> Result<JsonVal, CJsonError> {
        Ok(JsonVal::Num(*self as int))
    }

    fn serialize(&self, name: &str, ser: &mut JsonSerializer) -> (r: CJsonResult<()>) {
        let r = ser.serialize_i8(name, *self);
        proof {
            if put_val(old(ser)@, name@, JsonVal::Num(*self as int)) is Ok {
                lemma_put_val_wf(old(ser)@, name@, JsonVal::Num(*self as int));
            }
        }
        r
    }
}

impl Serialize for i16 {
    open spec fn ser_spec(&self) -> Result<JsonVal, CJsonError> {
        Ok(JsonVal::Num(*self as int))
    }

    fn serialize(&self, name: &str, ser: &mut JsonSerializer) -> (r: CJsonResult<()>) {
        let r = ser.serialize_i16(name, *self);
        proof {
            if put_val(old(ser)@, name@, JsonVal::Num(*self as int)) is Ok {
                lemma_put_val_wf(old(ser)@, name@, JsonVal::Num(*self as int));
            }
        }
        r
    }
}

impl Serialize for i32 {
    open spec fn ser_spec(&self) -> Result<JsonVal, CJsonError> {
        Ok(JsonVal::Num(*self as int))
    }

    fn serialize(&self, name: &str, ser: &mut JsonSerializer) -> (r: CJsonResult<()>) {
        let r = ser.serialize_i32(name, *self);
        proof {
            if put_val(old(ser)@, name@, JsonVal::Num(*self as int)) is Ok {
                lemma_put_val_wf(old(ser)@, name@, JsonVal::Num(*self as int));
            }
        }
        r
    }
}

impl Serialize for i64 {
    open spec fn ser_spec(&self) -> Result<JsonVal, CJsonError> {
        Ok(JsonVal::Num(*self as int))
    }

    fn serialize(&self, name: &str, ser: &mut JsonSerializer) -> (r: CJsonResult<()>) {
        let r = ser.serialize_i64(name, *self);
        proof {
            if put_val(old(ser)@, name@, JsonVal::Num(*self as int)) is Ok {
                lemma_put_val_wf(old(ser)@, name@, JsonVal::Num(*self as int));
            }
        }
        r
    }
}

impl Serialize for String {
    open spec fn ser_spec(&self) -> Result<JsonVal, CJsonError> {
        Ok(JsonVal::Str(self@))
    }

    fn serialize(&self, name: &str, ser: &mut JsonSerializer) -> (r: CJsonResult<()>) {
        let r = ser.serialize_string(name, self);
        proof {
            if put_val(old(ser)@, name@, JsonVal::Str(self@)) is Ok {
                lemma_put_val_wf(old(ser)@, name@, JsonVal::Str(self@));
            }
        }
        r
    }
}

/// The models of a sequence of values, or the first error among them.
pub open spec fn ser_seq<T: Serialize>(vs: Seq<T>) -> Result<Seq<JsonVal>, CJsonError>
    decreases vs.len(),
{
    if vs.len() == 0 {
        Ok(Seq::empty())
    } else {
        match vs[0].ser_spec() {
            Err(e) => Err(e),
            Ok(v0) => match ser_seq(vs.drop_first()) {
                Err(e) => Err(e),
                Ok(rest) => Ok(seq![v0] + rest),
            },
        }
    }
}

/// The models of a sequence of values, each of which serializes.
pub open spec fn ser_models<T: Serialize>(vs: Seq<T>) -> Seq<JsonVal> {
    Seq::new(vs.len(), |i: int| vs[i].ser_spec()->Ok_0)
}

pub proof fn lemma_ser_seq_all_ok<T: Serialize>(vs: Seq<T>)
    requires
        forall|i: int| 0 <= i < vs.len() ==> (#[trigger] vs[i].ser_spec()) is Ok,
    ensures
        ser_seq(vs) == Ok::<Seq<JsonVal>, CJsonError>(ser_models(vs)),
    decreases vs.len(),
{
    if vs.len() == 0 {
        assert(ser_models(vs) =~= Seq::<JsonVal>::empty());
    } else {
        lemma_ser_seq_all_ok(vs.drop_first());
        assert(seq![vs[0].ser_spec()->Ok_0] + ser_models(vs.drop_first()) =~= ser_models(vs));
    }
}

/// The serializer state while a sequence is being written: the caller's
/// frames with one open array frame on top.
pub open spec fn vec_state(s0: SerView, items: Seq<JsonVal>, attv: AttachV) -> SerView {
    SerView { frames: s0.frames.push((JsonVal::Arr(items), attv)), root: s0.root }
}

proof fn lemma_vec_state_wf(s0: SerView, items: Seq<JsonVal>, attv: AttachV)
    requires
        wf_ser(s0),
        s0.frames.len() > 0,
        attv is Element ==> s0.frames.last().0 is Arr,
        attv is Field ==> s0.frames.last().0 is Obj,
        attv is Element || attv is Field,
    ensures
        wf_ser(vec_state(s0, items, attv)),
{
    let s1 = vec_state(s0, items, attv);
    assert(forall|i: int| 0 <= i < s0.frames.len() ==> s1.frames[i] == s0.frames[i]);
}

proof fn lemma_vec_state_put(
    s0: SerView,
    items: Seq<JsonVal>,
    attv: AttachV,
    n: Seq<char>,
    vm: JsonVal,
)
    ensures
        put_val(vec_state(s0, items, attv), n, vm) == Ok::<SerView, CJsonError>(
            vec_state(s0, items.push(vm), attv),
        ),
{
    let cur = vec_state(s0, items, attv);
    assert(cur.frames.last() == (JsonVal::Arr(items), attv));
    let s2 = put_val(cur, n, vm)->Ok_0;
    assert(s2.frames =~= vec_state(s0, items.push(vm), attv).frames);
    assert(s2 =~= vec_state(s0, items.push(vm), attv));
}

proof fn lemma_vec_state_end(s0: SerView, items: Seq<JsonVal>, attv: AttachV, name: Seq<char>)
    requires
        s0.frames.len() > 0,
        attv == (if s0.frames.last().0 is Arr {
            AttachV::Element
        } else {
            AttachV::Field(name)
        }),
        s0.frames.last().0 is Arr || s0.frames.last().0 is Obj,
    ensures
        struct_end_spec(vec_state(s0, items, attv)) == put_val(s0, name, JsonVal::Arr(items)),
{
    let s1 = vec_state(s0, items, attv);
    assert(s1.frames.last() == (JsonVal::Arr(items), attv));
    assert(s1.frames.drop_last() =~= s0.frames);
    assert(struct_end_spec(s1) is Ok);
    assert(put_val(s0, name, JsonVal::Arr(items)) is Ok);
    let a = struct_end_spec(s1)->Ok_0;
    let b = put_val(s0, name, JsonVal::Arr(items))->Ok_0;
    assert(a.frames =~= b.frames);
    assert(a =~= b);
}

impl JsonSerializer {
    /// Write a variable-length sequence: an array node is opened under
    /// `name`, every element is visited with the empty name so that it
    /// appends positionally, and the finished array is handed to the
    /// container below.  The first failing element aborts the pass.
    #[verifier::rlimit(100)]
    pub fn serialize_vec<T: Serialize>(&mut self, name: &str, v: &Vec<T>) -> (r: CJsonResult<()>)
        requires
            wf_ser(old(self)@),
        ensures
            wf_ser(final(self)@),
            match put_val(old(self)@, name@, JsonVal::Arr(Seq::<JsonVal>::empty())) {
                Err(e) => r == Err::<(), CJsonError>(e) && final(self)@ == old(self)@,
                Ok(_) => match ser_seq(v@) {
                    Ok(items) => r == Ok::<(), CJsonError>(()) && final(self)@ == put_val(
                        old(self)@,
                        name@,
                        JsonVal::Arr(items),
                    )->Ok_0,
                    Err(e) => r == Err::<(), CJsonError>(e),
                },
            },
    {
        broadcast use group_frames_view_lemmas;

        let ghost s0 = self@;
        if self.stack.len() == 0 {
            return Err(CJsonError::InvalidOperation);
        }
        let top_is_array = self.stack[self.stack.len() - 1].0.is_array();
        let top_is_object = self.stack[self.stack.len() - 1].0.is_object();
        proof {
            assert(s0.frames.last() == (self.stack@.last().0@, self.stack@.last().1@));
        }
        let ghost attv = if s0.frames.last().0 is Arr {
            AttachV::Element
        } else {
            AttachV::Field(name@)
        };
        let empty_items: Vec<CJson> = Vec::new();
        if top_is_array {
            self.stack.push((CJson::Arr(empty_items), Attach::Element));
        } else if top_is_object {
            self.stack.push(
                (CJson::Arr(empty_items), Attach::Field(crate::cjson::str_to_chars(name))),
            );
        } else {
            return Err(CJsonError::InvalidOperation);
        }
        proof {
            assert(ser_models(v@.take(0)) =~= Seq::<JsonVal>::empty());
            assert(self@.frames =~= vec_state(s0, ser_models(v@.take(0)), attv).frames);
            assert(self@ =~= vec_state(s0, ser_models(v@.take(0)), attv));
            lemma_vec_state_wf(s0, ser_models(v@.take(0)), attv);
        }
        let mut k: usize = 0;
        while k < v.len()
            invariant
                s0 == old(self)@,
                wf_ser(s0),
                k <= v@.len(),
                s0.frames.len() > 0,
                s0.frames.last().0 is Arr || s0.frames.last().0 is Obj,
                attv == (if s0.frames.last().0 is Arr {
                    AttachV::Element
                } else {
                    AttachV::Field(name@)
                }),
                forall|i: int| 0 <= i < k ==> (#[trigger] v@[i].ser_spec()) is Ok,
                self@ == vec_state(s0, ser_models(v@.take(k as int)), attv),
            decreases v@.len() - k,
        {
            let ghost items = ser_models(v@.take(k as int));
            proof {
                lemma_vec_state_wf(s0, items, attv);
                lemma_vec_state_put(s0, items, attv, ""@, v@[k as int].ser_spec()->Ok_0);
            }
            let r = v[k].serialize("", self);
            match r {
                Err(e) => {
                    proof {
                        if v@[k as int].ser_spec() is Ok {
                            assert(false);
                        }
                        lemma_ser_seq_first_err(v@, k as int, e);
                        lemma_vec_state_wf(s0, items, attv);
                    }
                    return Err(e);
                },
                Ok(_) => {
                    proof {
                        if v@[k as int].ser_spec() is Err {
                            assert(false);
                        }
                        let vm = v@[k as int].ser_spec()->Ok_0;
                        assert(self@ == vec_state(s0, items.push(vm), attv));
                        assert(items.push(vm) =~= ser_models(v@.take(k + 1)));
                    }
                    k += 1;
                },
            }
        }
        proof {
            assert(v@.take(v@.len() as int) =~= v@);
            lemma_ser_seq_all_ok(v@);
            lemma_vec_state_end(s0, ser_models(v@), attv, name@);
            lemma_vec_state_wf(s0, ser_models(v@), attv);
        }
        let r2 = self.serialize_struct_end();
        proof {
            lemma_put_val_wf(s0, name@, JsonVal::Arr(ser_models(v@)));
        }
        Ok(())
    }

    /// Write a fixed-size array.  The element protocol is the same as
    /// [`JsonSerializer::serialize_vec`]: one array node under `name`,
    /// elements appended positionally.
    pub fn serialize_array<T: Serialize>(&mut self, name: &str, v: &Vec<T>) -> (r: CJsonResult<()>)
        requires
            wf_ser(old(self)@),
        ensures
            wf_ser(final(self)@),
            match put_val(old(self)@, name@, JsonVal::Arr(Seq::<JsonVal>::empty())) {
                Err(e) => r == Err::<(), CJsonError>(e) && final(self)@ == old(self)@,
                Ok(_) => match ser_seq(v@) {
                    Ok(items) => r == Ok::<(), CJsonError>(()) && final(self)@ == put_val(
                        old(self)@,
                        name@,
                        JsonVal::Arr(items),
                    )->Ok_0,
                    Err(e) => r == Err::<(), CJsonError>(e),
                },
            },
    {
        self.serialize_vec(name, v)
    }
}

impl JsonSerializer {
    /// Render the harvested root to formatted JSON text, releasing it:
    /// each object member on its own line, one tab per nesting depth.
    /// Before any pass has finished there is nothing to print.
    pub fn print(&mut self) -> (r: CJsonResult<String>)
        ensures
            match old(self)@.root {
                Some(t) => r is Ok && r->Ok_0@ == crate::print::spec_print_fmt(t, 0)
                    && final(self)@.root is None && final(self)@.frames == old(self)@.frames,
                None => r == Err::<String, CJsonError>(CJsonError::NotFound) && final(self)@
                    == old(self)@,
            },
    {
        let mut taken: Option<CJson> = None;
        core::mem::swap(&mut self.root, &mut taken);
        match taken {
            Some(node) => {
                let chars = crate::print::print_fmt_chars(&node);
                Ok(crate::cjson::chars_to_string(&chars))
            },
            None => Err(CJsonError::NotFound),
        }
    }

    /// Render the harvested root to compact JSON text, releasing it.
    /// Before any pass has finished there is nothing to print.
    pub fn print_unformatted(&mut self) -> (r: CJsonResult<String>)
        ensures
            match old(self)@.root {
                Some(t) => r is Ok && r->Ok_0@ == crate::print::spec_print(t)
                    && final(self)@.root is None && final(self)@.frames == old(self)@.frames,
                None => r == Err::<String, CJsonError>(CJsonError::NotFound) && final(self)@
                    == old(self)@,
            },
    {
        let mut taken: Option<CJson> = None;
        core::mem::swap(&mut self.root, &mut taken);
        match taken {
            Some(node) => {
                let chars = crate::print::print_chars(&node);
                Ok(crate::cjson::chars_to_string(&chars))
            },
            None => Err(CJsonError::NotFound),
        }
    }
}

/// Serialize a typed value to compact JSON text: a fresh pass drives the
/// value's visiting operation under the empty root name, then renders
/// and releases the finished tree.  Only an aggregate that serializes to
/// an object can stand at the root.
pub fn to_json<T: Serialize>(value: &T) -> (r: CJsonResult<String>)
    ensures
        match value.ser_spec() {
            Ok(v) => {
                if v is Obj {
                    r is Ok && r->Ok_0@ == crate::print::spec_print(v)
                } else {
                    r == Err::<String, CJsonError>(CJsonError::InvalidOperation)
                }
            },
            Err(e) => r == Err::<String, CJsonError>(e),
        },
{
    proof {
        reveal_strlit("");
    }
    let mut ser = JsonSerializer::new();
    match value.serialize("", &mut ser) {
        Ok(_) => {},
        Err(e) => {
            return Err(e);
        },
    }
    ser.print_unformatted()
}

pub proof fn lemma_ser_seq_first_err<T: Serialize>(vs: Seq<T>, k: int, e: CJsonError)
    requires
        0 <= k < vs.len(),
        forall|i: int| 0 <= i < k ==> (#[trigger] vs[i].ser_spec()) is Ok,
        vs[k].ser_spec() == Err::<JsonVal, CJsonError>(e),
    ensures
        ser_seq(vs) == Err::<Seq<JsonVal>, CJsonError>(e),
    decreases k,
{
    if k > 0 {
        lemma_ser_seq_first_err(vs.drop_first(), k - 1, e);
    }
}

} // verus!
