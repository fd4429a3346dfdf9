//! Record types driven through the visitor protocol, and the round-trip
//! laws proved about them.
//!
//! Each record implements [`Serialize`] and [`Deserialize`] by visiting
//! its fields in declaration order.  The byte-buffer fields use
//! [`Bytes`], a fixed-capacity buffer that serializes to lowercase
//! hexadecimal text.

use vstd::prelude::*;

use crate::cjson::CJsonError;
use crate::cjson::CJsonResult;
use crate::cjson::JsonVal;
use crate::cjson::obj_upsert;
use crate::de::Deserialize;
use crate::de::JsonDeserializer;
use crate::de::field_of;
use crate::ser::JsonSerializer;
use crate::ser::Serialize;
use crate::ser::lemma_put_val_wf;
use crate::ser::lemma_struct_end_state;
use crate::ser::lemma_struct_field;
use crate::ser::lemma_struct_start_cases;
use crate::ser::lemma_struct_start_state;
use crate::ser::put_val;
use vstd::utf8::encode_utf8;
use vstd::utf8::valid_utf8;

verus! {

/// Relies on `String::from_utf8`: it succeeds exactly on valid UTF-8 and
/// returns the string those bytes encode.
#[verifier::external_body]
fn bytes_to_string(v: &Vec<u8>) -> (r: Option<String>)
    ensures
        match r {
            Some(s) => encode_utf8(s@) == v@,
            None => !valid_utf8(v@),
        },
{
    match String::from_utf8(v.clone()) {
        Ok(s) => Some(s),
        Err(_) => None,
    }
}

/// A byte buffer of fixed capacity.  It serializes to lowercase
/// hexadecimal text, two digits per byte.
#[derive(Debug, Clone)]
pub struct Bytes {
    data: Vec<u8>,
    cap: usize,
}

impl View for Bytes {
    type V = Seq<u8>;

    closed spec fn view(&self) -> Seq<u8> {
        self.data@
    }
}

impl Bytes {
    /// The capacity the buffer was made with.
    pub closed spec fn spec_cap(&self) -> nat {
        self.cap as nat
    }

    /// The held bytes never exceed the capacity.
    pub open spec fn wf(&self) -> bool {
        self@.len() <= self.spec_cap()
    }

    /// An empty buffer of the given capacity.
    pub fn with_capacity(cap: usize) -> (r: Self)
        ensures
            r@ == Seq::<u8>::empty(),
            r.spec_cap() == cap,
            r.wf(),
    {
        let data: Vec<u8> = Vec::new();
        Bytes { data, cap }
    }

    /// A buffer of the given capacity holding the text's bytes, capped.
    pub fn new_by_str(cap: usize, s: &str) -> (r: Self)
        ensures
            r.spec_cap() == cap,
            r.wf(),
            r@ == encode_utf8(s@).take(
                if encode_utf8(s@).len() <= cap {
                    encode_utf8(s@).len() as int
                } else {
                    cap as int
                },
            ),
    {
        let bytes = s.as_bytes();
        let n = if bytes.len() <= cap {
            bytes.len()
        } else {
            cap
        };
        let prefix = vstd::slice::slice_subrange(bytes, 0, n);
        let data = vstd::slice::slice_to_vec(prefix);
        Bytes { data, cap }
    }

    /// A buffer of the given capacity holding the given bytes, capped.
    pub fn from_vec(cap: usize, mut data: Vec<u8>) -> (r: Self)
        ensures
            r.spec_cap() == cap,
            r.wf(),
            r@ == (if data@.len() <= cap {
                data@
            } else {
                data@.take(cap as int)
            }),
    {
        if data.len() > cap {
            data.truncate(cap);
        }
        Bytes { data, cap }
    }

    /// The number of held bytes.
    pub fn len(&self) -> (r: usize)
        ensures
            r == self@.len(),
    {
        self.data.len()
    }

    /// The held bytes.
    pub fn as_bytes(&self) -> (r: &[u8])
        ensures
            r@ == self@,
    {
        self.data.as_slice()
    }

    /// The held bytes decoded as text; empty when they are not valid
    /// UTF-8.
    pub fn as_str(&self) -> (r: String)
        ensures
            valid_utf8(self@) ==> encode_utf8(r@) == self@,
    {
        match bytes_to_string(&self.data) {
            Some(s) => s,
            None => String::new(),
        }
    }
}

/// A credential pair of plain numbers.
#[derive(Debug, Clone, Copy, PartialEq, Eq, Structural)]
pub struct PlainUser {
    pub user: u32,
    pub password: u32,
}

/// The members `PlainUser` writes, in field order.
pub open spec fn plain_user_members(u: PlainUser) -> Seq<(Seq<char>, JsonVal)> {
    seq![
        ("user"@, JsonVal::Num(u.user as int)),
        ("password"@, JsonVal::Num(u.password as int)),
    ]
}

impl Serialize for PlainUser {
    open spec fn ser_spec(&self) -> Result<JsonVal, CJsonError> {
        Ok(JsonVal::Obj(plain_user_members(*self)))
    }

    fn serialize(&self, name: &str, ser: &mut JsonSerializer) -> (r: CJsonResult<()>) {
        let ghost s0 = ser@;
        let ghost msv = plain_user_members(*self);
        proof {
            lemma_struct_start_cases(s0, name@, msv);
        }
        match ser.serialize_struct_start(name, 2) {
            Ok(_) => {},
            Err(e) => {
                return Err(e);
            },
        }
        proof {
            reveal_strlit("user");
            reveal_strlit("password");
            lemma_struct_start_state(s0, name@);
            lemma_struct_field(
                s0,
                name@,
                Seq::empty(),
                "user"@,
                JsonVal::Num(self.user as int),
            );
        }
        let ghost ms1 = obj_upsert(Seq::empty(), "user"@, JsonVal::Num(self.user as int));
        match ser.serialize_u32("user", self.user) {
            Ok(_) => {},
            Err(e) => {
                return Err(e);
            },
        }
        proof {
            lemma_struct_field(s0, name@, ms1, "password"@, JsonVal::Num(self.password as int));
        }
        match ser.serialize_u32("password", self.password) {
            Ok(_) => {},
            Err(e) => {
                return Err(e);
            },
        }
        proof {
            broadcast use vstd::string::group_string_axioms;

            reveal_strlit("user");
            reveal_strlit("password");
            assert("user"@.len() == 4);
            assert("password"@.len() == 8);
            assert(ms1 =~= seq![("user"@, JsonVal::Num(self.user as int))]);
            assert("user"@ != "password"@);
            assert(ms1.drop_first() =~= Seq::<(Seq<char>, JsonVal)>::empty());
            assert(obj_upsert(ms1.drop_first(), "password"@, JsonVal::Num(self.password as int))
                =~= seq![("password"@, JsonVal::Num(self.password as int))]);
            assert(obj_upsert(ms1, "password"@, JsonVal::Num(self.password as int)) =~= msv);
            lemma_struct_end_state(s0, name@, msv);
            if put_val(s0, name@, JsonVal::Obj(msv)) is Ok {
                lemma_put_val_wf(s0, name@, JsonVal::Obj(msv));
            }
        }
        match ser.serialize_struct_end() {
            Ok(_) => Ok(()),
            Err(e) => Err(e),
        }
    }
}

impl Deserialize for PlainUser {
    open spec fn de_err(v: JsonVal) -> Result<(), CJsonError> {
        match field_of(v, "user"@) {
            Err(e) => Err(e),
            Ok(x) => match <u32 as Deserialize>::de_err(x) {
                Err(e) => Err(e),
                Ok(u) => match field_of(v, "password"@) {
                    Err(e) => Err(e),
                    Ok(y) => <u32 as Deserialize>::de_err(y),
                },
            },
        }
    }

    open spec fn decodes_to(v: JsonVal, r: Self) -> bool {
        &&& field_of(v, "user"@) is Ok
        &&& <u32 as Deserialize>::decodes_to(field_of(v, "user"@)->Ok_0, r.user)
        &&& field_of(v, "password"@) is Ok
        &&& <u32 as Deserialize>::decodes_to(field_of(v, "password"@)->Ok_0, r.password)
    }

    fn deserialize(de: &mut JsonDeserializer, name: &str) -> (r: Result<Self, CJsonError>) {
        broadcast use crate::de::lemma_resolve_named;
        broadcast use vstd::string::group_string_axioms;

        proof {
            reveal_strlit("user");
            reveal_strlit("password");
        }
        match de.deserialize_struct_start(name) {
            Ok(_) => {},
            Err(e) => {
                return Err(e);
            },
        }
        let user = match de.deserialize_u32("user") {
            Ok(x) => x,
            Err(e) => {
                return Err(e);
            },
        };
        let password = match de.deserialize_u32("password") {
            Ok(x) => x,
            Err(e) => {
                return Err(e);
            },
        };
        if !name.is_empty() {
            match de.deserialize_struct_end() {
                Ok(_) => {},
                Err(e) => {
                    return Err(e);
                },
            }
        }
        Ok(PlainUser { user, password })
    }
}

/// A versioned table of two credential pairs, kept as a fixed-size
/// array of two records.
#[derive(Debug, Clone, PartialEq)]
pub struct PlainConfig {
    pub version: u8,
    pub users: Vec<PlainUser>,
}

/// The members `PlainConfig` writes, in field order.
pub open spec fn plain_config_members(c: PlainConfig) -> Seq<(Seq<char>, JsonVal)> {
    seq![
        ("version"@, JsonVal::Num(c.version as int)),
        ("users"@, JsonVal::Arr(crate::ser::ser_models::<PlainUser>(c.users@))),
    ]
}

impl Serialize for PlainConfig {
    open spec fn ser_spec(&self) -> Result<JsonVal, CJsonError> {
        Ok(JsonVal::Obj(plain_config_members(*self)))
    }

    fn serialize(&self, name: &str, ser: &mut JsonSerializer) -> (r: CJsonResult<()>) {
        let ghost s0 = ser@;
        let ghost msv = plain_config_members(*self);
        let ghost models = crate::ser::ser_models::<PlainUser>(self.users@);
        proof {
            lemma_struct_start_cases(s0, name@, msv);
        }
        match ser.serialize_struct_start(name, 2) {
            Ok(_) => {},
            Err(e) => {
                return Err(e);
            },
        }
        proof {
            broadcast use vstd::string::group_string_axioms;

            reveal_strlit("version");
            reveal_strlit("users");
            lemma_struct_start_state(s0, name@);
            lemma_struct_field(
                s0,
                name@,
                Seq::empty(),
                "version"@,
                JsonVal::Num(self.version as int),
            );
        }
        let ghost ms1 = obj_upsert(Seq::empty(), "version"@, JsonVal::Num(self.version as int));
        match ser.serialize_u8("version", self.version) {
            Ok(_) => {},
            Err(e) => {
                return Err(e);
            },
        }
        proof {
            reveal_strlit("version");
            reveal_strlit("users");
            crate::ser::lemma_ser_seq_all_ok::<PlainUser>(self.users@);
            lemma_struct_field(s0, name@, ms1, "users"@, JsonVal::Arr(models));
            lemma_struct_field(
                s0,
                name@,
                ms1,
                "users"@,
                JsonVal::Arr(Seq::<JsonVal>::empty()),
            );
        }
        match ser.serialize_array("users", &self.users) {
            Ok(_) => {},
            Err(e) => {
                return Err(e);
            },
        }
        proof {
            broadcast use vstd::string::group_string_axioms;

            reveal_strlit("version");
            reveal_strlit("users");
            assert("version"@.len() == 7);
            assert("users"@.len() == 5);
            assert("version"@ != "users"@);
            assert(ms1 =~= seq![("version"@, JsonVal::Num(self.version as int))]);
            assert(ms1.drop_first() =~= Seq::<(Seq<char>, JsonVal)>::empty());
            assert(obj_upsert(ms1.drop_first(), "users"@, JsonVal::Arr(models)) =~= seq![
                ("users"@, JsonVal::Arr(models)),
            ]);
            assert(obj_upsert(ms1, "users"@, JsonVal::Arr(models)) =~= msv);
            lemma_struct_end_state(s0, name@, msv);
            if put_val(s0, name@, JsonVal::Obj(msv)) is Ok {
                lemma_put_val_wf(s0, name@, JsonVal::Obj(msv));
            }
        }
        match ser.serialize_struct_end() {
            Ok(_) => Ok(()),
            Err(e) => Err(e),
        }
    }
}

impl Deserialize for PlainConfig {
    open spec fn de_err(v: JsonVal) -> Result<(), CJsonError> {
        match field_of(v, "version"@) {
            Err(e) => Err(e),
            Ok(x) => match <u8 as Deserialize>::de_err(x) {
                Err(e) => Err(e),
                Ok(u) => match field_of(v, "users"@) {
                    Err(e) => Err(e),
                    Ok(y) => match y {
                        JsonVal::Arr(elems) => match crate::de::de_seq_err::<PlainUser>(elems) {
                            Ok(w) => if elems.len() == 2 {
                                Ok(())
                            } else {
                                Err(CJsonError::InvalidOperation)
                            },
                            Err(e) => Err(e),
                        },
                        _ => Err(CJsonError::TypeError),
                    },
                },
            },
        }
    }

    open spec fn decodes_to(v: JsonVal, r: Self) -> bool {
        &&& field_of(v, "version"@) is Ok
        &&& <u8 as Deserialize>::decodes_to(field_of(v, "version"@)->Ok_0, r.version)
        &&& field_of(v, "users"@) is Ok
        &&& <Vec<PlainUser> as Deserialize>::decodes_to(field_of(v, "users"@)->Ok_0, r.users)
    }

    fn deserialize(de: &mut JsonDeserializer, name: &str) -> (r: Result<Self, CJsonError>) {
        broadcast use crate::de::lemma_resolve_named;
        broadcast use vstd::string::group_string_axioms;

        proof {
            reveal_strlit("version");
            reveal_strlit("users");
        }
        match de.deserialize_struct_start(name) {
            Ok(_) => {},
            Err(e) => {
                return Err(e);
            },
        }
        let version = match de.deserialize_u8("version") {
            Ok(x) => x,
            Err(e) => {
                return Err(e);
            },
        };
        let users = match de.deserialize_array::<PlainUser>("users", 2) {
            Ok(x) => x,
            Err(e) => {
                return Err(e);
            },
        };
        if !name.is_empty() {
            match de.deserialize_struct_end() {
                Ok(_) => {},
                Err(e) => {
                    return Err(e);
                },
            }
        }
        Ok(PlainConfig { version, users })
    }
}

/// A record holding one fixed-size array of no elements.
#[derive(Debug, Clone, PartialEq)]
pub struct EmptyArrayConfig {
    pub items: Vec<u32>,
}

/// The members `EmptyArrayConfig` writes.
pub open spec fn empty_array_config_members(c: EmptyArrayConfig) -> Seq<(Seq<char>, JsonVal)> {
    seq![("items"@, JsonVal::Arr(crate::ser::ser_models::<u32>(c.items@)))]
}

impl Serialize for EmptyArrayConfig {
    open spec fn ser_spec(&self) -> Result<JsonVal, CJsonError> {
        Ok(JsonVal::Obj(empty_array_config_members(*self)))
    }

    fn serialize(&self, name: &str, ser: &mut JsonSerializer) -> (r: CJsonResult<()>) {
        let ghost s0 = ser@;
        let ghost msv = empty_array_config_members(*self);
        let ghost models = crate::ser::ser_models::<u32>(self.items@);
        proof {
            lemma_struct_start_cases(s0, name@, msv);
        }
        match ser.serialize_struct_start(name, 1) {
            Ok(_) => {},
            Err(e) => {
                return Err(e);
            },
        }
        proof {
            lemma_struct_start_state(s0, name@);
            crate::ser::lemma_ser_seq_all_ok::<u32>(self.items@);
            lemma_struct_field(s0, name@, Seq::empty(), "items"@, JsonVal::Arr(models));
            lemma_struct_field(
                s0,
                name@,
                Seq::empty(),
                "items"@,
                JsonVal::Arr(Seq::<JsonVal>::empty()),
            );
        }
        match ser.serialize_vec("items", &self.items) {
            Ok(_) => {},
            Err(e) => {
                return Err(e);
            },
        }
        proof {
            assert(obj_upsert(Seq::empty(), "items"@, JsonVal::Arr(models)) =~= msv);
            lemma_struct_end_state(s0, name@, msv);
            if put_val(s0, name@, JsonVal::Obj(msv)) is Ok {
                lemma_put_val_wf(s0, name@, JsonVal::Obj(msv));
            }
        }
        match ser.serialize_struct_end() {
            Ok(_) => Ok(()),
            Err(e) => Err(e),
        }
    }
}

impl Deserialize for EmptyArrayConfig {
    open spec fn de_err(v: JsonVal) -> Result<(), CJsonError> {
        match field_of(v, "items"@) {
            Err(e) => Err(e),
            Ok(y) => match y {
                JsonVal::Arr(elems) => match crate::de::de_seq_err::<u32>(elems) {
                    Ok(w) => if elems.len() == 0 {
                        Ok(())
                    } else {
                        Err(CJsonError::InvalidOperation)
                    },
                    Err(e) => Err(e),
                },
                _ => Err(CJsonError::TypeError),
            },
        }
    }

    open spec fn decodes_to(v: JsonVal, r: Self) -> bool {
        &&& field_of(v, "items"@) is Ok
        &&& <Vec<u32> as Deserialize>::decodes_to(field_of(v, "items"@)->Ok_0, r.items)
    }

    fn deserialize(de: &mut JsonDeserializer, name: &str) -> (r: Result<Self, CJsonError>) {
        broadcast use crate::de::lemma_resolve_named;
        broadcast use vstd::string::group_string_axioms;

        proof {
            reveal_strlit("items");
        }
        match de.deserialize_struct_start(name) {
            Ok(_) => {},
            Err(e) => {
                return Err(e);
            },
        }
        let items = match de.deserialize_array::<u32>("items", 0) {
            Ok(x) => x,
            Err(e) => {
                return Err(e);
            },
        };
        if !name.is_empty() {
            match de.deserialize_struct_end() {
                Ok(_) => {},
                Err(e) => {
                    return Err(e);
                },
            }
        }
        Ok(EmptyArrayConfig { items })
    }
}

proof fn user_config_keys()
    ensures
        "user"@.len() == 4,
        "password"@.len() == 8,
        "user"@ != "password"@,
{
    broadcast use vstd::string::group_string_axioms;

    reveal_strlit("user");
    reveal_strlit("password");
}

/// One stored credential: a user name and a password, each a byte
/// buffer.
#[derive(Debug, Clone)]
pub struct UserConfig {
    pub user: Bytes,
    pub password: Bytes,
}

/// The capacity of the short byte buffers (serial numbers).
pub const BUF16: usize = 16;

/// The capacity of the medium byte buffers (names, hosts).
pub const BUF32: usize = 32;

/// The capacity of the long byte buffers (passwords).
pub const BUF64: usize = 64;

/// The members `UserConfig` writes, in field order.
pub open spec fn user_config_members(c: UserConfig) -> Seq<(Seq<char>, JsonVal)> {
    seq![
        ("user"@, JsonVal::Str(crate::hex::hex_of(c.user@))),
        ("password"@, JsonVal::Str(crate::hex::hex_of(c.password@))),
    ]
}

impl Serialize for UserConfig {
    open spec fn ser_spec(&self) -> Result<JsonVal, CJsonError> {
        Ok(JsonVal::Obj(user_config_members(*self)))
    }

    fn serialize(&self, name: &str, ser: &mut JsonSerializer) -> (r: CJsonResult<()>) {
        let ghost s0 = ser@;
        let ghost msv = user_config_members(*self);
        let ghost p1 = ("user"@, JsonVal::Str(crate::hex::hex_of(self.user@)));
        let ghost p2 = ("password"@, JsonVal::Str(crate::hex::hex_of(self.password@)));
        let ghost m0: Seq<(Seq<char>, JsonVal)> = Seq::empty();
        let ghost m1 = m0.push(p1);
        let ghost m2 = m1.push(p2);
        proof {
            lemma_struct_start_cases(s0, name@, msv);
        }
        match ser.serialize_struct_start(name, 2) {
            Ok(_) => {},
            Err(e) => {
                return Err(e);
            },
        }
        proof {
            user_config_keys();
            lemma_struct_start_state(s0, name@);
            crate::cjson::lemma_upsert_absent(m0, p1.0, p1.1);
            assert(obj_upsert(m0, p1.0, p1.1) =~= m1);
            lemma_struct_field(s0, name@, m0, p1.0, p1.1);
        }
        match ser.serialize_bytes("user", self.user.as_bytes()) {
            Ok(_) => {},
            Err(e) => {
                return Err(e);
            },
        }
        proof {
            user_config_keys();
            assert(forall|j: int| 0 <= j < m1.len() ==> (#[trigger] m1[j]).0 != p2.0);
            crate::cjson::lemma_upsert_absent(m1, p2.0, p2.1);
            assert(obj_upsert(m1, p2.0, p2.1) =~= m2);
            lemma_struct_field(s0, name@, m1, p2.0, p2.1);
        }
        match ser.serialize_bytes("password", self.password.as_bytes()) {
            Ok(_) => {},
            Err(e) => {
                return Err(e);
            },
        }
        proof {
            assert(m2 =~= msv);
            lemma_struct_end_state(s0, name@, msv);
            if put_val(s0, name@, JsonVal::Obj(msv)) is Ok {
                lemma_put_val_wf(s0, name@, JsonVal::Obj(msv));
            }
        }
        match ser.serialize_struct_end() {
            Ok(_) => Ok(()),
            Err(e) => Err(e),
        }
    }
}

impl Deserialize for UserConfig {
    open spec fn de_err(v: JsonVal) -> Result<(), CJsonError> {
        match field_of(v, "user"@) {
            Err(e) => Err(e),
            Ok(x) => match crate::de::de_bytes_of(x, BUF32 as nat) {
                Err(e) => Err(e),
                Ok(u) => match field_of(v, "password"@) {
                    Err(e) => Err(e),
                    Ok(y) => match crate::de::de_bytes_of(y, BUF64 as nat) {
                        Err(e) => Err(e),
                        Ok(w) => Ok(()),
                    },
                },
            },
        }
    }

    open spec fn decodes_to(v: JsonVal, r: Self) -> bool {
        &&& field_of(v, "user"@) is Ok
        &&& crate::de::de_bytes_of(field_of(v, "user"@)->Ok_0, BUF32 as nat) == Ok::<
            Seq<u8>,
            CJsonError,
        >(r.user@)
        &&& r.user.spec_cap() == BUF32 && r.user.wf()
        &&& field_of(v, "password"@) is Ok
        &&& crate::de::de_bytes_of(field_of(v, "password"@)->Ok_0, BUF64 as nat) == Ok::<
            Seq<u8>,
            CJsonError,
        >(r.password@)
        &&& r.password.spec_cap() == BUF64 && r.password.wf()
    }

    fn deserialize(de: &mut JsonDeserializer, name: &str) -> (r: Result<Self, CJsonError>) {
        broadcast use crate::de::lemma_resolve_named;

        proof {
            user_config_keys();
        }
        match de.deserialize_struct_start(name) {
            Ok(_) => {},
            Err(e) => {
                return Err(e);
            },
        }
        let user_bytes = match de.deserialize_bytes("user", BUF32) {
            Ok(b) => b,
            Err(e) => {
                return Err(e);
            },
        };
        let user = Bytes::from_vec(BUF32, user_bytes);
        let password_bytes = match de.deserialize_bytes("password", BUF64) {
            Ok(b) => b,
            Err(e) => {
                return Err(e);
            },
        };
        let password = Bytes::from_vec(BUF64, password_bytes);
        if !name.is_empty() {
            match de.deserialize_struct_end() {
                Ok(_) => {},
                Err(e) => {
                    return Err(e);
                },
            }
        }
        Ok(UserConfig { user, password })
    }
}

proof fn wifi_config_keys()
    ensures
        "ssid"@.len() == 4,
        "password"@.len() == 8,
        "hostname"@.len() == 8,
        "auth"@.len() == 4,
        "enabled"@.len() == 7,
        "ssid"@ != "password"@,
        "ssid"@ != "hostname"@,
        "ssid"@ != "auth"@,
        "ssid"@ != "enabled"@,
        "password"@ != "hostname"@,
        "password"@ != "auth"@,
        "password"@ != "enabled"@,
        "hostname"@ != "auth"@,
        "hostname"@ != "enabled"@,
        "auth"@ != "enabled"@,
{
    broadcast use vstd::string::group_string_axioms;

    reveal_strlit("ssid");
    reveal_strlit("password");
    reveal_strlit("hostname");
    reveal_strlit("auth");
    reveal_strlit("enabled");
    assert("password"@[0] == 'p');
    assert("hostname"@[0] == 'h');
    assert("ssid"@[0] == 's');
    assert("auth"@[0] == 'a');
}

/// Wireless settings: network name, password, host name, an
/// authentication mode, and an on/off switch.
#[derive(Debug, Clone)]
pub struct WifiConfig {
    pub ssid: Bytes,
    pub password: Bytes,
    pub hostname: Bytes,
    pub auth: u8,
    pub enabled: bool,
}

/// The members `WifiConfig` writes, in field order.
pub open spec fn wifi_config_members(c: WifiConfig) -> Seq<(Seq<char>, JsonVal)> {
    seq![
        ("ssid"@, JsonVal::Str(crate::hex::hex_of(c.ssid@))),
        ("password"@, JsonVal::Str(crate::hex::hex_of(c.password@))),
        ("hostname"@, JsonVal::Str(crate::hex::hex_of(c.hostname@))),
        ("auth"@, JsonVal::Num(c.auth as int)),
        ("enabled"@, JsonVal::Bool(c.enabled)),
    ]
}

impl Serialize for WifiConfig {
    open spec fn ser_spec(&self) -> Result<JsonVal, CJsonError> {
        Ok(JsonVal::Obj(wifi_config_members(*self)))
    }

    fn serialize(&self, name: &str, ser: &mut JsonSerializer) -> (r: CJsonResult<()>) {
        let ghost s0 = ser@;
        let ghost msv = wifi_config_members(*self);
        let ghost p1 = ("ssid"@, JsonVal::Str(crate::hex::hex_of(self.ssid@)));
        let ghost p2 = ("password"@, JsonVal::Str(crate::hex::hex_of(self.password@)));
        let ghost p3 = ("hostname"@, JsonVal::Str(crate::hex::hex_of(self.hostname@)));
        let ghost p4 = ("auth"@, JsonVal::Num(self.auth as int));
        let ghost p5 = ("enabled"@, JsonVal::Bool(self.enabled));
        let ghost m0: Seq<(Seq<char>, JsonVal)> = Seq::empty();
        let ghost m1 = m0.push(p1);
        let ghost m2 = m1.push(p2);
        let ghost m3 = m2.push(p3);
        let ghost m4 = m3.push(p4);
        let ghost m5 = m4.push(p5);
        proof {
            lemma_struct_start_cases(s0, name@, msv);
        }
        match ser.serialize_struct_start(name, 5) {
            Ok(_) => {},
            Err(e) => {
                return Err(e);
            },
        }
        proof {
            wifi_config_keys();
            lemma_struct_start_state(s0, name@);
        }
        proof {
            wifi_config_keys();
            crate::cjson::lemma_upsert_absent(m0, p1.0, p1.1);
            assert(obj_upsert(m0, p1.0, p1.1) =~= m1);
            lemma_struct_field(s0, name@, m0, p1.0, p1.1);
        }
        match ser.serialize_bytes("ssid", self.ssid.as_bytes()) {
            Ok(_) => {},
            Err(e) => {
                return Err(e);
            },
        }
        proof {
            wifi_config_keys();
            assert(forall|j: int| 0 <= j < m1.len() ==> (#[trigger] m1[j]).0 != p2.0);
            crate::cjson::lemma_upsert_absent(m1, p2.0, p2.1);
            assert(obj_upsert(m1, p2.0, p2.1) =~= m2);
            lemma_struct_field(s0, name@, m1, p2.0, p2.1);
        }
        match ser.serialize_bytes("password", self.password.as_bytes()) {
            Ok(_) => {},
            Err(e) => {
                return Err(e);
            },
        }
        proof {
            wifi_config_keys();
            assert(forall|j: int| 0 <= j < m2.len() ==> (#[trigger] m2[j]).0 != p3.0);
            crate::cjson::lemma_upsert_absent(m2, p3.0, p3.1);
            assert(obj_upsert(m2, p3.0, p3.1) =~= m3);
            lemma_struct_field(s0, name@, m2, p3.0, p3.1);
        }
        match ser.serialize_bytes("hostname", self.hostname.as_bytes()) {
            Ok(_) => {},
            Err(e) => {
                return Err(e);
            },
        }
        proof {
            wifi_config_keys();
            assert(forall|j: int| 0 <= j < m3.len() ==> (#[trigger] m3[j]).0 != p4.0);
            crate::cjson::lemma_upsert_absent(m3, p4.0, p4.1);
            assert(obj_upsert(m3, p4.0, p4.1) =~= m4);
            lemma_struct_field(s0, name@, m3, p4.0, p4.1);
        }
        match ser.serialize_u8("auth", self.auth) {
            Ok(_) => {},
            Err(e) => {
                return Err(e);
            },
        }
        proof {
            wifi_config_keys();
            assert(forall|j: int| 0 <= j < m4.len() ==> (#[trigger] m4[j]).0 != p5.0);
            crate::cjson::lemma_upsert_absent(m4, p5.0, p5.1);
            assert(obj_upsert(m4, p5.0, p5.1) =~= m5);
            lemma_struct_field(s0, name@, m4, p5.0, p5.1);
        }
        match ser.serialize_bool("enabled", self.enabled) {
            Ok(_) => {},
            Err(e) => {
                return Err(e);
            },
        }
        proof {
            assert(m5 =~= msv);
            lemma_struct_end_state(s0, name@, msv);
            if put_val(s0, name@, JsonVal::Obj(msv)) is Ok {
                lemma_put_val_wf(s0, name@, JsonVal::Obj(msv));
            }
        }
        match ser.serialize_struct_end() {
            Ok(_) => Ok(()),
            Err(e) => Err(e),
        }
    }
}

impl Deserialize for WifiConfig {
    open spec fn de_err(v: JsonVal) -> Result<(), CJsonError> {
        match field_of(v, "ssid"@) { Err(e) => Err(e), Ok(x) => match crate::de::de_bytes_of(x, BUF32 as nat) { Err(e) => Err(e), Ok(u) => match field_of(v, "password"@) { Err(e) => Err(e), Ok(x) => match crate::de::de_bytes_of(x, BUF64 as nat) { Err(e) => Err(e), Ok(u) => match field_of(v, "hostname"@) { Err(e) => Err(e), Ok(x) => match crate::de::de_bytes_of(x, BUF32 as nat) { Err(e) => Err(e), Ok(u) => match field_of(v, "auth"@) { Err(e) => Err(e), Ok(x) => match <u8 as Deserialize>::de_err(x) { Err(e) => Err(e), Ok(u) => match field_of(v, "enabled"@) { Err(e) => Err(e), Ok(x) => match <bool as Deserialize>::de_err(x) { Err(e) => Err(e), Ok(u) => Ok(()) } } } } } } } } } }
    }

    open spec fn decodes_to(v: JsonVal, r: Self) -> bool {
        &&& field_of(v, "ssid"@) is Ok
        &&& crate::de::de_bytes_of(field_of(v, "ssid"@)->Ok_0, BUF32 as nat) == Ok::<Seq<u8>, CJsonError>(r.ssid@)
        &&& r.ssid.spec_cap() == BUF32 && r.ssid.wf()
        &&& field_of(v, "password"@) is Ok
        &&& crate::de::de_bytes_of(field_of(v, "password"@)->Ok_0, BUF64 as nat) == Ok::<Seq<u8>, CJsonError>(r.password@)
        &&& r.password.spec_cap() == BUF64 && r.password.wf()
        &&& field_of(v, "hostname"@) is Ok
        &&& crate::de::de_bytes_of(field_of(v, "hostname"@)->Ok_0, BUF32 as nat) == Ok::<Seq<u8>, CJsonError>(r.hostname@)
        &&& r.hostname.spec_cap() == BUF32 && r.hostname.wf()
        &&& field_of(v, "auth"@) is Ok
        &&& <u8 as Deserialize>::decodes_to(field_of(v, "auth"@)->Ok_0, r.auth)
        &&& field_of(v, "enabled"@) is Ok
        &&& <bool as Deserialize>::decodes_to(field_of(v, "enabled"@)->Ok_0, r.enabled)
    }

    fn deserialize(de: &mut JsonDeserializer, name: &str) -> (r: Result<Self, CJsonError>) {
        broadcast use crate::de::lemma_resolve_named;

        proof {
            wifi_config_keys();
        }
        match de.deserialize_struct_start(name) {
            Ok(_) => {},
            Err(e) => {
                return Err(e);
            },
        }
        let ssid_bytes = match de.deserialize_bytes("ssid", BUF32) {
            Ok(x) => x,
            Err(e) => {
                return Err(e);
            },
        };
        let ssid = Bytes::from_vec(BUF32, ssid_bytes);
        let password_bytes = match de.deserialize_bytes("password", BUF64) {
            Ok(x) => x,
            Err(e) => {
                return Err(e);
            },
        };
        let password = Bytes::from_vec(BUF64, password_bytes);
        let hostname_bytes = match de.deserialize_bytes("hostname", BUF32) {
            Ok(x) => x,
            Err(e) => {
                return Err(e);
            },
        };
        let hostname = Bytes::from_vec(BUF32, hostname_bytes);
        let auth = match de.deserialize_u8("auth") {
            Ok(x) => x,
            Err(e) => {
                return Err(e);
            },
        };
        let enabled = match de.deserialize_bool("enabled") {
            Ok(x) => x,
            Err(e) => {
                return Err(e);
            },
        };
        if !name.is_empty() {
            match de.deserialize_struct_end() {
                Ok(_) => {},
                Err(e) => {
                    return Err(e);
                },
            }
        }
        Ok(WifiConfig { ssid, password, hostname, auth, enabled })
    }
}

proof fn ntp_config_keys()
    ensures
        "server"@.len() == 6,
        "port"@.len() == 4,
        "msg_len"@.len() == 7,
        "enabled"@.len() == 7,
        "server"@ != "port"@,
        "server"@ != "msg_len"@,
        "server"@ != "enabled"@,
        "port"@ != "msg_len"@,
        "port"@ != "enabled"@,
        "msg_len"@ != "enabled"@,
{
    broadcast use vstd::string::group_string_axioms;

    reveal_strlit("server");
    reveal_strlit("port");
    reveal_strlit("msg_len");
    reveal_strlit("enabled");
    assert("msg_len"@[0] == 'm');
    assert("enabled"@[0] == 'e');
}

/// Time-service settings: server name, port, message length, and
/// an on/off switch.
#[derive(Debug, Clone)]
pub struct NtpConfig {
    pub server: Bytes,
    pub port: u16,
    pub msg_len: u16,
    pub enabled: bool,
}

/// The members `NtpConfig` writes, in field order.
pub open spec fn ntp_config_members(c: NtpConfig) -> Seq<(Seq<char>, JsonVal)> {
    seq![
        ("server"@, JsonVal::Str(crate::hex::hex_of(c.server@))),
        ("port"@, JsonVal::Num(c.port as int)),
        ("msg_len"@, JsonVal::Num(c.msg_len as int)),
        ("enabled"@, JsonVal::Bool(c.enabled)),
    ]
}

impl Serialize for NtpConfig {
    open spec fn ser_spec(&self) -> Result<JsonVal, CJsonError> {
        Ok(JsonVal::Obj(ntp_config_members(*self)))
    }

    fn serialize(&self, name: &str, ser: &mut JsonSerializer) -> (r: CJsonResult<()>) {
        let ghost s0 = ser@;
        let ghost msv = ntp_config_members(*self);
        let ghost p1 = ("server"@, JsonVal::Str(crate::hex::hex_of(self.server@)));
        let ghost p2 = ("port"@, JsonVal::Num(self.port as int));
        let ghost p3 = ("msg_len"@, JsonVal::Num(self.msg_len as int));
        let ghost p4 = ("enabled"@, JsonVal::Bool(self.enabled));
        let ghost m0: Seq<(Seq<char>, JsonVal)> = Seq::empty();
        let ghost m1 = m0.push(p1);
        let ghost m2 = m1.push(p2);
        let ghost m3 = m2.push(p3);
        let ghost m4 = m3.push(p4);
        proof {
            lemma_struct_start_cases(s0, name@, msv);
        }
        match ser.serialize_struct_start(name, 4) {
            Ok(_) => {},
            Err(e) => {
                return Err(e);
            },
        }
        proof {
            ntp_config_keys();
            lemma_struct_start_state(s0, name@);
        }
        proof {
            ntp_config_keys();
            crate::cjson::lemma_upsert_absent(m0, p1.0, p1.1);
            assert(obj_upsert(m0, p1.0, p1.1) =~= m1);
            lemma_struct_field(s0, name@, m0, p1.0, p1.1);
        }
        match ser.serialize_bytes("server", self.server.as_bytes()) {
            Ok(_) => {},
            Err(e) => {
                return Err(e);
            },
        }
        proof {
            ntp_config_keys();
            assert(forall|j: int| 0 <= j < m1.len() ==> (#[trigger] m1[j]).0 != p2.0);
            crate::cjson::lemma_upsert_absent(m1, p2.0, p2.1);
            assert(obj_upsert(m1, p2.0, p2.1) =~= m2);
            lemma_struct_field(s0, name@, m1, p2.0, p2.1);
        }
        match ser.serialize_u16("port", self.port) {
            Ok(_) => {},
            Err(e) => {
                return Err(e);
            },
        }
        proof {
            ntp_config_keys();
            assert(forall|j: int| 0 <= j < m2.len() ==> (#[trigger] m2[j]).0 != p3.0);
            crate::cjson::lemma_upsert_absent(m2, p3.0, p3.1);
            assert(obj_upsert(m2, p3.0, p3.1) =~= m3);
            lemma_struct_field(s0, name@, m2, p3.0, p3.1);
        }
        match ser.serialize_u16("msg_len", self.msg_len) {
            Ok(_) => {},
            Err(e) => {
                return Err(e);
            },
        }
        proof {
            ntp_config_keys();
            assert(forall|j: int| 0 <= j < m3.len() ==> (#[trigger] m3[j]).0 != p4.0);
            crate::cjson::lemma_upsert_absent(m3, p4.0, p4.1);
            assert(obj_upsert(m3, p4.0, p4.1) =~= m4);
            lemma_struct_field(s0, name@, m3, p4.0, p4.1);
        }
        match ser.serialize_bool("enabled", self.enabled) {
            Ok(_) => {},
            Err(e) => {
                return Err(e);
            },
        }
        proof {
            assert(m4 =~= msv);
            lemma_struct_end_state(s0, name@, msv);
            if put_val(s0, name@, JsonVal::Obj(msv)) is Ok {
                lemma_put_val_wf(s0, name@, JsonVal::Obj(msv));
            }
        }
        match ser.serialize_struct_end() {
            Ok(_) => Ok(()),
            Err(e) => Err(e),
        }
    }
}

impl Deserialize for NtpConfig {
    open spec fn de_err(v: JsonVal) -> Result<(), CJsonError> {
        match field_of(v, "server"@) { Err(e) => Err(e), Ok(x) => match crate::de::de_bytes_of(x, BUF32 as nat) { Err(e) => Err(e), Ok(u) => match field_of(v, "port"@) { Err(e) => Err(e), Ok(x) => match <u16 as Deserialize>::de_err(x) { Err(e) => Err(e), Ok(u) => match field_of(v, "msg_len"@) { Err(e) => Err(e), Ok(x) => match <u16 as Deserialize>::de_err(x) { Err(e) => Err(e), Ok(u) => match field_of(v, "enabled"@) { Err(e) => Err(e), Ok(x) => match <bool as Deserialize>::de_err(x) { Err(e) => Err(e), Ok(u) => Ok(()) } } } } } } } }
    }

    open spec fn decodes_to(v: JsonVal, r: Self) -> bool {
        &&& field_of(v, "server"@) is Ok
        &&& crate::de::de_bytes_of(field_of(v, "server"@)->Ok_0, BUF32 as nat) == Ok::<Seq<u8>, CJsonError>(r.server@)
        &&& r.server.spec_cap() == BUF32 && r.server.wf()
        &&& field_of(v, "port"@) is Ok
        &&& <u16 as Deserialize>::decodes_to(field_of(v, "port"@)->Ok_0, r.port)
        &&& field_of(v, "msg_len"@) is Ok
        &&& <u16 as Deserialize>::decodes_to(field_of(v, "msg_len"@)->Ok_0, r.msg_len)
        &&& field_of(v, "enabled"@) is Ok
        &&& <bool as Deserialize>::decodes_to(field_of(v, "enabled"@)->Ok_0, r.enabled)
    }

    fn deserialize(de: &mut JsonDeserializer, name: &str) -> (r: Result<Self, CJsonError>) {
        broadcast use crate::de::lemma_resolve_named;

        proof {
            ntp_config_keys();
        }
        match de.deserialize_struct_start(name) {
            Ok(_) => {},
            Err(e) => {
                return Err(e);
            },
        }
        let server_bytes = match de.deserialize_bytes("server", BUF32) {
            Ok(x) => x,
            Err(e) => {
                return Err(e);
            },
        };
        let server = Bytes::from_vec(BUF32, server_bytes);
        let port = match de.deserialize_u16("port") {
            Ok(x) => x,
            Err(e) => {
                return Err(e);
            },
        };
        let msg_len = match de.deserialize_u16("msg_len") {
            Ok(x) => x,
            Err(e) => {
                return Err(e);
            },
        };
        let enabled = match de.deserialize_bool("enabled") {
            Ok(x) => x,
            Err(e) => {
                return Err(e);
            },
        };
        if !name.is_empty() {
            match de.deserialize_struct_end() {
                Ok(_) => {},
                Err(e) => {
                    return Err(e);
                },
            }
        }
        Ok(NtpConfig { server, port, msg_len, enabled })
    }
}

proof fn config_keys()
    ensures
        "version"@.len() == 7,
        "serial"@.len() == 6,
        "timezone"@.len() == 8,
        "daylight_saving_time"@.len() == 20,
        "users"@.len() == 5,
        "wifi"@.len() == 4,
        "ntp"@.len() == 3,
        "version"@ != "serial"@,
        "version"@ != "timezone"@,
        "version"@ != "daylight_saving_time"@,
        "version"@ != "users"@,
        "version"@ != "wifi"@,
        "version"@ != "ntp"@,
        "serial"@ != "timezone"@,
        "serial"@ != "daylight_saving_time"@,
        "serial"@ != "users"@,
        "serial"@ != "wifi"@,
        "serial"@ != "ntp"@,
        "timezone"@ != "daylight_saving_time"@,
        "timezone"@ != "users"@,
        "timezone"@ != "wifi"@,
        "timezone"@ != "ntp"@,
        "daylight_saving_time"@ != "users"@,
        "daylight_saving_time"@ != "wifi"@,
        "daylight_saving_time"@ != "ntp"@,
        "users"@ != "wifi"@,
        "users"@ != "ntp"@,
        "wifi"@ != "ntp"@,
{
    broadcast use vstd::string::group_string_axioms;

    reveal_strlit("version");
    reveal_strlit("serial");
    reveal_strlit("timezone");
    reveal_strlit("daylight_saving_time");
    reveal_strlit("users");
    reveal_strlit("wifi");
    reveal_strlit("ntp");
}

/// The device configuration: scalar settings, a fixed-size array of
/// two stored credentials, and two nested sub-records.
#[derive(Debug, Clone)]
pub struct Config {
    pub version: u8,
    pub serial: Bytes,
    pub timezone: u16,
    pub daylight_saving_time: bool,
    pub users: Vec<UserConfig>,
    pub wifi: WifiConfig,
    pub ntp: NtpConfig,
}

/// The members `Config` writes, in field order.
pub open spec fn config_members(c: Config) -> Seq<(Seq<char>, JsonVal)> {
    seq![
        ("version"@, JsonVal::Num(c.version as int)),
        ("serial"@, JsonVal::Str(crate::hex::hex_of(c.serial@))),
        ("timezone"@, JsonVal::Num(c.timezone as int)),
        ("daylight_saving_time"@, JsonVal::Bool(c.daylight_saving_time)),
        ("users"@, JsonVal::Arr(crate::ser::ser_models::<UserConfig>(c.users@))),
        ("wifi"@, JsonVal::Obj(wifi_config_members(c.wifi))),
        ("ntp"@, JsonVal::Obj(ntp_config_members(c.ntp))),
    ]
}

impl Serialize for Config {
    open spec fn ser_spec(&self) -> Result<JsonVal, CJsonError> {
        Ok(JsonVal::Obj(config_members(*self)))
    }

    fn serialize(&self, name: &str, ser: &mut JsonSerializer) -> (r: CJsonResult<()>) {
        let ghost s0 = ser@;
        let ghost msv = config_members(*self);
        let ghost p1 = ("version"@, JsonVal::Num(self.version as int));
        let ghost p2 = ("serial"@, JsonVal::Str(crate::hex::hex_of(self.serial@)));
        let ghost p3 = ("timezone"@, JsonVal::Num(self.timezone as int));
        let ghost p4 = ("daylight_saving_time"@, JsonVal::Bool(self.daylight_saving_time));
        let ghost p5 = ("users"@, JsonVal::Arr(crate::ser::ser_models::<UserConfig>(self.users@)));
        let ghost p6 = ("wifi"@, JsonVal::Obj(wifi_config_members(self.wifi)));
        let ghost p7 = ("ntp"@, JsonVal::Obj(ntp_config_members(self.ntp)));
        let ghost m0: Seq<(Seq<char>, JsonVal)> = Seq::empty();
        let ghost m1 = m0.push(p1);
        let ghost m2 = m1.push(p2);
        let ghost m3 = m2.push(p3);
        let ghost m4 = m3.push(p4);
        let ghost m5 = m4.push(p5);
        let ghost m6 = m5.push(p6);
        let ghost m7 = m6.push(p7);
        proof {
            lemma_struct_start_cases(s0, name@, msv);
        }
        match ser.serialize_struct_start(name, 7) {
            Ok(_) => {},
            Err(e) => {
                return Err(e);
            },
        }
        proof {
            config_keys();
            lemma_struct_start_state(s0, name@);
        }
        proof {
            config_keys();
            crate::cjson::lemma_upsert_absent(m0, p1.0, p1.1);
            assert(obj_upsert(m0, p1.0, p1.1) =~= m1);
            lemma_struct_field(s0, name@, m0, p1.0, p1.1);
        }
        match ser.serialize_u8("version", self.version) {
            Ok(_) => {},
            Err(e) => {
                return Err(e);
            },
        }
        proof {
            config_keys();
            assert(forall|j: int| 0 <= j < m1.len() ==> (#[trigger] m1[j]).0 != p2.0);
            crate::cjson::lemma_upsert_absent(m1, p2.0, p2.1);
            assert(obj_upsert(m1, p2.0, p2.1) =~= m2);
            lemma_struct_field(s0, name@, m1, p2.0, p2.1);
        }
        match ser.serialize_bytes("serial", self.serial.as_bytes()) {
            Ok(_) => {},
            Err(e) => {
                return Err(e);
            },
        }
        proof {
            config_keys();
            assert(forall|j: int| 0 <= j < m2.len() ==> (#[trigger] m2[j]).0 != p3.0);
            crate::cjson::lemma_upsert_absent(m2, p3.0, p3.1);
            assert(obj_upsert(m2, p3.0, p3.1) =~= m3);
            lemma_struct_field(s0, name@, m2, p3.0, p3.1);
        }
        match ser.serialize_u16("timezone", self.timezone) {
            Ok(_) => {},
            Err(e) => {
                return Err(e);
            },
        }
        proof {
            config_keys();
            assert(forall|j: int| 0 <= j < m3.len() ==> (#[trigger] m3[j]).0 != p4.0);
            crate::cjson::lemma_upsert_absent(m3, p4.0, p4.1);
            assert(obj_upsert(m3, p4.0, p4.1) =~= m4);
            lemma_struct_field(s0, name@, m3, p4.0, p4.1);
        }
        match ser.serialize_bool("daylight_saving_time", self.daylight_saving_time) {
            Ok(_) => {},
            Err(e) => {
                return Err(e);
            },
        }
        proof {
            config_keys();
            assert(forall|j: int| 0 <= j < m4.len() ==> (#[trigger] m4[j]).0 != p5.0);
            crate::ser::lemma_ser_seq_all_ok::<UserConfig>(self.users@);
            lemma_struct_field(s0, name@, m4, p5.0, JsonVal::Arr(Seq::<JsonVal>::empty()));
            crate::cjson::lemma_upsert_absent(m4, p5.0, p5.1);
            assert(obj_upsert(m4, p5.0, p5.1) =~= m5);
            lemma_struct_field(s0, name@, m4, p5.0, p5.1);
        }
        match ser.serialize_array("users", &self.users) {
            Ok(_) => {},
            Err(e) => {
                return Err(e);
            },
        }
        proof {
            config_keys();
            assert(forall|j: int| 0 <= j < m5.len() ==> (#[trigger] m5[j]).0 != p6.0);
            crate::ser::lemma_struct_state_wf(s0, name@, m5);
            crate::cjson::lemma_upsert_absent(m5, p6.0, p6.1);
            assert(obj_upsert(m5, p6.0, p6.1) =~= m6);
            lemma_struct_field(s0, name@, m5, p6.0, p6.1);
        }
        match self.wifi.serialize("wifi", ser) {
            Ok(_) => {},
            Err(e) => {
                return Err(e);
            },
        }
        proof {
            config_keys();
            assert(forall|j: int| 0 <= j < m6.len() ==> (#[trigger] m6[j]).0 != p7.0);
            crate::ser::lemma_struct_state_wf(s0, name@, m6);
            crate::cjson::lemma_upsert_absent(m6, p7.0, p7.1);
            assert(obj_upsert(m6, p7.0, p7.1) =~= m7);
            lemma_struct_field(s0, name@, m6, p7.0, p7.1);
        }
        match self.ntp.serialize("ntp", ser) {
            Ok(_) => {},
            Err(e) => {
                return Err(e);
            },
        }
        proof {
            assert(m7 =~= msv);
            lemma_struct_end_state(s0, name@, msv);
            if put_val(s0, name@, JsonVal::Obj(msv)) is Ok {
                lemma_put_val_wf(s0, name@, JsonVal::Obj(msv));
            }
        }
        match ser.serialize_struct_end() {
            Ok(_) => Ok(()),
            Err(e) => Err(e),
        }
    }
}

impl Deserialize for Config {
    open spec fn de_err(v: JsonVal) -> Result<(), CJsonError> {
        match field_of(v, "version"@) { Err(e) => Err(e), Ok(x) => match <u8 as Deserialize>::de_err(x) { Err(e) => Err(e), Ok(u) => match field_of(v, "serial"@) { Err(e) => Err(e), Ok(x) => match crate::de::de_bytes_of(x, BUF16 as nat) { Err(e) => Err(e), Ok(u) => match field_of(v, "timezone"@) { Err(e) => Err(e), Ok(x) => match <u16 as Deserialize>::de_err(x) { Err(e) => Err(e), Ok(u) => match field_of(v, "daylight_saving_time"@) { Err(e) => Err(e), Ok(x) => match <bool as Deserialize>::de_err(x) { Err(e) => Err(e), Ok(u) => match field_of(v, "users"@) { Err(e) => Err(e), Ok(x) => match x { JsonVal::Arr(elems) => match crate::de::de_seq_err::<UserConfig>(elems) { Ok(w) => if elems.len() == 2 { match field_of(v, "wifi"@) { Err(e) => Err(e), Ok(x) => match <WifiConfig as Deserialize>::de_err(x) { Err(e) => Err(e), Ok(u) => match field_of(v, "ntp"@) { Err(e) => Err(e), Ok(x) => match <NtpConfig as Deserialize>::de_err(x) { Err(e) => Err(e), Ok(u) => Ok(()) } } } } } else { Err(CJsonError::InvalidOperation) }, Err(e) => Err(e) }, _ => Err(CJsonError::TypeError) } } } } } } } } } }
    }

    open spec fn decodes_to(v: JsonVal, r: Self) -> bool {
        &&& field_of(v, "version"@) is Ok
        &&& <u8 as Deserialize>::decodes_to(field_of(v, "version"@)->Ok_0, r.version)
        &&& field_of(v, "serial"@) is Ok
        &&& crate::de::de_bytes_of(field_of(v, "serial"@)->Ok_0, BUF16 as nat) == Ok::<Seq<u8>, CJsonError>(r.serial@)
        &&& r.serial.spec_cap() == BUF16 && r.serial.wf()
        &&& field_of(v, "timezone"@) is Ok
        &&& <u16 as Deserialize>::decodes_to(field_of(v, "timezone"@)->Ok_0, r.timezone)
        &&& field_of(v, "daylight_saving_time"@) is Ok
        &&& <bool as Deserialize>::decodes_to(field_of(v, "daylight_saving_time"@)->Ok_0, r.daylight_saving_time)
        &&& field_of(v, "users"@) is Ok
        &&& <Vec<UserConfig> as Deserialize>::decodes_to(field_of(v, "users"@)->Ok_0, r.users)
        &&& field_of(v, "wifi"@) is Ok
        &&& <WifiConfig as Deserialize>::decodes_to(field_of(v, "wifi"@)->Ok_0, r.wifi)
        &&& field_of(v, "ntp"@) is Ok
        &&& <NtpConfig as Deserialize>::decodes_to(field_of(v, "ntp"@)->Ok_0, r.ntp)
    }

    fn deserialize(de: &mut JsonDeserializer, name: &str) -> (r: Result<Self, CJsonError>) {
        broadcast use crate::de::lemma_resolve_named;

        proof {
            config_keys();
        }
        match de.deserialize_struct_start(name) {
            Ok(_) => {},
            Err(e) => {
                return Err(e);
            },
        }
        let version = match de.deserialize_u8("version") {
            Ok(x) => x,
            Err(e) => {
                return Err(e);
            },
        };
        let serial_bytes = match de.deserialize_bytes("serial", BUF16) {
            Ok(x) => x,
            Err(e) => {
                return Err(e);
            },
        };
        let serial = Bytes::from_vec(BUF16, serial_bytes);
        let timezone = match de.deserialize_u16("timezone") {
            Ok(x) => x,
            Err(e) => {
                return Err(e);
            },
        };
        let daylight_saving_time = match de.deserialize_bool("daylight_saving_time") {
            Ok(x) => x,
            Err(e) => {
                return Err(e);
            },
        };
        let users = match de.deserialize_array::<UserConfig>("users", 2) {
            Ok(x) => x,
            Err(e) => {
                return Err(e);
            },
        };
        let wifi = match WifiConfig::deserialize(de, "wifi") {
            Ok(x) => x,
            Err(e) => {
                return Err(e);
            },
        };
        let ntp = match NtpConfig::deserialize(de, "ntp") {
            Ok(x) => x,
            Err(e) => {
                return Err(e);
            },
        };
        if !name.is_empty() {
            match de.deserialize_struct_end() {
                Ok(_) => {},
                Err(e) => {
                    return Err(e);
                },
            }
        }
        Ok(Config { version, serial, timezone, daylight_saving_time, users, wifi, ntp })
    }
}
proof fn plain_user_keys_ci()
    ensures
        !crate::cjson::eq_ci("user"@, "password"@),
        !crate::cjson::eq_ci("password"@, "user"@),
{
    broadcast use vstd::string::group_string_axioms;

    reveal_strlit("user");
    reveal_strlit("password");
}

proof fn lemma_plain_user_fields(c: PlainUser)
    ensures
        field_of(JsonVal::Obj(plain_user_members(c)), "user"@) == Ok::<JsonVal, CJsonError>(
            JsonVal::Num(c.user as int),
        ),
        field_of(JsonVal::Obj(plain_user_members(c)), "password"@) == Ok::<JsonVal, CJsonError>(
            JsonVal::Num(c.password as int),
        ),
{
    plain_user_keys_ci();
    let ms = plain_user_members(c);
    crate::cjson::lemma_lookup_at(ms, "user"@, false, 0);
    assert forall|j: int| 0 <= j < 1 implies !crate::cjson::key_matches(
        (#[trigger] ms[j]).0,
        "password"@,
        false,
    ) by {
        if j == 0 {
            assert(!crate::cjson::eq_ci("user"@, "password"@));
        }
    }
    crate::cjson::lemma_lookup_at(ms, "password"@, false, 1);
}

/// Every `PlainUser` value is valid: both fields are plain numbers.
pub open spec fn plain_user_wf(c: PlainUser) -> bool {
    true
}

/// Field-for-field agreement of two `PlainUser` values.
pub open spec fn plain_user_eq(a: PlainUser, b: PlainUser) -> bool {
    &&& a.user == b.user
    &&& a.password == b.password
}

/// Success is owed: a valid `PlainUser` always serializes, and what it
/// serializes to always reads back.
pub proof fn lemma_plain_user_ser_de_ok(c: PlainUser)
    requires
        plain_user_wf(c),
    ensures
        c.ser_spec() is Ok,
        <PlainUser as Deserialize>::de_err(c.ser_spec()->Ok_0) == Ok::<(), CJsonError>(()),
{
    lemma_plain_user_fields(c);
}

/// The round-trip law for `PlainUser`: any value a serialized
/// `PlainUser` decodes to agrees with the original, field for field.
pub proof fn lemma_plain_user_roundtrip(c: PlainUser, d: PlainUser)
    requires
        plain_user_wf(c),
        <PlainUser as Deserialize>::decodes_to(c.ser_spec()->Ok_0, d),
    ensures
        plain_user_eq(c, d),
{
    lemma_plain_user_fields(c);
}

proof fn user_config_keys_ci()
    ensures
        !crate::cjson::eq_ci("user"@, "password"@),
        !crate::cjson::eq_ci("password"@, "user"@),
{
    broadcast use vstd::string::group_string_axioms;

    reveal_strlit("user");
    reveal_strlit("password");
}

proof fn lemma_user_config_fields(c: UserConfig)
    ensures
        field_of(JsonVal::Obj(user_config_members(c)), "user"@) == Ok::<JsonVal, CJsonError>(
            JsonVal::Str(crate::hex::hex_of(c.user@)),
        ),
        field_of(JsonVal::Obj(user_config_members(c)), "password"@) == Ok::<JsonVal, CJsonError>(
            JsonVal::Str(crate::hex::hex_of(c.password@)),
        ),
{
    user_config_keys_ci();
    let ms = user_config_members(c);
    crate::cjson::lemma_lookup_at(ms, "user"@, false, 0);
    assert forall|j: int| 0 <= j < 1 implies !crate::cjson::key_matches(
        (#[trigger] ms[j]).0,
        "password"@,
        false,
    ) by {
        if j == 0 {
            assert(!crate::cjson::eq_ci("user"@, "password"@));
        }
    }
    crate::cjson::lemma_lookup_at(ms, "password"@, false, 1);
}

/// Validity of a `UserConfig` value: every byte buffer within its
/// capacity, every fixed-size array at its length.
pub open spec fn user_config_wf(c: UserConfig) -> bool {
    &&& c.user.wf() && c.user.spec_cap() == BUF32
    &&& c.password.wf() && c.password.spec_cap() == BUF64
}

/// Field-for-field agreement of two `UserConfig` values.
pub open spec fn user_config_eq(a: UserConfig, b: UserConfig) -> bool {
    &&& a.user@ == b.user@
    &&& a.password@ == b.password@
}

/// Success is owed: a valid `UserConfig` always serializes, and what it
/// serializes to always reads back.
pub proof fn lemma_user_config_ser_de_ok(c: UserConfig)
    requires
        user_config_wf(c),
    ensures
        c.ser_spec() is Ok,
        <UserConfig as Deserialize>::de_err(c.ser_spec()->Ok_0) == Ok::<(), CJsonError>(()),
{
    lemma_user_config_fields(c);
    crate::de::lemma_bytes_node_roundtrip(c.user@, BUF32 as nat);
    crate::de::lemma_bytes_node_roundtrip(c.password@, BUF64 as nat);
}

/// The round-trip law for `UserConfig`: any value a serialized
/// `UserConfig` decodes to agrees with the original, field for field.
pub proof fn lemma_user_config_roundtrip(c: UserConfig, d: UserConfig)
    requires
        user_config_wf(c),
        <UserConfig as Deserialize>::decodes_to(c.ser_spec()->Ok_0, d),
    ensures
        user_config_eq(c, d),
{
    lemma_user_config_fields(c);
    crate::de::lemma_bytes_node_roundtrip(c.user@, BUF32 as nat);
    crate::de::lemma_bytes_node_roundtrip(c.password@, BUF64 as nat);
}

proof fn wifi_config_keys_ci()
    ensures
        !crate::cjson::eq_ci("ssid"@, "password"@),
        !crate::cjson::eq_ci("ssid"@, "hostname"@),
        !crate::cjson::eq_ci("ssid"@, "auth"@),
        !crate::cjson::eq_ci("ssid"@, "enabled"@),
        !crate::cjson::eq_ci("password"@, "ssid"@),
        !crate::cjson::eq_ci("password"@, "hostname"@),
        !crate::cjson::eq_ci("password"@, "auth"@),
        !crate::cjson::eq_ci("password"@, "enabled"@),
        !crate::cjson::eq_ci("hostname"@, "ssid"@),
        !crate::cjson::eq_ci("hostname"@, "password"@),
        !crate::cjson::eq_ci("hostname"@, "auth"@),
        !crate::cjson::eq_ci("hostname"@, "enabled"@),
        !crate::cjson::eq_ci("auth"@, "ssid"@),
        !crate::cjson::eq_ci("auth"@, "password"@),
        !crate::cjson::eq_ci("auth"@, "hostname"@),
        !crate::cjson::eq_ci("auth"@, "enabled"@),
        !crate::cjson::eq_ci("enabled"@, "ssid"@),
        !crate::cjson::eq_ci("enabled"@, "password"@),
        !crate::cjson::eq_ci("enabled"@, "hostname"@),
        !crate::cjson::eq_ci("enabled"@, "auth"@),
{
    broadcast use vstd::string::group_string_axioms;

    reveal_strlit("ssid");
    reveal_strlit("password");
    reveal_strlit("hostname");
    reveal_strlit("auth");
    reveal_strlit("enabled");
    assert(crate::cjson::lower("password"@[0]) != crate::cjson::lower("hostname"@[0]));
    assert(crate::cjson::lower("hostname"@[0]) != crate::cjson::lower("password"@[0]));
    assert(crate::cjson::lower("ssid"@[0]) != crate::cjson::lower("auth"@[0]));
    assert(crate::cjson::lower("auth"@[0]) != crate::cjson::lower("ssid"@[0]));
}

proof fn lemma_wifi_config_fields(c: WifiConfig)
    ensures
        field_of(JsonVal::Obj(wifi_config_members(c)), "ssid"@) == Ok::<JsonVal, CJsonError>(
            JsonVal::Str(crate::hex::hex_of(c.ssid@)),
        ),
        field_of(JsonVal::Obj(wifi_config_members(c)), "password"@) == Ok::<JsonVal, CJsonError>(
            JsonVal::Str(crate::hex::hex_of(c.password@)),
        ),
        field_of(JsonVal::Obj(wifi_config_members(c)), "hostname"@) == Ok::<JsonVal, CJsonError>(
            JsonVal::Str(crate::hex::hex_of(c.hostname@)),
        ),
        field_of(JsonVal::Obj(wifi_config_members(c)), "auth"@) == Ok::<JsonVal, CJsonError>(
            JsonVal::Num(c.auth as int),
        ),
        field_of(JsonVal::Obj(wifi_config_members(c)), "enabled"@) == Ok::<JsonVal, CJsonError>(
            JsonVal::Bool(c.enabled),
        ),
{
    wifi_config_keys_ci();
    let ms = wifi_config_members(c);
    crate::cjson::lemma_lookup_at(ms, "ssid"@, false, 0);
    assert forall|j: int| 0 <= j < 1 implies !crate::cjson::key_matches(
        (#[trigger] ms[j]).0,
        "password"@,
        false,
    ) by {
        if j == 0 {
            assert(!crate::cjson::eq_ci("ssid"@, "password"@));
        }
    }
    crate::cjson::lemma_lookup_at(ms, "password"@, false, 1);
    assert forall|j: int| 0 <= j < 2 implies !crate::cjson::key_matches(
        (#[trigger] ms[j]).0,
        "hostname"@,
        false,
    ) by {
        if j == 0 {
            assert(!crate::cjson::eq_ci("ssid"@, "hostname"@));
        } else if j == 1 {
            assert(!crate::cjson::eq_ci("password"@, "hostname"@));
        }
    }
    crate::cjson::lemma_lookup_at(ms, "hostname"@, false, 2);
    assert forall|j: int| 0 <= j < 3 implies !crate::cjson::key_matches(
        (#[trigger] ms[j]).0,
        "auth"@,
        false,
    ) by {
        if j == 0 {
            assert(!crate::cjson::eq_ci("ssid"@, "auth"@));
        } else if j == 1 {
            assert(!crate::cjson::eq_ci("password"@, "auth"@));
        } else if j == 2 {
            assert(!crate::cjson::eq_ci("hostname"@, "auth"@));
        }
    }
    crate::cjson::lemma_lookup_at(ms, "auth"@, false, 3);
    assert forall|j: int| 0 <= j < 4 implies !crate::cjson::key_matches(
        (#[trigger] ms[j]).0,
        "enabled"@,
        false,
    ) by {
        if j == 0 {
            assert(!crate::cjson::eq_ci("ssid"@, "enabled"@));
        } else if j == 1 {
            assert(!crate::cjson::eq_ci("password"@, "enabled"@));
        } else if j == 2 {
            assert(!crate::cjson::eq_ci("hostname"@, "enabled"@));
        } else if j == 3 {
            assert(!crate::cjson::eq_ci("auth"@, "enabled"@));
        }
    }
    crate::cjson::lemma_lookup_at(ms, "enabled"@, false, 4);
}

/// Validity of a `WifiConfig` value: every byte buffer within its
/// capacity, every fixed-size array at its length.
pub open spec fn wifi_config_wf(c: WifiConfig) -> bool {
    &&& c.ssid.wf() && c.ssid.spec_cap() == BUF32
    &&& c.password.wf() && c.password.spec_cap() == BUF64
    &&& c.hostname.wf() && c.hostname.spec_cap() == BUF32
}

/// Field-for-field agreement of two `WifiConfig` values.
pub open spec fn wifi_config_eq(a: WifiConfig, b: WifiConfig) -> bool {
    &&& a.ssid@ == b.ssid@
    &&& a.password@ == b.password@
    &&& a.hostname@ == b.hostname@
    &&& a.auth == b.auth
    &&& a.enabled == b.enabled
}

/// Success is owed: a valid `WifiConfig` always serializes, and what it
/// serializes to always reads back.
pub proof fn lemma_wifi_config_ser_de_ok(c: WifiConfig)
    requires
        wifi_config_wf(c),
    ensures
        c.ser_spec() is Ok,
        <WifiConfig as Deserialize>::de_err(c.ser_spec()->Ok_0) == Ok::<(), CJsonError>(()),
{
    lemma_wifi_config_fields(c);
    crate::de::lemma_bytes_node_roundtrip(c.ssid@, BUF32 as nat);
    crate::de::lemma_bytes_node_roundtrip(c.password@, BUF64 as nat);
    crate::de::lemma_bytes_node_roundtrip(c.hostname@, BUF32 as nat);
}

/// The round-trip law for `WifiConfig`: any value a serialized
/// `WifiConfig` decodes to agrees with the original, field for field.
pub proof fn lemma_wifi_config_roundtrip(c: WifiConfig, d: WifiConfig)
    requires
        wifi_config_wf(c),
        <WifiConfig as Deserialize>::decodes_to(c.ser_spec()->Ok_0, d),
    ensures
        wifi_config_eq(c, d),
{
    lemma_wifi_config_fields(c);
    crate::de::lemma_bytes_node_roundtrip(c.ssid@, BUF32 as nat);
    crate::de::lemma_bytes_node_roundtrip(c.password@, BUF64 as nat);
    crate::de::lemma_bytes_node_roundtrip(c.hostname@, BUF32 as nat);
}

proof fn ntp_config_keys_ci()
    ensures
        !crate::cjson::eq_ci("server"@, "port"@),
        !crate::cjson::eq_ci("server"@, "msg_len"@),
        !crate::cjson::eq_ci("server"@, "enabled"@),
        !crate::cjson::eq_ci("port"@, "server"@),
        !crate::cjson::eq_ci("port"@, "msg_len"@),
        !crate::cjson::eq_ci("port"@, "enabled"@),
        !crate::cjson::eq_ci("msg_len"@, "server"@),
        !crate::cjson::eq_ci("msg_len"@, "port"@),
        !crate::cjson::eq_ci("msg_len"@, "enabled"@),
        !crate::cjson::eq_ci("enabled"@, "server"@),
        !crate::cjson::eq_ci("enabled"@, "port"@),
        !crate::cjson::eq_ci("enabled"@, "msg_len"@),
{
    broadcast use vstd::string::group_string_axioms;

    reveal_strlit("server");
    reveal_strlit("port");
    reveal_strlit("msg_len");
    reveal_strlit("enabled");
    assert(crate::cjson::lower("msg_len"@[0]) != crate::cjson::lower("enabled"@[0]));
    assert(crate::cjson::lower("enabled"@[0]) != crate::cjson::lower("msg_len"@[0]));
}

proof fn lemma_ntp_config_fields(c: NtpConfig)
    ensures
        field_of(JsonVal::Obj(ntp_config_members(c)), "server"@) == Ok::<JsonVal, CJsonError>(
            JsonVal::Str(crate::hex::hex_of(c.server@)),
        ),
        field_of(JsonVal::Obj(ntp_config_members(c)), "port"@) == Ok::<JsonVal, CJsonError>(
            JsonVal::Num(c.port as int),
        ),
        field_of(JsonVal::Obj(ntp_config_members(c)), "msg_len"@) == Ok::<JsonVal, CJsonError>(
            JsonVal::Num(c.msg_len as int),
        ),
        field_of(JsonVal::Obj(ntp_config_members(c)), "enabled"@) == Ok::<JsonVal, CJsonError>(
            JsonVal::Bool(c.enabled),
        ),
{
    ntp_config_keys_ci();
    let ms = ntp_config_members(c);
    crate::cjson::lemma_lookup_at(ms, "server"@, false, 0);
    assert forall|j: int| 0 <= j < 1 implies !crate::cjson::key_matches(
        (#[trigger] ms[j]).0,
        "port"@,
        false,
    ) by {
        if j == 0 {
            assert(!crate::cjson::eq_ci("server"@, "port"@));
        }
    }
    crate::cjson::lemma_lookup_at(ms, "port"@, false, 1);
    assert forall|j: int| 0 <= j < 2 implies !crate::cjson::key_matches(
        (#[trigger] ms[j]).0,
        "msg_len"@,
        false,
    ) by {
        if j == 0 {
            assert(!crate::cjson::eq_ci("server"@, "msg_len"@));
        } else if j == 1 {
            assert(!crate::cjson::eq_ci("port"@, "msg_len"@));
        }
    }
    crate::cjson::lemma_lookup_at(ms, "msg_len"@, false, 2);
    assert forall|j: int| 0 <= j < 3 implies !crate::cjson::key_matches(
        (#[trigger] ms[j]).0,
        "enabled"@,
        false,
    ) by {
        if j == 0 {
            assert(!crate::cjson::eq_ci("server"@, "enabled"@));
        } else if j == 1 {
            assert(!crate::cjson::eq_ci("port"@, "enabled"@));
        } else if j == 2 {
            assert(!crate::cjson::eq_ci("msg_len"@, "enabled"@));
        }
    }
    crate::cjson::lemma_lookup_at(ms, "enabled"@, false, 3);
}

/// Validity of a `NtpConfig` value: every byte buffer within its
/// capacity, every fixed-size array at its length.
pub open spec fn ntp_config_wf(c: NtpConfig) -> bool {
    &&& c.server.wf() && c.server.spec_cap() == BUF32
}

/// Field-for-field agreement of two `NtpConfig` values.
pub open spec fn ntp_config_eq(a: NtpConfig, b: NtpConfig) -> bool {
    &&& a.server@ == b.server@
    &&& a.port == b.port
    &&& a.msg_len == b.msg_len
    &&& a.enabled == b.enabled
}

/// Success is owed: a valid `NtpConfig` always serializes, and what it
/// serializes to always reads back.
pub proof fn lemma_ntp_config_ser_de_ok(c: NtpConfig)
    requires
        ntp_config_wf(c),
    ensures
        c.ser_spec() is Ok,
        <NtpConfig as Deserialize>::de_err(c.ser_spec()->Ok_0) == Ok::<(), CJsonError>(()),
{
    lemma_ntp_config_fields(c);
    crate::de::lemma_bytes_node_roundtrip(c.server@, BUF32 as nat);
}

/// The round-trip law for `NtpConfig`: any value a serialized
/// `NtpConfig` decodes to agrees with the original, field for field.
pub proof fn lemma_ntp_config_roundtrip(c: NtpConfig, d: NtpConfig)
    requires
        ntp_config_wf(c),
        <NtpConfig as Deserialize>::decodes_to(c.ser_spec()->Ok_0, d),
    ensures
        ntp_config_eq(c, d),
{
    lemma_ntp_config_fields(c);
    crate::de::lemma_bytes_node_roundtrip(c.server@, BUF32 as nat);
}

proof fn lemma_plain_user_seq_ok(us: Seq<PlainUser>)
    requires
        forall|i: int| 0 <= i < us.len() ==> plain_user_wf(#[trigger] us[i]),
    ensures
        crate::de::de_seq_err::<PlainUser>(crate::ser::ser_models::<PlainUser>(us)) == Ok::<
            (),
            CJsonError,
        >(()),
    decreases us.len(),
{
    let models = crate::ser::ser_models::<PlainUser>(us);
    if us.len() > 0 {
        lemma_plain_user_ser_de_ok(us[0]);
        lemma_plain_user_seq_ok(us.drop_first());
        assert(models.drop_first() =~= crate::ser::ser_models::<PlainUser>(us.drop_first()));
    }
}

proof fn lemma_user_config_seq_ok(us: Seq<UserConfig>)
    requires
        forall|i: int| 0 <= i < us.len() ==> user_config_wf(#[trigger] us[i]),
    ensures
        crate::de::de_seq_err::<UserConfig>(crate::ser::ser_models::<UserConfig>(us)) == Ok::<
            (),
            CJsonError,
        >(()),
    decreases us.len(),
{
    let models = crate::ser::ser_models::<UserConfig>(us);
    if us.len() > 0 {
        lemma_user_config_ser_de_ok(us[0]);
        lemma_user_config_seq_ok(us.drop_first());
        assert(models.drop_first() =~= crate::ser::ser_models::<UserConfig>(us.drop_first()));
    }
}

proof fn lemma_u32_seq_ok(us: Seq<u32>)
    ensures
        crate::de::de_seq_err::<u32>(crate::ser::ser_models::<u32>(us)) == Ok::<(), CJsonError>(()),
    decreases us.len(),
{
    let models = crate::ser::ser_models::<u32>(us);
    if us.len() > 0 {
        lemma_u32_seq_ok(us.drop_first());
        assert(models.drop_first() =~= crate::ser::ser_models::<u32>(us.drop_first()));
    }
}

proof fn plain_config_keys_ci()
    ensures
        !crate::cjson::eq_ci("version"@, "users"@),
        !crate::cjson::eq_ci("users"@, "version"@),
{
    broadcast use vstd::string::group_string_axioms;

    reveal_strlit("version");
    reveal_strlit("users");
}

proof fn lemma_plain_config_fields(c: PlainConfig)
    ensures
        field_of(JsonVal::Obj(plain_config_members(c)), "version"@) == Ok::<JsonVal, CJsonError>(
            JsonVal::Num(c.version as int),
        ),
        field_of(JsonVal::Obj(plain_config_members(c)), "users"@) == Ok::<JsonVal, CJsonError>(
            JsonVal::Arr(crate::ser::ser_models::<PlainUser>(c.users@)),
        ),
{
    plain_config_keys_ci();
    let ms = plain_config_members(c);
    crate::cjson::lemma_lookup_at(ms, "version"@, false, 0);
    assert forall|j: int| 0 <= j < 1 implies !crate::cjson::key_matches(
        (#[trigger] ms[j]).0,
        "users"@,
        false,
    ) by {
        if j == 0 {
            assert(!crate::cjson::eq_ci("version"@, "users"@));
        }
    }
    crate::cjson::lemma_lookup_at(ms, "users"@, false, 1);
}

/// Validity of a `PlainConfig` value: every byte buffer within its
/// capacity, every fixed-size array at its length.
pub open spec fn plain_config_wf(c: PlainConfig) -> bool {
    &&& c.users@.len() == 2
}

/// Field-for-field agreement of two `PlainConfig` values.
pub open spec fn plain_config_eq(a: PlainConfig, b: PlainConfig) -> bool {
    &&& a.version == b.version
    &&& a.users@.len() == b.users@.len()
    &&& (forall|i: int| 0 <= i < a.users@.len() ==> plain_user_eq(#[trigger] a.users@[i], b.users@[i]))
}

/// Success is owed: a valid `PlainConfig` always serializes, and what it
/// serializes to always reads back.
pub proof fn lemma_plain_config_ser_de_ok(c: PlainConfig)
    requires
        plain_config_wf(c),
    ensures
        c.ser_spec() is Ok,
        <PlainConfig as Deserialize>::de_err(c.ser_spec()->Ok_0) == Ok::<(), CJsonError>(()),
{
    lemma_plain_config_fields(c);
    lemma_plain_user_seq_ok(c.users@);
}

/// The round-trip law for `PlainConfig`: any value a serialized
/// `PlainConfig` decodes to agrees with the original, field for field.
pub proof fn lemma_plain_config_roundtrip(c: PlainConfig, d: PlainConfig)
    requires
        plain_config_wf(c),
        <PlainConfig as Deserialize>::decodes_to(c.ser_spec()->Ok_0, d),
    ensures
        plain_config_eq(c, d),
{
    lemma_plain_config_fields(c);
    assert forall|i: int| 0 <= i < c.users@.len() implies plain_user_eq(
        #[trigger] c.users@[i],
        d.users@[i],
    ) by {
        lemma_plain_user_roundtrip(c.users@[i], d.users@[i]);
    }
}

proof fn empty_array_config_keys_ci()
    ensures
        "items"@.len() == 5,
{
    broadcast use vstd::string::group_string_axioms;

    reveal_strlit("items");
}

proof fn lemma_empty_array_config_fields(c: EmptyArrayConfig)
    ensures
        field_of(JsonVal::Obj(empty_array_config_members(c)), "items"@) == Ok::<JsonVal, CJsonError>(
            JsonVal::Arr(crate::ser::ser_models::<u32>(c.items@)),
        ),
{
    empty_array_config_keys_ci();
    let ms = empty_array_config_members(c);
    crate::cjson::lemma_lookup_at(ms, "items"@, false, 0);
}

/// Validity of a `EmptyArrayConfig` value: every byte buffer within its
/// capacity, every fixed-size array at its length.
pub open spec fn empty_array_config_wf(c: EmptyArrayConfig) -> bool {
    &&& c.items@.len() == 0
}

/// Field-for-field agreement of two `EmptyArrayConfig` values.
pub open spec fn empty_array_config_eq(a: EmptyArrayConfig, b: EmptyArrayConfig) -> bool {
    &&& a.items@ == b.items@
}

/// Success is owed: a valid `EmptyArrayConfig` always serializes, and what it
/// serializes to always reads back.
pub proof fn lemma_empty_array_config_ser_de_ok(c: EmptyArrayConfig)
    requires
        empty_array_config_wf(c),
    ensures
        c.ser_spec() is Ok,
        <EmptyArrayConfig as Deserialize>::de_err(c.ser_spec()->Ok_0) == Ok::<(), CJsonError>(()),
{
    lemma_empty_array_config_fields(c);
    lemma_u32_seq_ok(c.items@);
}

/// The round-trip law for `EmptyArrayConfig`: any value a serialized
/// `EmptyArrayConfig` decodes to agrees with the original, field for field.
pub proof fn lemma_empty_array_config_roundtrip(c: EmptyArrayConfig, d: EmptyArrayConfig)
    requires
        empty_array_config_wf(c),
        <EmptyArrayConfig as Deserialize>::decodes_to(c.ser_spec()->Ok_0, d),
    ensures
        empty_array_config_eq(c, d),
{
    lemma_empty_array_config_fields(c);
    assert(d.items@ =~= c.items@);
}

proof fn config_keys_ci()
    ensures
        !crate::cjson::eq_ci("version"@, "serial"@),
        !crate::cjson::eq_ci("version"@, "timezone"@),
        !crate::cjson::eq_ci("version"@, "daylight_saving_time"@),
        !crate::cjson::eq_ci("version"@, "users"@),
        !crate::cjson::eq_ci("version"@, "wifi"@),
        !crate::cjson::eq_ci("version"@, "ntp"@),
        !crate::cjson::eq_ci("serial"@, "version"@),
        !crate::cjson::eq_ci("serial"@, "timezone"@),
        !crate::cjson::eq_ci("serial"@, "daylight_saving_time"@),
        !crate::cjson::eq_ci("serial"@, "users"@),
        !crate::cjson::eq_ci("serial"@, "wifi"@),
        !crate::cjson::eq_ci("serial"@, "ntp"@),
        !crate::cjson::eq_ci("timezone"@, "version"@),
        !crate::cjson::eq_ci("timezone"@, "serial"@),
        !crate::cjson::eq_ci("timezone"@, "daylight_saving_time"@),
        !crate::cjson::eq_ci("timezone"@, "users"@),
        !crate::cjson::eq_ci("timezone"@, "wifi"@),
        !crate::cjson::eq_ci("timezone"@, "ntp"@),
        !crate::cjson::eq_ci("daylight_saving_time"@, "version"@),
        !crate::cjson::eq_ci("daylight_saving_time"@, "serial"@),
        !crate::cjson::eq_ci("daylight_saving_time"@, "timezone"@),
        !crate::cjson::eq_ci("daylight_saving_time"@, "users"@),
        !crate::cjson::eq_ci("daylight_saving_time"@, "wifi"@),
        !crate::cjson::eq_ci("daylight_saving_time"@, "ntp"@),
        !crate::cjson::eq_ci("users"@, "version"@),
        !crate::cjson::eq_ci("users"@, "serial"@),
        !crate::cjson::eq_ci("users"@, "timezone"@),
        !crate::cjson::eq_ci("users"@, "daylight_saving_time"@),
        !crate::cjson::eq_ci("users"@, "wifi"@),
        !crate::cjson::eq_ci("users"@, "ntp"@),
        !crate::cjson::eq_ci("wifi"@, "version"@),
        !crate::cjson::eq_ci("wifi"@, "serial"@),
        !crate::cjson::eq_ci("wifi"@, "timezone"@),
        !crate::cjson::eq_ci("wifi"@, "daylight_saving_time"@),
        !crate::cjson::eq_ci("wifi"@, "users"@),
        !crate::cjson::eq_ci("wifi"@, "ntp"@),
        !crate::cjson::eq_ci("ntp"@, "version"@),
        !crate::cjson::eq_ci("ntp"@, "serial"@),
        !crate::cjson::eq_ci("ntp"@, "timezone"@),
        !crate::cjson::eq_ci("ntp"@, "daylight_saving_time"@),
        !crate::cjson::eq_ci("ntp"@, "users"@),
        !crate::cjson::eq_ci("ntp"@, "wifi"@),
{
    broadcast use vstd::string::group_string_axioms;

    reveal_strlit("version");
    reveal_strlit("serial");
    reveal_strlit("timezone");
    reveal_strlit("daylight_saving_time");
    reveal_strlit("users");
    reveal_strlit("wifi");
    reveal_strlit("ntp");
}

proof fn lemma_config_fields(c: Config)
    ensures
        field_of(JsonVal::Obj(config_members(c)), "version"@) == Ok::<JsonVal, CJsonError>(
            JsonVal::Num(c.version as int),
        ),
        field_of(JsonVal::Obj(config_members(c)), "serial"@) == Ok::<JsonVal, CJsonError>(
            JsonVal::Str(crate::hex::hex_of(c.serial@)),
        ),
        field_of(JsonVal::Obj(config_members(c)), "timezone"@) == Ok::<JsonVal, CJsonError>(
            JsonVal::Num(c.timezone as int),
        ),
        field_of(JsonVal::Obj(config_members(c)), "daylight_saving_time"@) == Ok::<JsonVal, CJsonError>(
            JsonVal::Bool(c.daylight_saving_time),
        ),
        field_of(JsonVal::Obj(config_members(c)), "users"@) == Ok::<JsonVal, CJsonError>(
            JsonVal::Arr(crate::ser::ser_models::<UserConfig>(c.users@)),
        ),
        field_of(JsonVal::Obj(config_members(c)), "wifi"@) == Ok::<JsonVal, CJsonError>(
            JsonVal::Obj(wifi_config_members(c.wifi)),
        ),
        field_of(JsonVal::Obj(config_members(c)), "ntp"@) == Ok::<JsonVal, CJsonError>(
            JsonVal::Obj(ntp_config_members(c.ntp)),
        ),
{
    config_keys_ci();
    let ms = config_members(c);
    crate::cjson::lemma_lookup_at(ms, "version"@, false, 0);
    assert forall|j: int| 0 <= j < 1 implies !crate::cjson::key_matches(
        (#[trigger] ms[j]).0,
        "serial"@,
        false,
    ) by {
        if j == 0 {
            assert(!crate::cjson::eq_ci("version"@, "serial"@));
        }
    }
    crate::cjson::lemma_lookup_at(ms, "serial"@, false, 1);
    assert forall|j: int| 0 <= j < 2 implies !crate::cjson::key_matches(
        (#[trigger] ms[j]).0,
        "timezone"@,
        false,
    ) by {
        if j == 0 {
            assert(!crate::cjson::eq_ci("version"@, "timezone"@));
        } else if j == 1 {
            assert(!crate::cjson::eq_ci("serial"@, "timezone"@));
        }
    }
    crate::cjson::lemma_lookup_at(ms, "timezone"@, false, 2);
    assert forall|j: int| 0 <= j < 3 implies !crate::cjson::key_matches(
        (#[trigger] ms[j]).0,
        "daylight_saving_time"@,
        false,
    ) by {
        if j == 0 {
            assert(!crate::cjson::eq_ci("version"@, "daylight_saving_time"@));
        } else if j == 1 {
            assert(!crate::cjson::eq_ci("serial"@, "daylight_saving_time"@));
        } else if j == 2 {
            assert(!crate::cjson::eq_ci("timezone"@, "daylight_saving_time"@));
        }
    }
    crate::cjson::lemma_lookup_at(ms, "daylight_saving_time"@, false, 3);
    assert forall|j: int| 0 <= j < 4 implies !crate::cjson::key_matches(
        (#[trigger] ms[j]).0,
        "users"@,
        false,
    ) by {
        if j == 0 {
            assert(!crate::cjson::eq_ci("version"@, "users"@));
        } else if j == 1 {
            assert(!crate::cjson::eq_ci("serial"@, "users"@));
        } else if j == 2 {
            assert(!crate::cjson::eq_ci("timezone"@, "users"@));
        } else if j == 3 {
            assert(!crate::cjson::eq_ci("daylight_saving_time"@, "users"@));
        }
    }
    crate::cjson::lemma_lookup_at(ms, "users"@, false, 4);
    assert forall|j: int| 0 <= j < 5 implies !crate::cjson::key_matches(
        (#[trigger] ms[j]).0,
        "wifi"@,
        false,
    ) by {
        if j == 0 {
            assert(!crate::cjson::eq_ci("version"@, "wifi"@));
        } else if j == 1 {
            assert(!crate::cjson::eq_ci("serial"@, "wifi"@));
        } else if j == 2 {
            assert(!crate::cjson::eq_ci("timezone"@, "wifi"@));
        } else if j == 3 {
            assert(!crate::cjson::eq_ci("daylight_saving_time"@, "wifi"@));
        } else if j == 4 {
            assert(!crate::cjson::eq_ci("users"@, "wifi"@));
        }
    }
    crate::cjson::lemma_lookup_at(ms, "wifi"@, false, 5);
    assert forall|j: int| 0 <= j < 6 implies !crate::cjson::key_matches(
        (#[trigger] ms[j]).0,
        "ntp"@,
        false,
    ) by {
        if j == 0 {
            assert(!crate::cjson::eq_ci("version"@, "ntp"@));
        } else if j == 1 {
            assert(!crate::cjson::eq_ci("serial"@, "ntp"@));
        } else if j == 2 {
            assert(!crate::cjson::eq_ci("timezone"@, "ntp"@));
        } else if j == 3 {
            assert(!crate::cjson::eq_ci("daylight_saving_time"@, "ntp"@));
        } else if j == 4 {
            assert(!crate::cjson::eq_ci("users"@, "ntp"@));
        } else if j == 5 {
            assert(!crate::cjson::eq_ci("wifi"@, "ntp"@));
        }
    }
    crate::cjson::lemma_lookup_at(ms, "ntp"@, false, 6);
}

/// Validity of a `Config` value: every byte buffer within its
/// capacity, every fixed-size array at its length.
pub open spec fn config_wf(c: Config) -> bool {
    &&& c.serial.wf() && c.serial.spec_cap() == BUF16
    &&& c.users@.len() == 2
    &&& (forall|i: int| 0 <= i < c.users@.len() ==> user_config_wf(#[trigger] c.users@[i]))
    &&& wifi_config_wf(c.wifi)
    &&& ntp_config_wf(c.ntp)
}

/// Field-for-field agreement of two `Config` values.
pub open spec fn config_eq(a: Config, b: Config) -> bool {
    &&& a.version == b.version
    &&& a.serial@ == b.serial@
    &&& a.timezone == b.timezone
    &&& a.daylight_saving_time == b.daylight_saving_time
    &&& a.users@.len() == b.users@.len()
    &&& (forall|i: int| 0 <= i < a.users@.len() ==> user_config_eq(#[trigger] a.users@[i], b.users@[i]))
    &&& wifi_config_eq(a.wifi, b.wifi)
    &&& ntp_config_eq(a.ntp, b.ntp)
}

/// Success is owed: a valid `Config` always serializes, and what it
/// serializes to always reads back.
pub proof fn lemma_config_ser_de_ok(c: Config)
    requires
        config_wf(c),
    ensures
        c.ser_spec() is Ok,
        <Config as Deserialize>::de_err(c.ser_spec()->Ok_0) == Ok::<(), CJsonError>(()),
{
    lemma_config_fields(c);
    crate::de::lemma_bytes_node_roundtrip(c.serial@, BUF16 as nat);
    lemma_user_config_seq_ok(c.users@);
    lemma_wifi_config_ser_de_ok(c.wifi);
    lemma_ntp_config_ser_de_ok(c.ntp);
}

/// The round-trip law for `Config`: any value a serialized
/// `Config` decodes to agrees with the original, field for field.
pub proof fn lemma_config_roundtrip(c: Config, d: Config)
    requires
        config_wf(c),
        <Config as Deserialize>::decodes_to(c.ser_spec()->Ok_0, d),
    ensures
        config_eq(c, d),
{
    lemma_config_fields(c);
    crate::de::lemma_bytes_node_roundtrip(c.serial@, BUF16 as nat);
    assert forall|i: int| 0 <= i < c.users@.len() implies user_config_eq(
        #[trigger] c.users@[i],
        d.users@[i],
    ) by {
        lemma_user_config_roundtrip(c.users@[i], d.users@[i]);
    }
    lemma_wifi_config_roundtrip(c.wifi, d.wifi);
    lemma_ntp_config_roundtrip(c.ntp, d.ntp);
}


proof fn lemma_plain_user_model_wf(c: PlainUser)
    ensures
        crate::roundtrip::wf_json(JsonVal::Obj(plain_user_members(c))),
{
    let ms = plain_user_members(c);
    assert forall|q: int| 0 <= q < ms.len() implies crate::roundtrip::wf_json(
        (#[trigger] ms[q]).1,
    ) by {
    }
    crate::roundtrip::lemma_wf_obj_all(ms);
}

proof fn lemma_user_config_model_wf(c: UserConfig)
    ensures
        crate::roundtrip::wf_json(JsonVal::Obj(user_config_members(c))),
{
    let ms = user_config_members(c);
    assert forall|q: int| 0 <= q < ms.len() implies crate::roundtrip::wf_json(
        (#[trigger] ms[q]).1,
    ) by {
    }
    crate::roundtrip::lemma_wf_obj_all(ms);
}

proof fn lemma_wifi_config_model_wf(c: WifiConfig)
    ensures
        crate::roundtrip::wf_json(JsonVal::Obj(wifi_config_members(c))),
{
    let ms = wifi_config_members(c);
    assert forall|q: int| 0 <= q < ms.len() implies crate::roundtrip::wf_json(
        (#[trigger] ms[q]).1,
    ) by {
    }
    crate::roundtrip::lemma_wf_obj_all(ms);
}

proof fn lemma_ntp_config_model_wf(c: NtpConfig)
    ensures
        crate::roundtrip::wf_json(JsonVal::Obj(ntp_config_members(c))),
{
    let ms = ntp_config_members(c);
    assert forall|q: int| 0 <= q < ms.len() implies crate::roundtrip::wf_json(
        (#[trigger] ms[q]).1,
    ) by {
    }
    crate::roundtrip::lemma_wf_obj_all(ms);
}

proof fn lemma_plain_user_models_wf(us: Seq<PlainUser>)
    ensures
        crate::roundtrip::wf_arr(crate::ser::ser_models::<PlainUser>(us)),
{
    let models = crate::ser::ser_models::<PlainUser>(us);
    assert forall|q: int| 0 <= q < models.len() implies crate::roundtrip::wf_json(
        #[trigger] models[q],
    ) by {
        lemma_plain_user_model_wf(us[q]);
    }
    crate::roundtrip::lemma_wf_arr_all(models);
}

proof fn lemma_user_config_models_wf(us: Seq<UserConfig>)
    ensures
        crate::roundtrip::wf_arr(crate::ser::ser_models::<UserConfig>(us)),
{
    let models = crate::ser::ser_models::<UserConfig>(us);
    assert forall|q: int| 0 <= q < models.len() implies crate::roundtrip::wf_json(
        #[trigger] models[q],
    ) by {
        lemma_user_config_model_wf(us[q]);
    }
    crate::roundtrip::lemma_wf_arr_all(models);
}

proof fn lemma_u32_models_wf(us: Seq<u32>)
    ensures
        crate::roundtrip::wf_arr(crate::ser::ser_models::<u32>(us)),
{
    let models = crate::ser::ser_models::<u32>(us);
    assert forall|q: int| 0 <= q < models.len() implies crate::roundtrip::wf_json(
        #[trigger] models[q],
    ) by {
    }
    crate::roundtrip::lemma_wf_arr_all(models);
}

proof fn lemma_plain_config_model_wf(c: PlainConfig)
    ensures
        crate::roundtrip::wf_json(JsonVal::Obj(plain_config_members(c))),
{
    let ms = plain_config_members(c);
    assert forall|q: int| 0 <= q < ms.len() implies crate::roundtrip::wf_json(
        (#[trigger] ms[q]).1,
    ) by {
        lemma_plain_user_models_wf(c.users@);
    }
    crate::roundtrip::lemma_wf_obj_all(ms);
}

proof fn lemma_empty_array_config_model_wf(c: EmptyArrayConfig)
    ensures
        crate::roundtrip::wf_json(JsonVal::Obj(empty_array_config_members(c))),
{
    let ms = empty_array_config_members(c);
    assert forall|q: int| 0 <= q < ms.len() implies crate::roundtrip::wf_json(
        (#[trigger] ms[q]).1,
    ) by {
        lemma_u32_models_wf(c.items@);
    }
    crate::roundtrip::lemma_wf_obj_all(ms);
}

proof fn lemma_config_model_wf(c: Config)
    ensures
        crate::roundtrip::wf_json(JsonVal::Obj(config_members(c))),
{
    let ms = config_members(c);
    assert forall|q: int| 0 <= q < ms.len() implies crate::roundtrip::wf_json(
        (#[trigger] ms[q]).1,
    ) by {
        lemma_user_config_models_wf(c.users@);
        lemma_wifi_config_model_wf(c.wifi);
        lemma_ntp_config_model_wf(c.ntp);
    }
    crate::roundtrip::lemma_wf_obj_all(ms);
}

/// The whole-pass round-trip law for `PlainConfig`: the compact text a
/// valid value serializes to parses back to the same tree, that tree
/// always reads back, and every value it reads agrees with the
/// original, field for field.
pub proof fn lemma_plain_config_text_roundtrip(c: PlainConfig)
    requires
        plain_config_wf(c),
    ensures
        c.ser_spec() == Ok::<JsonVal, CJsonError>(JsonVal::Obj(plain_config_members(c))),
        crate::parse::spec_parse(
            crate::print::spec_print(JsonVal::Obj(plain_config_members(c))),
        ) == Some(JsonVal::Obj(plain_config_members(c))),
        <PlainConfig as Deserialize>::de_err(JsonVal::Obj(plain_config_members(c))) == Ok::<
            (),
            CJsonError,
        >(()),
        forall|d: PlainConfig|
            <PlainConfig as Deserialize>::decodes_to(
                JsonVal::Obj(plain_config_members(c)),
                d,
            ) ==> plain_config_eq(c, d),
{
    lemma_plain_config_model_wf(c);
    crate::roundtrip::lemma_text_roundtrip(JsonVal::Obj(plain_config_members(c)));
    lemma_plain_config_ser_de_ok(c);
    assert forall|d: PlainConfig|
        <PlainConfig as Deserialize>::decodes_to(
            JsonVal::Obj(plain_config_members(c)),
            d,
        ) implies plain_config_eq(c, d) by {
        lemma_plain_config_roundtrip(c, d);
    }
}

/// The whole-pass round-trip law for `EmptyArrayConfig`: an empty
/// fixed-size array renders as an empty JSON array, parses back, and
/// reads back without error.
pub proof fn lemma_empty_array_config_text_roundtrip(c: EmptyArrayConfig)
    requires
        empty_array_config_wf(c),
    ensures
        c.ser_spec() == Ok::<JsonVal, CJsonError>(JsonVal::Obj(empty_array_config_members(c))),
        crate::parse::spec_parse(
            crate::print::spec_print(JsonVal::Obj(empty_array_config_members(c))),
        ) == Some(JsonVal::Obj(empty_array_config_members(c))),
        <EmptyArrayConfig as Deserialize>::de_err(JsonVal::Obj(empty_array_config_members(c)))
            == Ok::<(), CJsonError>(()),
        forall|d: EmptyArrayConfig|
            <EmptyArrayConfig as Deserialize>::decodes_to(
                JsonVal::Obj(empty_array_config_members(c)),
                d,
            ) ==> empty_array_config_eq(c, d),
{
    lemma_empty_array_config_model_wf(c);
    crate::roundtrip::lemma_text_roundtrip(JsonVal::Obj(empty_array_config_members(c)));
    lemma_empty_array_config_ser_de_ok(c);
    assert forall|d: EmptyArrayConfig|
        <EmptyArrayConfig as Deserialize>::decodes_to(
            JsonVal::Obj(empty_array_config_members(c)),
            d,
        ) implies empty_array_config_eq(c, d) by {
        lemma_empty_array_config_roundtrip(c, d);
    }
}

/// The whole-pass round-trip law for `Config`: the compact text a valid
/// value serializes to parses back to the same tree, that tree always
/// reads back, and every value it reads agrees with the original, field
/// for field — scalars, byte buffers, the fixed-size array of records,
/// and the nested records alike.
pub proof fn lemma_config_text_roundtrip(c: Config)
    requires
        config_wf(c),
    ensures
        c.ser_spec() == Ok::<JsonVal, CJsonError>(JsonVal::Obj(config_members(c))),
        crate::parse::spec_parse(crate::print::spec_print(JsonVal::Obj(config_members(c))))
            == Some(JsonVal::Obj(config_members(c))),
        <Config as Deserialize>::de_err(JsonVal::Obj(config_members(c))) == Ok::<
            (),
            CJsonError,
        >(()),
        forall|d: Config|
            <Config as Deserialize>::decodes_to(JsonVal::Obj(config_members(c)), d)
                ==> config_eq(c, d),
{
    lemma_config_model_wf(c);
    crate::roundtrip::lemma_text_roundtrip(JsonVal::Obj(config_members(c)));
    lemma_config_ser_de_ok(c);
    assert forall|d: Config|
        <Config as Deserialize>::decodes_to(JsonVal::Obj(config_members(c)), d) implies config_eq(
        c,
        d,
    ) by {
        lemma_config_roundtrip(c, d);
    }
}


/// Array fidelity: a record holding a fixed-size array of two records
/// writes exactly one member for that field, whose value is an array of
/// exactly two objects — never duplicate keys, never an object standing
/// in for an array.
pub proof fn lemma_array_fidelity(c: PlainConfig)
    requires
        c.users@.len() == 2,
    ensures
        c.ser_spec() == Ok::<JsonVal, CJsonError>(JsonVal::Obj(plain_config_members(c))),
        plain_config_members(c).len() == 2,
        plain_config_members(c)[1].0 == "users"@,
        plain_config_members(c)[0].0 != "users"@,
        plain_config_members(c)[1].1 is Arr,
        plain_config_members(c)[1].1->Arr_0.len() == 2,
        forall|i: int| 0 <= i < 2 ==> (#[trigger] plain_config_members(c)[1].1->Arr_0[i]) is Obj,
{
    broadcast use vstd::string::group_string_axioms;

    reveal_strlit("version");
    reveal_strlit("users");
    assert("version"@.len() == 7);
    assert("users"@.len() == 5);
    let models = crate::ser::ser_models::<PlainUser>(c.users@);
    assert(models.len() == 2);
    assert(forall|i: int| 0 <= i < 2 ==> (#[trigger] models[i]) is Obj);
}

} // verus!
