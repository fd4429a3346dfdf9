//! A JSON document model with a verified serialization bridge.
//!
//! The crate offers three layers:
//! - [`cjson`]: an owned, mutable tree of JSON nodes with verified
//!   construction, lookup and mutation operations;
//! - [`print`] and [`parse`]: rendering a tree to compact JSON text and
//!   parsing JSON text back into a tree, each specified against a
//!   mathematical model of the grammar, with the round trip between
//!   them proved in [`roundtrip`];
//! - [`ser`] and [`de`]: a stack-based, name-driven visitor protocol that
//!   converts between statically typed records and JSON trees, with
//!   `to_json` / `from_json` entry points.

pub mod cjson;
pub mod cjson_utils;
pub mod de;
pub mod hex;
pub mod parse;
pub mod print;
pub mod records;
pub mod roundtrip;
pub mod ser;
pub mod text;

pub use cjson::CJson;
pub use cjson_utils::JsonMergePatch;
pub use cjson_utils::JsonPatch;
pub use cjson_utils::JsonPointer;
pub use cjson_utils::JsonUtils;
pub use de::Deserialize;
pub use de::JsonDeserializer;
pub use de::from_json;
pub use records::Bytes;
pub use records::Config;
pub use records::EmptyArrayConfig;
pub use records::NtpConfig;
pub use records::PlainConfig;
pub use records::PlainUser;
pub use records::UserConfig;
pub use records::WifiConfig;
pub use ser::JsonSerializer;
pub use ser::Serialize;
pub use ser::to_json;
pub use cjson::CJsonError;
pub use cjson::CJsonResult;
pub use cjson::JsonVal;
