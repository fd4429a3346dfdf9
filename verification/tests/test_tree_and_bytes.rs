use cjson_binding::CJson;
use cjson_binding::CJsonError;
use cjson_binding::JsonDeserializer;
use cjson_binding::JsonMergePatch;
use cjson_binding::JsonPatch;
use cjson_binding::JsonPointer;
use cjson_binding::JsonUtils;
use cjson_binding::JsonSerializer;

#[test]
fn zero_byte_buffer_round_trips_through_hex() {
    // A 32-byte all-zero buffer must render as 64 zero characters and
    // read back unchanged.
    let mut ser = JsonSerializer::new();
    ser.serialize_struct_start("", 1).expect("open root");
    let zeroes = [0u8; 32];
    ser.serialize_bytes("buf", &zeroes).expect("write bytes");
    ser.serialize_struct_end().expect("close root");
    let json = ser.print_unformatted().expect("print");
    let expected_hex: String = std::iter::repeat('0').take(64).collect();
    assert_eq!(json, format!("{{\"buf\":\"{}\"}}", expected_hex));

    let de = JsonDeserializer::parse(&json).expect("parse");
    let back = de.deserialize_bytes("buf", 32).expect("read bytes");
    assert_eq!(back, vec![0u8; 32]);
}

#[test]
fn byte_buffer_accepts_hex_text_and_arrays() {
    let de = JsonDeserializer::parse(r#"{"a":"0a1b","b":[1,2,300],"c":"odd"}"#).expect("parse");
    // Hexadecimal text decodes.
    assert_eq!(de.deserialize_bytes("a", 8).expect("hex"), vec![0x0a, 0x1b]);
    // An array of numbers copies elementwise, each truncated to a byte.
    assert_eq!(de.deserialize_bytes("b", 8).expect("array"), vec![1, 2, 44]);
    // Text that is not hexadecimal copies its raw bytes.
    assert_eq!(de.deserialize_bytes("c", 8).expect("raw"), vec![b'o', b'd', b'd']);
    // The destination length caps the copy.
    assert_eq!(de.deserialize_bytes("b", 2).expect("capped"), vec![1, 2]);
}

#[test]
fn type_mismatch_and_missing_member() {
    let de = JsonDeserializer::parse(r#"{"name":"x","n":7}"#).expect("parse");
    // A number requested from a string-typed node fails with TypeError.
    assert_eq!(de.deserialize_u64("name"), Err(CJsonError::TypeError));
    // A missing object member fails with NotFound.
    assert_eq!(de.deserialize_u64("absent"), Err(CJsonError::NotFound));
    // A boolean requested from a number fails with TypeError.
    assert_eq!(de.deserialize_bool("n"), Err(CJsonError::TypeError));
}

#[test]
fn strings_read_verbatim_and_numbers_coerce_to_text() {
    let de = JsonDeserializer::parse(r#"{"t":60,"s":"plain","m":-9}"#).expect("parse");
    assert_eq!(de.deserialize_string("t").expect("number as text"), "60");
    assert_eq!(de.deserialize_string("s").expect("text"), "plain");
    assert_eq!(de.deserialize_string("m").expect("negative"), "-9");
}

#[test]
fn integer_range_checks_go_through_a_wide_intermediate() {
    let de = JsonDeserializer::parse(r#"{"a":300,"b":-1,"c":70000}"#).expect("parse");
    assert_eq!(de.deserialize_u8("a"), Err(CJsonError::TypeError));
    assert_eq!(de.deserialize_u16("a").expect("fits"), 300);
    assert_eq!(de.deserialize_u8("b"), Err(CJsonError::TypeError));
    assert_eq!(de.deserialize_i8("b").expect("signed fits"), -1);
    assert_eq!(de.deserialize_u16("c"), Err(CJsonError::TypeError));
    assert_eq!(de.deserialize_u32("c").expect("fits"), 70000);
    assert_eq!(de.deserialize_i64("b").expect("wide"), -1);
    assert_eq!(de.deserialize_u128("a").expect("widened"), 300u128);
    assert_eq!(de.deserialize_i128("b").expect("widened"), -1i128);
}

#[test]
fn oversized_integers_are_refused_not_rounded() {
    let mut ser = JsonSerializer::new();
    ser.serialize_struct_start("", 1).expect("open root");
    assert_eq!(ser.serialize_u64("x", u64::MAX), Err(CJsonError::TypeError));
    assert_eq!(ser.serialize_u128("x", u128::MAX), Err(CJsonError::TypeError));
    assert_eq!(ser.serialize_i128("x", i128::MIN), Err(CJsonError::TypeError));
    ser.serialize_u64("x", 12345).expect("in range");
    ser.serialize_struct_end().expect("close root");
    assert_eq!(ser.print_unformatted().expect("print"), r#"{"x":12345}"#);
}

#[test]
fn writes_outside_an_open_pass_are_invalid_operations() {
    let mut ser = JsonSerializer::new();
    // No context is open yet: a scalar has nowhere to go.
    assert_eq!(ser.serialize_bool("flag", true), Err(CJsonError::InvalidOperation));
    // Closing with nothing open underflows the stack.
    assert_eq!(ser.serialize_struct_end(), Err(CJsonError::InvalidOperation));
    // Nothing was harvested, so nothing prints.
    assert_eq!(ser.print_unformatted(), Err(CJsonError::NotFound));
}

#[test]
fn string_escapes_round_trip_through_the_tree() {
    let tree = CJson::parse(r#"{"s":"a\"b\\c\nd\te"}"#).expect("parse escapes");
    let text = tree.print_unformatted().expect("print");
    assert_eq!(text, "{\"s\":\"a\\\"b\\\\c\\nd\\te\"}");
    let again = CJson::parse(&text).expect("reparse");
    let item = again.get_object_item("s").expect("member");
    assert_eq!(item.get_string_value().expect("text"), "a\"b\\c\nd\te");
}

#[test]
fn tree_construction_and_lookup() {
    let mut root = CJson::create_object().expect("object");
    root.add_item_to_object("flag", CJson::create_bool(true).expect("bool")).expect("add");
    root.add_item_to_object("count", CJson::create_number(-42).expect("number")).expect("add");
    let mut arr = CJson::create_array().expect("array");
    arr.add_item_to_array(CJson::create_string("x").expect("text")).expect("push");
    arr.add_item_to_array(CJson::create_null().expect("null")).expect("push");
    root.add_item_to_object("list", arr).expect("add");

    assert!(root.is_object());
    assert!(root.has_object_item("FLAG"), "member lookup ignores ASCII case");
    assert!(!root.has_object_item("nope"));
    assert_eq!(root.get_object_item("count").expect("member").get_int_value().expect("n"), -42);
    let list = root.get_object_item_case_sensitive("list").expect("member");
    assert_eq!(list.get_array_size().expect("size"), 2);
    assert!(list.get_array_item(1).expect("element").is_null());
    assert_eq!(root.print_unformatted().expect("print"),
        r#"{"flag":true,"count":-42,"list":["x",null]}"#);

    // Storing under an existing key replaces the member in place.
    root.add_item_to_object("flag", CJson::create_false().expect("false")).expect("replace");
    assert!(root.get_object_item("flag").expect("member").is_false());

    // A deep copy renders identically.
    let copy = root.duplicate(true).expect("copy");
    assert_eq!(copy.print_unformatted().expect("print"), root.print_unformatted().expect("print"));
}

#[test]
fn pointer_lookup_walks_members_and_elements() {
    let tree = CJson::parse(r#"{"a":{"b":[10,20,30]},"x~y":1,"p/q":2}"#).expect("parse");
    assert_eq!(
        JsonPointer::get(&tree, "/a/b/1").expect("pointer").get_int_value().expect("n"),
        20
    );
    assert_eq!(
        JsonPointer::get(&tree, "/x~0y").expect("escaped tilde").get_int_value().expect("n"),
        1
    );
    assert_eq!(
        JsonPointer::get(&tree, "/p~1q").expect("escaped slash").get_int_value().expect("n"),
        2
    );
    assert!(JsonPointer::get(&tree, "").expect("whole document").is_object());
    assert_eq!(JsonPointer::get(&tree, "/a/b/9").err(), Some(CJsonError::NotFound));
    assert_eq!(JsonPointer::get_case_sensitive(&tree, "/A/b/1").err(), Some(CJsonError::NotFound));
    assert_eq!(
        JsonPointer::get(&tree, "/A/b/0").expect("case folded").get_int_value().expect("n"),
        10
    );
}

#[test]
fn merge_patch_overwrites_removes_and_recurses() {
    let mut target = CJson::parse(r#"{"a":"b","c":{"d":"e","f":"g"}}"#).expect("target");
    let patch = CJson::parse(r#"{"a":"z","c":{"f":null,"h":"i"}}"#).expect("patch");
    let merged = JsonMergePatch::apply(&mut target, &patch).expect("merge");
    assert_eq!(
        merged.print_unformatted().expect("print"),
        r#"{"a":"z","c":{"d":"e","h":"i"}}"#
    );

    // A non-object patch replaces the target outright.
    let mut target = CJson::parse(r#"{"a":1}"#).expect("target");
    let patch = CJson::parse("[5]").expect("patch");
    let merged = JsonMergePatch::apply_case_sensitive(&mut target, &patch).expect("merge");
    assert_eq!(merged.print_unformatted().expect("print"), "[5]");
}

#[test]
fn convenience_members_render_in_order() {
    let mut root = CJson::create_object().expect("object");
    root.add_null_to_object("n").expect("null");
    root.add_true_to_object("t").expect("true");
    root.add_false_to_object("f").expect("false");
    root.add_bool_to_object("b", true).expect("bool");
    root.add_number_to_object("num", 9).expect("number");
    root.add_string_to_object("s", "hi").expect("text");
    assert_eq!(
        root.print_unformatted().expect("print"),
        r#"{"n":null,"t":true,"f":false,"b":true,"num":9,"s":"hi"}"#
    );
    let mut not_object = CJson::create_array().expect("array");
    assert_eq!(not_object.add_null_to_object("n"), Err(CJsonError::TypeError));
}

#[test]
fn patch_operations_append_to_an_array() {
    let mut ops = CJson::create_array().expect("array");
    JsonPatch::add_to_array(&mut ops, "remove", "/a/b", None).expect("no value");
    let payload = CJson::parse(r#"{"x":1}"#).expect("payload");
    JsonPatch::add_to_array(&mut ops, "add", "/c", Some(&payload)).expect("with value");
    assert_eq!(
        ops.print_unformatted().expect("print"),
        r#"[{"op":"remove","path":"/a/b"},{"op":"add","path":"/c","value":{"x":1}}]"#
    );
    let mut not_array = CJson::create_object().expect("object");
    assert_eq!(
        JsonPatch::add_to_array(&mut not_array, "add", "/c", None),
        Err(CJsonError::TypeError)
    );
}

#[test]
fn formatted_printing_indents_members() {
    let tree = CJson::parse(r#"{"a":1,"b":{"c":[2,3]}}"#).expect("parse");
    assert_eq!(
        tree.print().expect("formatted"),
        "{\n\t\"a\": 1,\n\t\"b\": {\n\t\t\"c\": [2, 3]\n\t}\n}"
    );

    let mut ser = JsonSerializer::new();
    ser.serialize_struct_start("", 1).expect("open root");
    ser.serialize_bool("ok", true).expect("write");
    ser.serialize_struct_end().expect("close root");
    assert_eq!(ser.print().expect("formatted"), "{\n\t\"ok\": true\n}");
}

#[test]
fn deleting_and_detaching_members_and_elements() {
    let mut tree = CJson::parse(r#"{"a":1,"b":[10,20,30],"c":3}"#).expect("parse");
    tree.delete_item_from_object("a").expect("delete member");
    let taken = tree.detach_item_from_object("c").expect("detach member");
    assert_eq!(taken.get_int_value().expect("n"), 3);
    assert_eq!(tree.detach_item_from_object("gone").err(), Some(CJsonError::NullPointer));
    // Deleting an absent member changes nothing.
    tree.delete_item_from_object("gone").expect("no-op");

    let mut arr = tree.detach_item_from_object("b").expect("detach array");
    arr.delete_item_from_array(1).expect("delete element");
    let first = arr.detach_item_from_array(0).expect("detach element");
    assert_eq!(first.get_int_value().expect("n"), 10);
    assert_eq!(arr.print_unformatted().expect("print"), "[30]");
    assert_eq!(arr.detach_item_from_array(5).err(), Some(CJsonError::NullPointer));
    assert_eq!(tree.print_unformatted().expect("print"), "{}");
}

#[test]
fn sorting_members_orders_keys() {
    let mut tree = CJson::parse(r#"{"b":2,"A":1,"c":3,"a":4}"#).expect("parse");
    JsonUtils::sort_object(&mut tree).expect("sort");
    // ASCII case ignored: `A` and `a` sort together, first occurrence
    // order between equal keys unspecified.
    let text = tree.print_unformatted().expect("print");
    assert!(text == r#"{"A":1,"a":4,"b":2,"c":3}"# || text == r#"{"a":4,"A":1,"b":2,"c":3}"#);

    let mut tree = CJson::parse(r#"{"b":2,"A":1,"a":4}"#).expect("parse");
    JsonUtils::sort_object_case_sensitive(&mut tree).expect("sort");
    assert_eq!(tree.print_unformatted().expect("print"), r#"{"A":1,"a":4,"b":2}"#);

    let mut not_object = CJson::create_array().expect("array");
    assert_eq!(JsonUtils::sort_object(&mut not_object), Err(CJsonError::TypeError));
}
