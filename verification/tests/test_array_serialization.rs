use cjson_binding::from_json;
use cjson_binding::to_json;
use cjson_binding::EmptyArrayConfig;
use cjson_binding::PlainConfig;
use cjson_binding::PlainUser;

#[test]
fn test_array_serialization() {
    let config = PlainConfig {
        version: 1,
        users: vec![
            PlainUser { user: 100, password: 200 },
            PlainUser { user: 300, password: 400 },
        ],
    };

    // Serialize to JSON
    let json_str = to_json(&config).expect("Failed to serialize");

    println!("Serialized JSON: {}", json_str);

    // Verify that JSON contains an array (not duplicate keys)
    assert!(json_str.contains(r#""users":"#), "JSON should contain 'users' field");
    assert!(json_str.contains(r#"["#), "JSON should contain array notation");

    // Count occurrences of "users" - should appear only once as a key
    let users_count = json_str.matches(r#""users""#).count();
    assert_eq!(users_count, 1, "JSON should contain 'users' key exactly once, not duplicated");

    // Deserialize back
    let deserialized: PlainConfig = from_json(&json_str).expect("Failed to deserialize");

    // Verify the data matches
    assert_eq!(deserialized.version, config.version);
    assert_eq!(deserialized.users, config.users);
    assert_eq!(deserialized.users[0].user, 100);
    assert_eq!(deserialized.users[0].password, 200);
    assert_eq!(deserialized.users[1].user, 300);
    assert_eq!(deserialized.users[1].password, 400);
}

#[test]
fn test_empty_array_serialization() {
    let config = EmptyArrayConfig { items: vec![] };

    let json_str = to_json(&config).expect("Failed to serialize");
    println!("Empty array JSON: {}", json_str);

    let deserialized: EmptyArrayConfig = from_json(&json_str).expect("Failed to deserialize");
    assert_eq!(deserialized, config);
}

#[test]
fn empty_array_renders_as_brackets() {
    let config = EmptyArrayConfig { items: vec![] };
    let json_str = to_json(&config).expect("Failed to serialize");
    assert_eq!(json_str, r#"{"items":[]}"#);
}

#[test]
fn exact_rendering_of_nested_records() {
    let config = PlainConfig {
        version: 7,
        users: vec![
            PlainUser { user: 1, password: 2 },
            PlainUser { user: 3, password: 4 },
        ],
    };
    let json_str = to_json(&config).expect("Failed to serialize");
    assert_eq!(
        json_str,
        r#"{"version":7,"users":[{"user":1,"password":2},{"user":3,"password":4}]}"#
    );
}

#[test]
fn fixed_array_length_is_enforced() {
    // One element where two are demanded.
    let short = r#"{"version":1,"users":[{"user":1,"password":2}]}"#;
    let r: Result<PlainConfig, cjson_binding::CJsonError> = from_json(short);
    assert_eq!(r, Err(cjson_binding::CJsonError::InvalidOperation));

    // Three elements where two are demanded.
    let long = r#"{"version":1,"users":[{"user":1,"password":2},{"user":3,"password":4},{"user":5,"password":6}]}"#;
    let r: Result<PlainConfig, cjson_binding::CJsonError> = from_json(long);
    assert_eq!(r, Err(cjson_binding::CJsonError::InvalidOperation));
}

#[test]
fn out_of_range_integer_is_a_type_error() {
    // The number 300 cannot land in the 8-bit version field.
    let text = r#"{"version":300,"users":[{"user":1,"password":2},{"user":3,"password":4}]}"#;
    let r: Result<PlainConfig, cjson_binding::CJsonError> = from_json(text);
    assert_eq!(r, Err(cjson_binding::CJsonError::TypeError));
}

#[test]
fn malformed_text_is_a_parse_error() {
    let r: Result<PlainConfig, cjson_binding::CJsonError> = from_json("not json at all");
    assert_eq!(r, Err(cjson_binding::CJsonError::ParseError));
    let r: Result<PlainConfig, cjson_binding::CJsonError> = from_json(r#"{"version":1,"#);
    assert_eq!(r, Err(cjson_binding::CJsonError::ParseError));
    let r: Result<PlainConfig, cjson_binding::CJsonError> = from_json(r#"{"version":1.5}"#);
    assert_eq!(r, Err(cjson_binding::CJsonError::ParseError));
}
