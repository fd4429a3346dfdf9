use cjson_binding::from_json;
use cjson_binding::to_json;
use cjson_binding::Bytes;
use cjson_binding::Config;
use cjson_binding::NtpConfig;
use cjson_binding::UserConfig;
use cjson_binding::WifiConfig;

#[test]
fn test_config_deserialization_from_json() {
    // This is the exact JSON that was failing before the fix
    let json = r#"{
        "version":0,
        "serial":"",
        "timezone":60,
        "daylight_saving_time":true,
        "users":[
            {"user":"","password":""},
            {"user":"","password":""}
        ],
        "wifi":{
            "ssid":"",
            "password":"",
            "hostname":"hi-happy-garden-rs",
            "auth":3,
            "enabled":false
        },
        "ntp":{
            "server":"",
            "port":123,
            "msg_len":48,
            "enabled":false
        }
    }"#;

    // This should NOT fail with "Invalid operation" anymore
    let config: Config = from_json(json)
        .expect("Failed to deserialize config - the bug is not fixed!");

    // Verify the deserialized values
    assert_eq!(config.version, 0);
    assert_eq!(config.timezone, 60);
    assert_eq!(config.daylight_saving_time, true);
    assert_eq!(config.users.len(), 2);
    assert_eq!(config.wifi.auth, 3);
    assert_eq!(config.wifi.enabled, false);
    assert_eq!(config.ntp.port, 123);
    assert_eq!(config.ntp.msg_len, 48);
    assert_eq!(config.ntp.enabled, false);

    // Verify hostname conversion
    let hostname_str = config.wifi.hostname.as_str();
    assert_eq!(hostname_str, "hi-happy-garden-rs");
}

#[test]
fn test_roundtrip_serialization_with_arrays() {
    let original = Config {
        version: 1,
        serial: Bytes::new_by_str(16, "ABC123"),
        timezone: 120,
        daylight_saving_time: false,
        users: vec![
            UserConfig {
                user: Bytes::new_by_str(32, "admin"),
                password: Bytes::new_by_str(64, "pass1"),
            },
            UserConfig {
                user: Bytes::new_by_str(32, "guest"),
                password: Bytes::new_by_str(64, "pass2"),
            },
        ],
        wifi: WifiConfig {
            ssid: Bytes::new_by_str(32, "MyNetwork"),
            password: Bytes::new_by_str(64, "secret"),
            hostname: Bytes::new_by_str(32, "device"),
            auth: 3,
            enabled: true,
        },
        ntp: NtpConfig {
            server: Bytes::new_by_str(32, "pool.ntp.org"),
            port: 123,
            msg_len: 48,
            enabled: true,
        },
    };

    // Serialize to JSON
    let json = to_json(&original).expect("Failed to serialize");
    println!("Serialized JSON:\n{}", json);

    // Verify it's valid JSON with array notation
    assert!(json.contains(r#""users":["#), "Users should be an array");
    assert!(json.contains(r#""wifi":{"#), "Wifi should be an object");
    assert!(json.contains(r#""ntp":{"#), "NTP should be an object");

    // Deserialize back
    let deserialized: Config = from_json(&json).expect("Failed to deserialize");

    // Verify all fields match
    assert_eq!(deserialized.version, original.version);
    assert_eq!(deserialized.serial.as_str(), original.serial.as_str());
    assert_eq!(deserialized.timezone, original.timezone);
    assert_eq!(deserialized.daylight_saving_time, original.daylight_saving_time);

    // Verify array elements
    assert_eq!(deserialized.users[0].user.as_str(), "admin");
    assert_eq!(deserialized.users[0].password.as_str(), "pass1");
    assert_eq!(deserialized.users[1].user.as_str(), "guest");
    assert_eq!(deserialized.users[1].password.as_str(), "pass2");

    // Verify nested structs
    assert_eq!(deserialized.wifi.ssid.as_str(), "MyNetwork");
    assert_eq!(deserialized.wifi.enabled, true);
    assert_eq!(deserialized.ntp.server.as_str(), "pool.ntp.org");
    assert_eq!(deserialized.ntp.enabled, true);
}

#[test]
fn nested_records_inside_an_array_keep_their_contexts() {
    // Each element's record start and end must not disturb the array's
    // own iteration context.
    let json = r#"{"users":[{"user":"admin","password":"pass1"},{"user":"guest","password":"pass2"}]}"#;
    let mut de = cjson_binding::JsonDeserializer::parse(json).expect("parse failed");
    let users: Vec<UserConfig> = de
        .deserialize_array::<UserConfig>("users", 2)
        .expect("array of records should deserialize");
    assert_eq!(users.len(), 2);
    assert_eq!(users[0].user.as_str(), "admin");
    assert_eq!(users[0].password.as_str(), "pass1");
    assert_eq!(users[1].user.as_str(), "guest");
    assert_eq!(users[1].password.as_str(), "pass2");
}
