//! Tests for message parsing, value extraction, coercion, topic
//! matching, base64 pre-decoding and schedule gating.

use base64::Engine;
use chrono::TimeZone;
use sinqtt::config::{Base64DecodeConfig, FieldConfig, FieldSpec};
use sinqtt::{JsonValue, MessageProcessor};

fn float_value(text: &str) -> JsonValue {
    JsonValue::Float(text.to_string())
}

fn str_value(text: &str) -> JsonValue {
    JsonValue::Str(text.to_string())
}

#[test]
fn test_parse_message_json() {
    let processor = MessageProcessor::new(None);
    let msg = processor
        .parse_message("test/topic", b"{\"value\": 42}", 0)
        .unwrap();

    assert_eq!(msg.topic, vec!["test", "topic"]);
    assert_eq!(
        processor.get_value("$.payload.value", &msg),
        Some(JsonValue::Int(42))
    );
}

#[test]
fn test_parse_message_raw_string() {
    let processor = MessageProcessor::new(None);
    let msg = processor.parse_message("test/topic", b"hello", 0).unwrap();

    assert_eq!(msg.payload, str_value("hello"));
}

#[test]
fn test_topic_matches() {
    let processor = MessageProcessor::new(None);

    assert!(processor.topic_matches("test/+/temp", "test/sensor1/temp"));
    assert!(processor.topic_matches("test/#", "test/sensor1/temp"));
    assert!(processor.topic_matches("test/sensor1/temp", "test/sensor1/temp"));
    assert!(!processor.topic_matches("test/sensor1/temp", "test/sensor2/temp"));
}

#[test]
fn test_get_value_literal() {
    let processor = MessageProcessor::new(None);
    let msg = processor.parse_message("test/topic", b"42", 0).unwrap();

    let value = processor.get_value("literal_value", &msg).unwrap();
    assert_eq!(value, str_value("literal_value"));
}

#[test]
fn test_get_value_jsonpath() {
    let processor = MessageProcessor::new(None);
    let msg = processor
        .parse_message("test/sensor1/temp", b"{\"temperature\": 23.5}", 0)
        .unwrap();

    let value = processor.get_value("$.payload.temperature", &msg).unwrap();
    assert_eq!(value, float_value("23.5"));
}

#[test]
fn test_convert_type_float() {
    let processor = MessageProcessor::new(None);

    let result = processor.convert_type(&str_value("42.5"), "float").unwrap();
    assert_eq!(result, float_value("42.5"));
}

#[test]
fn test_convert_type_bool() {
    let processor = MessageProcessor::new(None);

    let result = processor.convert_type(&str_value("true"), "bool").unwrap();
    assert_eq!(result, JsonValue::Bool(true));

    let result = processor.convert_type(&str_value("false"), "bool").unwrap();
    assert_eq!(result, JsonValue::Bool(false));
}

#[test]
fn test_parse_simple_json_number() {
    let processor = MessageProcessor::new(None);
    let msg = processor
        .parse_message("test/sensor1/temperature", b"25.5", 0)
        .unwrap();

    assert_eq!(msg.topic, vec!["test", "sensor1", "temperature"]);
    assert_eq!(msg.payload, float_value("25.5"));
    assert_eq!(msg.qos, 0);
}

#[test]
fn test_parse_object_json() {
    let processor = MessageProcessor::new(None);
    let msg = processor
        .parse_message("test/device/data", br#"{"temperature": 23.5, "humidity": 65.2}"#, 1)
        .unwrap();

    assert_eq!(
        processor.get_value("$.payload.temperature", &msg),
        Some(float_value("23.5"))
    );
    assert_eq!(
        processor.get_value("$.payload.humidity", &msg),
        Some(float_value("65.2"))
    );
}

#[test]
fn test_parse_empty_payload() {
    let processor = MessageProcessor::new(None);
    let msg = processor.parse_message("test/topic", b"", 0).unwrap();

    assert_eq!(msg.payload, JsonValue::Null);
}

#[test]
fn test_parse_raw_string_off() {
    let processor = MessageProcessor::new(None);
    let msg = processor.parse_message("test/topic", b"OFF", 0).unwrap();

    assert_eq!(msg.payload, str_value("OFF"));
}

#[test]
fn test_parse_raw_string_on() {
    let processor = MessageProcessor::new(None);
    let msg = processor.parse_message("stat/device/power", b"ON", 0).unwrap();

    assert_eq!(msg.payload, str_value("ON"));
}

#[test]
fn test_parse_raw_text_payload() {
    let processor = MessageProcessor::new(None);
    let msg = processor
        .parse_message("test/status", b"Device is running", 0)
        .unwrap();

    assert_eq!(msg.payload, str_value("Device is running"));
}

#[test]
fn test_parse_malformed_json_as_string() {
    let processor = MessageProcessor::new(None);
    let msg = processor
        .parse_message("test/topic", b"not valid json {", 0)
        .unwrap();

    assert_eq!(msg.payload, str_value("not valid json {"));
}

#[test]
fn test_parse_array_json() {
    let processor = MessageProcessor::new(None);
    let msg = processor.parse_message("test/array", b"[1, 2, 3, 4, 5]", 0).unwrap();

    assert_eq!(
        msg.payload,
        JsonValue::Array(vec![
            JsonValue::Int(1),
            JsonValue::Int(2),
            JsonValue::Int(3),
            JsonValue::Int(4),
            JsonValue::Int(5),
        ])
    );
}

#[test]
fn test_parse_string_json() {
    let processor = MessageProcessor::new(None);
    let msg = processor
        .parse_message("test/string", br#""hello world""#, 0)
        .unwrap();

    assert_eq!(msg.payload, str_value("hello world"));
}

#[test]
fn test_parse_null_json() {
    let processor = MessageProcessor::new(None);
    let msg = processor.parse_message("test/null", b"null", 0).unwrap();

    assert_eq!(msg.payload, JsonValue::Null);
}

#[test]
fn test_parse_boolean_json() {
    let processor = MessageProcessor::new(None);

    let msg = processor.parse_message("test/bool", b"true", 0).unwrap();
    assert_eq!(msg.payload, JsonValue::Bool(true));

    let msg = processor.parse_message("test/bool", b"false", 0).unwrap();
    assert_eq!(msg.payload, JsonValue::Bool(false));
}

#[test]
fn test_parse_nested_json() {
    let processor = MessageProcessor::new(None);
    let payload = br#"{"sensor": {"readings": {"temp": 23.5, "humidity": 65}}}"#;
    let msg = processor.parse_message("test/nested", payload, 0).unwrap();

    assert_eq!(
        processor.get_value("$.payload.sensor.readings.temp", &msg),
        Some(float_value("23.5"))
    );
    assert_eq!(
        processor.get_value("$.payload.sensor.readings.humidity", &msg),
        Some(JsonValue::Int(65))
    );
}

#[test]
fn test_get_literal_value() {
    let processor = MessageProcessor::new(None);
    let msg = processor.parse_message("test", b"25.5", 0).unwrap();

    let result = processor.get_value("static_value", &msg).unwrap();
    assert_eq!(result, str_value("static_value"));
}

#[test]
fn test_get_payload_value() {
    let processor = MessageProcessor::new(None);
    let msg = processor.parse_message("test", b"25.5", 0).unwrap();

    let result = processor.get_value("$.payload", &msg).unwrap();
    assert_eq!(result, float_value("25.5"));
}

#[test]
fn test_get_nested_value() {
    let processor = MessageProcessor::new(None);
    let msg = processor
        .parse_message("test", br#"{"temperature": 23.5, "humidity": 65}"#, 0)
        .unwrap();

    let result = processor.get_value("$.payload.temperature", &msg).unwrap();
    assert_eq!(result, float_value("23.5"));
}

#[test]
fn test_get_topic_segment() {
    let processor = MessageProcessor::new(None);
    let msg = processor
        .parse_message("node/sensor123/temperature", b"25.5", 0)
        .unwrap();

    let result = processor.get_value("$.topic[1]", &msg).unwrap();
    assert_eq!(result, str_value("sensor123"));
}

#[test]
fn test_get_topic_first_segment() {
    let processor = MessageProcessor::new(None);
    let msg = processor
        .parse_message("node/sensor123/temperature", b"25.5", 0)
        .unwrap();

    let result = processor.get_value("$.topic[0]", &msg).unwrap();
    assert_eq!(result, str_value("node"));
}

#[test]
fn test_get_topic_last_segment() {
    let processor = MessageProcessor::new(None);
    let msg = processor
        .parse_message("node/sensor123/temperature", b"25.5", 0)
        .unwrap();

    let result = processor.get_value("$.topic[2]", &msg).unwrap();
    assert_eq!(result, str_value("temperature"));
}

#[test]
fn test_get_array_element() {
    let processor = MessageProcessor::new(None);
    let msg = processor
        .parse_message("test", br#"{"values": [10, 20, 30]}"#, 0)
        .unwrap();

    let result = processor.get_value("$.payload.values[0]", &msg).unwrap();
    assert_eq!(result, JsonValue::Int(10));

    let result = processor.get_value("$.payload.values[2]", &msg).unwrap();
    assert_eq!(result, JsonValue::Int(30));
}

#[test]
fn test_get_bracket_notation_special_chars() {
    let processor = MessageProcessor::new(None);
    let msg = processor
        .parse_message(
            "tele/tasmota/device1/SENSOR",
            br#"{"air_quality_sensor": {"pm2.5": 5, "PM10": 12}}"#,
            0,
        )
        .unwrap();

    let result = processor
        .get_value("$.payload.air_quality_sensor['pm2.5']", &msg)
        .unwrap();
    assert_eq!(result, JsonValue::Int(5));
}

#[test]
fn test_get_expression_celsius_to_fahrenheit_0() {
    let processor = MessageProcessor::new(None);
    let msg = processor.parse_message("test", b"0", 0).unwrap();

    let result = processor.get_value("= 32 + ($.payload * 9 / 5)", &msg).unwrap();
    assert_eq!(result, float_value("32"));
}

#[test]
fn test_get_expression_celsius_to_fahrenheit_100() {
    let processor = MessageProcessor::new(None);
    let msg = processor.parse_message("test", b"100", 0).unwrap();

    let result = processor.get_value("= 32 + ($.payload * 9 / 5)", &msg).unwrap();
    assert_eq!(result, float_value("212"));
}

#[test]
fn test_get_expression_with_nested_value() {
    let processor = MessageProcessor::new(None);
    let msg = processor
        .parse_message("test", br#"{"temperature": 37}"#, 0)
        .unwrap();

    let result = processor
        .get_value("= 32 + ($.payload.temperature * 9 / 5)", &msg)
        .unwrap();
    let value: f64 = match result {
        JsonValue::Float(t) => t.parse().unwrap(),
        other => panic!("expected a float, got {:?}", other),
    };
    assert!((value - 98.6).abs() < 0.01);
}

#[test]
fn test_get_missing_value_returns_none() {
    let processor = MessageProcessor::new(None);
    let msg = processor
        .parse_message("test", br#"{"temperature": 25}"#, 0)
        .unwrap();

    let result = processor.get_value("$.payload.nonexistent", &msg);
    assert!(result.is_none());
}

#[test]
fn test_get_empty_spec_returns_none() {
    let processor = MessageProcessor::new(None);
    let msg = processor.parse_message("test", b"25", 0).unwrap();

    let result = processor.get_value("", &msg);
    assert!(result.is_none());
}

#[test]
fn test_get_qos() {
    let processor = MessageProcessor::new(None);
    let msg = processor.parse_message("test", b"25.5", 2).unwrap();

    let result = processor.get_value("$.qos", &msg).unwrap();
    assert_eq!(result, JsonValue::Int(2));
}

#[test]
fn test_convert_string_to_float() {
    let processor = MessageProcessor::new(None);

    let result = processor.convert_type(&str_value("123.456"), "float").unwrap();
    assert_eq!(result, float_value("123.456"));
}

#[test]
fn test_convert_int_to_float() {
    let processor = MessageProcessor::new(None);

    let result = processor.convert_type(&JsonValue::Int(123), "float").unwrap();
    assert_eq!(result, float_value("123"));
}

#[test]
fn test_convert_string_int_to_float() {
    let processor = MessageProcessor::new(None);

    let result = processor.convert_type(&str_value("42"), "float").unwrap();
    assert_eq!(result, float_value("42"));
}

#[test]
fn test_convert_string_to_int() {
    let processor = MessageProcessor::new(None);

    let result = processor.convert_type(&str_value("789"), "int").unwrap();
    assert_eq!(result, JsonValue::Int(789));
}

#[test]
fn test_convert_float_to_int() {
    let processor = MessageProcessor::new(None);

    let result = processor.convert_type(&float_value("42.7"), "int").unwrap();
    assert_eq!(result, JsonValue::Int(42));
}

#[test]
fn test_convert_to_string() {
    let processor = MessageProcessor::new(None);

    let result = processor.convert_type(&JsonValue::Int(42), "str").unwrap();
    assert_eq!(result, str_value("42"));

    let result = processor.convert_type(&float_value("3.14"), "str").unwrap();
    assert_eq!(result, str_value("3.14"));
}

#[test]
fn test_convert_string_true_to_bool() {
    let processor = MessageProcessor::new(None);

    let result = processor.convert_type(&str_value("true"), "bool").unwrap();
    assert_eq!(result, JsonValue::Bool(true));

    let result = processor.convert_type(&str_value("TRUE"), "bool").unwrap();
    assert_eq!(result, JsonValue::Bool(true));

    let result = processor.convert_type(&str_value("True"), "bool").unwrap();
    assert_eq!(result, JsonValue::Bool(true));
}

#[test]
fn test_convert_string_false_to_bool() {
    let processor = MessageProcessor::new(None);

    let result = processor.convert_type(&str_value("false"), "bool").unwrap();
    assert_eq!(result, JsonValue::Bool(false));

    let result = processor.convert_type(&str_value("FALSE"), "bool").unwrap();
    assert_eq!(result, JsonValue::Bool(false));
}

#[test]
fn test_convert_string_yes_no_to_bool() {
    let processor = MessageProcessor::new(None);

    let result = processor.convert_type(&str_value("yes"), "bool").unwrap();
    assert_eq!(result, JsonValue::Bool(true));

    let result = processor.convert_type(&str_value("no"), "bool").unwrap();
    assert_eq!(result, JsonValue::Bool(false));
}

#[test]
fn test_convert_string_on_off_to_bool() {
    let processor = MessageProcessor::new(None);

    let result = processor.convert_type(&str_value("on"), "bool").unwrap();
    assert_eq!(result, JsonValue::Bool(true));

    let result = processor.convert_type(&str_value("off"), "bool").unwrap();
    assert_eq!(result, JsonValue::Bool(false));
}

#[test]
fn test_convert_string_1_0_to_bool() {
    let processor = MessageProcessor::new(None);

    let result = processor.convert_type(&str_value("1"), "bool").unwrap();
    assert_eq!(result, JsonValue::Bool(true));

    let result = processor.convert_type(&str_value("0"), "bool").unwrap();
    assert_eq!(result, JsonValue::Bool(false));
}

#[test]
fn test_convert_int_to_bool() {
    let processor = MessageProcessor::new(None);

    let result = processor.convert_type(&JsonValue::Int(1), "bool").unwrap();
    assert_eq!(result, JsonValue::Bool(true));

    let result = processor.convert_type(&JsonValue::Int(0), "bool").unwrap();
    assert_eq!(result, JsonValue::Bool(false));

    let result = processor.convert_type(&JsonValue::Int(42), "bool").unwrap();
    assert_eq!(result, JsonValue::Bool(true));
}

#[test]
fn test_convert_bool_to_booltoint() {
    let processor = MessageProcessor::new(None);

    let result = processor
        .convert_type(&JsonValue::Bool(true), "booltoint")
        .unwrap();
    assert_eq!(result, JsonValue::Int(1));

    let result = processor
        .convert_type(&JsonValue::Bool(false), "booltoint")
        .unwrap();
    assert_eq!(result, JsonValue::Int(0));
}

#[test]
fn test_convert_string_to_booltoint() {
    let processor = MessageProcessor::new(None);

    let result = processor.convert_type(&str_value("true"), "booltoint").unwrap();
    assert_eq!(result, JsonValue::Int(1));

    let result = processor.convert_type(&str_value("false"), "booltoint").unwrap();
    assert_eq!(result, JsonValue::Int(0));

    let result = processor.convert_type(&str_value("ON"), "booltoint").unwrap();
    assert_eq!(result, JsonValue::Int(1));

    let result = processor.convert_type(&str_value("OFF"), "booltoint").unwrap();
    assert_eq!(result, JsonValue::Int(0));
}

#[test]
fn test_convert_invalid_string_to_int_returns_none() {
    let processor = MessageProcessor::new(None);

    let result = processor.convert_type(&str_value("not a number"), "int");
    assert!(result.is_none());
}

#[test]
fn test_convert_invalid_string_to_float_returns_none() {
    let processor = MessageProcessor::new(None);

    let result = processor.convert_type(&str_value("not a number"), "float");
    assert!(result.is_none());
}

#[test]
fn test_convert_unknown_type_returns_none() {
    let processor = MessageProcessor::new(None);

    let result = processor.convert_type(&JsonValue::Int(42), "unknown_type");
    assert!(result.is_none());
}

#[test]
fn test_topic_exact_match() {
    let processor = MessageProcessor::new(None);

    assert!(processor.topic_matches("test/sensor/temp", "test/sensor/temp"));
    assert!(!processor.topic_matches("test/sensor/temp", "test/sensor/humidity"));
}

#[test]
fn test_topic_single_level_wildcard() {
    let processor = MessageProcessor::new(None);

    assert!(processor.topic_matches("test/+/temp", "test/sensor1/temp"));
    assert!(processor.topic_matches("test/+/temp", "test/sensor2/temp"));
    assert!(processor.topic_matches("test/+/temp", "test/any/temp"));
    assert!(!processor.topic_matches("test/+/temp", "test/sensor1/humidity"));
    assert!(!processor.topic_matches("test/+/temp", "other/sensor1/temp"));
}

#[test]
fn test_topic_multi_level_wildcard() {
    let processor = MessageProcessor::new(None);

    assert!(processor.topic_matches("test/#", "test/sensor1/temp"));
    assert!(processor.topic_matches("test/#", "test/sensor1/humidity"));
    assert!(processor.topic_matches("test/#", "test/a/b/c/d"));
    assert!(processor.topic_matches("test/#", "test"));
    assert!(!processor.topic_matches("test/#", "other/sensor1/temp"));
}

#[test]
fn test_topic_multiple_single_wildcards() {
    let processor = MessageProcessor::new(None);

    assert!(processor.topic_matches("node/+/sensor/+/value", "node/abc/sensor/xyz/value"));
    assert!(!processor.topic_matches("node/+/sensor/+/value", "node/abc/sensor/xyz/other"));
}

#[test]
fn test_topic_wildcard_at_start() {
    let processor = MessageProcessor::new(None);

    assert!(processor.topic_matches("+/sensor/temp", "room1/sensor/temp"));
    assert!(processor.topic_matches("+/sensor/temp", "room2/sensor/temp"));
}

#[test]
fn test_topic_no_match_different_length() {
    let processor = MessageProcessor::new(None);

    assert!(!processor.topic_matches("test/sensor", "test/sensor/temp"));
    assert!(!processor.topic_matches("test/sensor/temp", "test/sensor"));
}

fn b64_target(msg: &sinqtt::ParsedMessage, name: &str) -> Option<(Vec<u8>, String)> {
    let entries = msg.base64decoded.as_ref()?;
    for (key, value) in entries {
        if key == name {
            return Some((value.raw.clone(), value.hex.clone()));
        }
    }
    None
}

#[test]
fn test_base64_decode() {
    let encoded = base64::engine::general_purpose::STANDARD.encode(b"Hello, World!");
    let payload = format!(r#"{{"data": "{}"}}"#, encoded);

    let config = Base64DecodeConfig {
        source: "$.payload.data".to_string(),
        target: "decoded".to_string(),
    };
    let processor = MessageProcessor::new(Some(config));

    let msg = processor.parse_message("test", payload.as_bytes(), 0).unwrap();

    assert!(msg.base64decoded.is_some());
    let (raw, hex) = b64_target(&msg, "decoded").unwrap();

    assert_eq!(raw, b"Hello, World!");
    assert_eq!(hex, "48656c6c6f2c20576f726c6421");
}

#[test]
fn test_base64_decode_binary_data() {
    let binary_data: Vec<u8> = vec![0x00, 0x01, 0x02, 0xFF, 0xFE, 0xFD];
    let encoded = base64::engine::general_purpose::STANDARD.encode(&binary_data);
    let payload = format!(r#"{{"binary": "{}"}}"#, encoded);

    let config = Base64DecodeConfig {
        source: "$.payload.binary".to_string(),
        target: "decoded".to_string(),
    };
    let processor = MessageProcessor::new(Some(config));

    let msg = processor.parse_message("test", payload.as_bytes(), 0).unwrap();

    let (raw, hex) = b64_target(&msg, "decoded").unwrap();

    assert_eq!(raw, binary_data);
    assert_eq!(hex, "000102fffefd");
}

#[test]
fn test_base64_decode_missing_source_no_panic() {
    let config = Base64DecodeConfig {
        source: "$.payload.nonexistent".to_string(),
        target: "decoded".to_string(),
    };
    let processor = MessageProcessor::new(Some(config));

    let msg = processor.parse_message("test", br#"{"other": "data"}"#, 0).unwrap();

    assert!(msg.base64decoded.is_none());
}

#[test]
fn test_base64_decode_invalid_base64_no_panic() {
    let config = Base64DecodeConfig {
        source: "$.payload.data".to_string(),
        target: "decoded".to_string(),
    };
    let processor = MessageProcessor::new(Some(config));

    let msg = processor
        .parse_message("test", br#"{"data": "not-valid-base64!!!"}"#, 0)
        .unwrap();

    assert!(msg.base64decoded.is_none());
}

#[test]
fn test_extract_field_simple() {
    let processor = MessageProcessor::new(None);
    let msg = processor.parse_message("test", br#"{"value": 42.5}"#, 0).unwrap();

    let spec = FieldSpec::Simple("$.payload.value".to_string());
    let result = processor.extract_field(&spec, &msg).unwrap();

    assert_eq!(result, float_value("42.5"));
}

#[test]
fn test_extract_field_typed_float() {
    let processor = MessageProcessor::new(None);
    let msg = processor.parse_message("test", br#"{"value": "123.45"}"#, 0).unwrap();

    let spec = FieldSpec::Typed(FieldConfig {
        value: "$.payload.value".to_string(),
        field_type: Some("float".to_string()),
    });
    let result = processor.extract_field(&spec, &msg).unwrap();

    assert_eq!(result, float_value("123.45"));
}

#[test]
fn test_extract_field_typed_int() {
    let processor = MessageProcessor::new(None);
    let msg = processor.parse_message("test", br#"{"value": 42.9}"#, 0).unwrap();

    let spec = FieldSpec::Typed(FieldConfig {
        value: "$.payload.value".to_string(),
        field_type: Some("int".to_string()),
    });
    let result = processor.extract_field(&spec, &msg).unwrap();

    assert_eq!(result, JsonValue::Int(42));
}

#[test]
fn test_extract_field_typed_booltoint() {
    let processor = MessageProcessor::new(None);
    let msg = processor.parse_message("test", br#"{"status": "ON"}"#, 0).unwrap();

    let spec = FieldSpec::Typed(FieldConfig {
        value: "$.payload.status".to_string(),
        field_type: Some("booltoint".to_string()),
    });
    let result = processor.extract_field(&spec, &msg).unwrap();

    assert_eq!(result, JsonValue::Int(1));
}

#[test]
fn test_extract_field_typed_no_type() {
    let processor = MessageProcessor::new(None);
    let msg = processor.parse_message("test", br#"{"value": 42}"#, 0).unwrap();

    let spec = FieldSpec::Typed(FieldConfig {
        value: "$.payload.value".to_string(),
        field_type: None,
    });
    let result = processor.extract_field(&spec, &msg).unwrap();

    assert_eq!(result, JsonValue::Int(42));
}

#[test]
fn test_expression_simple_addition() {
    let processor = MessageProcessor::new(None);
    let msg = processor.parse_message("test", b"10", 0).unwrap();

    let result = processor.get_value("= $.payload + 5", &msg).unwrap();
    assert_eq!(result, float_value("15"));
}

#[test]
fn test_expression_multiplication() {
    let processor = MessageProcessor::new(None);
    let msg = processor.parse_message("test", b"7", 0).unwrap();

    let result = processor.get_value("= $.payload * 3", &msg).unwrap();
    assert_eq!(result, float_value("21"));
}

#[test]
fn test_expression_division() {
    let processor = MessageProcessor::new(None);
    let msg = processor.parse_message("test", b"100", 0).unwrap();

    let result = processor.get_value("= $.payload / 4", &msg).unwrap();
    assert_eq!(result, float_value("25"));
}

#[test]
fn test_expression_power() {
    let processor = MessageProcessor::new(None);
    let msg = processor.parse_message("test", b"2", 0).unwrap();

    let result = processor.get_value("= $.payload ^ 3", &msg).unwrap();
    assert_eq!(result, float_value("8"));
}

#[test]
fn test_expression_modulo() {
    let processor = MessageProcessor::new(None);
    let msg = processor.parse_message("test", b"17", 0).unwrap();

    let result = processor.get_value("= $.payload % 5", &msg).unwrap();
    assert_eq!(result, float_value("2"));
}

#[test]
fn test_expression_complex_parentheses() {
    let processor = MessageProcessor::new(None);
    let msg = processor.parse_message("test", b"10", 0).unwrap();

    let result = processor.get_value("= ($.payload + 5) * 2", &msg).unwrap();
    assert_eq!(result, float_value("30"));
}

#[test]
fn test_expression_multiple_variables() {
    let processor = MessageProcessor::new(None);
    let msg = processor
        .parse_message("test", br#"{"a": 10, "b": 3}"#, 0)
        .unwrap();

    let result = processor.get_value("= $.payload.a + $.payload.b", &msg).unwrap();
    assert_eq!(result, float_value("13"));
}

#[test]
fn test_build_message_object_contains_all_fields() {
    let processor = MessageProcessor::new(None);
    let msg = processor.parse_message("test/topic", b"42", 1).unwrap();

    assert_eq!(
        processor.get_value("$.topic[0]", &msg),
        Some(str_value("test"))
    );
    assert_eq!(
        processor.get_value("$.topic[1]", &msg),
        Some(str_value("topic"))
    );
    assert_eq!(processor.get_value("$.payload", &msg), Some(JsonValue::Int(42)));
    assert_eq!(processor.get_value("$.qos", &msg), Some(JsonValue::Int(1)));
    assert_eq!(
        processor.get_value("$.timestamp", &msg),
        Some(JsonValue::Null)
    );
}

#[test]
fn test_build_message_object_with_base64decoded() {
    let encoded = base64::engine::general_purpose::STANDARD.encode(b"test");
    let payload = format!(r#"{{"data": "{}"}}"#, encoded);

    let config = Base64DecodeConfig {
        source: "$.payload.data".to_string(),
        target: "decoded".to_string(),
    };
    let processor = MessageProcessor::new(Some(config));
    let msg = processor.parse_message("test", payload.as_bytes(), 0).unwrap();

    assert!(matches!(
        processor.get_value("$.base64decoded.decoded.raw[0]", &msg),
        Some(JsonValue::Int(_))
    ));
    assert_eq!(
        processor.get_value("$.base64decoded.decoded.hex", &msg),
        Some(str_value("74657374"))
    );
}

fn make_datetime(year: i32, month: u32, day: u32, hour: u32, minute: u32, second: u32) -> i64 {
    chrono::Utc
        .with_ymd_and_hms(year, month, day, hour, minute, second)
        .single()
        .expect("invalid datetime")
        .timestamp()
}

#[test]
fn test_schedule_every_minute() {
    let processor = MessageProcessor::new(None);

    let schedule = "0 * * * * *";

    let time = make_datetime(2025, 1, 15, 10, 30, 0);
    assert!(processor.schedule_matches_at(schedule, time));

    let time = make_datetime(2025, 1, 15, 10, 31, 0);
    assert!(processor.schedule_matches_at(schedule, time));

    let time = make_datetime(2025, 1, 15, 10, 30, 30);
    assert!(processor.schedule_matches_at(schedule, time));
}

#[test]
fn test_schedule_specific_minute() {
    let processor = MessageProcessor::new(None);

    let schedule = "0 30 * * * *";

    let time = make_datetime(2025, 1, 15, 10, 30, 0);
    assert!(processor.schedule_matches_at(schedule, time));

    let time = make_datetime(2025, 1, 15, 10, 31, 0);
    assert!(!processor.schedule_matches_at(schedule, time));

    let time = make_datetime(2025, 1, 15, 10, 29, 0);
    assert!(!processor.schedule_matches_at(schedule, time));
}

#[test]
fn test_schedule_specific_hour_and_minute() {
    let processor = MessageProcessor::new(None);

    let schedule = "0 30 14 * * *";

    let time = make_datetime(2025, 1, 15, 14, 30, 0);
    assert!(processor.schedule_matches_at(schedule, time));

    let time = make_datetime(2025, 1, 15, 13, 30, 0);
    assert!(!processor.schedule_matches_at(schedule, time));

    let time = make_datetime(2025, 1, 15, 14, 0, 0);
    assert!(!processor.schedule_matches_at(schedule, time));
}

#[test]
fn test_schedule_every_5_minutes() {
    let processor = MessageProcessor::new(None);

    let schedule = "0 */5 * * * *";

    assert!(processor.schedule_matches_at(schedule, make_datetime(2025, 1, 15, 10, 0, 0)));
    assert!(processor.schedule_matches_at(schedule, make_datetime(2025, 1, 15, 10, 5, 0)));
    assert!(processor.schedule_matches_at(schedule, make_datetime(2025, 1, 15, 10, 10, 0)));
    assert!(processor.schedule_matches_at(schedule, make_datetime(2025, 1, 15, 10, 15, 0)));
    assert!(processor.schedule_matches_at(schedule, make_datetime(2025, 1, 15, 10, 55, 0)));

    assert!(!processor.schedule_matches_at(schedule, make_datetime(2025, 1, 15, 10, 1, 0)));
    assert!(!processor.schedule_matches_at(schedule, make_datetime(2025, 1, 15, 10, 3, 0)));
    assert!(!processor.schedule_matches_at(schedule, make_datetime(2025, 1, 15, 10, 7, 0)));
}

#[test]
fn test_schedule_five_field_normalisation() {
    let processor = MessageProcessor::new(None);

    let schedule = "*/5 * * * *";

    assert!(processor.schedule_matches_at(schedule, make_datetime(2025, 3, 1, 10, 5, 30)));
    assert!(!processor.schedule_matches_at(schedule, make_datetime(2025, 3, 1, 10, 7, 0)));
}

#[test]
fn test_schedule_day_of_week() {
    let processor = MessageProcessor::new(None);

    let schedule = "0 0 9 * * 2";

    let monday = make_datetime(2025, 1, 13, 9, 0, 0);
    assert!(processor.schedule_matches_at(schedule, monday));

    let tuesday = make_datetime(2025, 1, 14, 9, 0, 0);
    assert!(!processor.schedule_matches_at(schedule, tuesday));

    let monday_wrong_time = make_datetime(2025, 1, 13, 10, 0, 0);
    assert!(!processor.schedule_matches_at(schedule, monday_wrong_time));
}

#[test]
fn test_schedule_specific_day_of_month() {
    let processor = MessageProcessor::new(None);

    let schedule = "0 0 0 1 * *";

    let first = make_datetime(2025, 1, 1, 0, 0, 0);
    assert!(processor.schedule_matches_at(schedule, first));

    let second = make_datetime(2025, 1, 2, 0, 0, 0);
    assert!(!processor.schedule_matches_at(schedule, second));

    let feb_first = make_datetime(2025, 2, 1, 0, 0, 0);
    assert!(processor.schedule_matches_at(schedule, feb_first));
}

#[test]
fn test_schedule_range_of_hours() {
    let processor = MessageProcessor::new(None);

    let schedule = "0 * 9-17 * * *";

    assert!(processor.schedule_matches_at(schedule, make_datetime(2025, 1, 15, 9, 0, 0)));
    assert!(processor.schedule_matches_at(schedule, make_datetime(2025, 1, 15, 12, 30, 0)));
    assert!(processor.schedule_matches_at(schedule, make_datetime(2025, 1, 15, 17, 59, 0)));

    assert!(!processor.schedule_matches_at(schedule, make_datetime(2025, 1, 15, 8, 59, 0)));
    assert!(!processor.schedule_matches_at(schedule, make_datetime(2025, 1, 15, 18, 0, 0)));
    assert!(!processor.schedule_matches_at(schedule, make_datetime(2025, 1, 15, 23, 0, 0)));
}

#[test]
fn test_schedule_list_of_values() {
    let processor = MessageProcessor::new(None);

    let schedule = "0 0,15,30,45 * * * *";

    assert!(processor.schedule_matches_at(schedule, make_datetime(2025, 1, 15, 10, 0, 0)));
    assert!(processor.schedule_matches_at(schedule, make_datetime(2025, 1, 15, 10, 15, 0)));
    assert!(processor.schedule_matches_at(schedule, make_datetime(2025, 1, 15, 10, 30, 0)));
    assert!(processor.schedule_matches_at(schedule, make_datetime(2025, 1, 15, 10, 45, 0)));

    assert!(!processor.schedule_matches_at(schedule, make_datetime(2025, 1, 15, 10, 1, 0)));
    assert!(!processor.schedule_matches_at(schedule, make_datetime(2025, 1, 15, 10, 16, 0)));
}

#[test]
fn test_schedule_invalid_cron_expression() {
    let processor = MessageProcessor::new(None);

    assert!(!processor.schedule_matches("invalid"));
    assert!(!processor.schedule_matches(""));
    assert!(!processor.schedule_matches("* * *"));
    assert!(!processor.schedule_matches("99 99 99 99 99 99"));
}

#[test]
fn test_schedule_mid_minute() {
    let processor = MessageProcessor::new(None);

    let schedule = "0 30 10 * * *";

    assert!(processor.schedule_matches_at(schedule, make_datetime(2025, 1, 15, 10, 30, 0)));
    assert!(processor.schedule_matches_at(schedule, make_datetime(2025, 1, 15, 10, 30, 15)));
    assert!(processor.schedule_matches_at(schedule, make_datetime(2025, 1, 15, 10, 30, 59)));

    assert!(!processor.schedule_matches_at(schedule, make_datetime(2025, 1, 15, 10, 29, 59)));
    assert!(!processor.schedule_matches_at(schedule, make_datetime(2025, 1, 15, 10, 31, 0)));
}

#[test]
fn test_schedule_weekend_only() {
    let processor = MessageProcessor::new(None);

    let schedule = "0 0 * * * 1,7";

    let saturday = make_datetime(2025, 1, 11, 12, 0, 0);
    assert!(processor.schedule_matches_at(schedule, saturday));

    let sunday = make_datetime(2025, 1, 12, 12, 0, 0);
    assert!(processor.schedule_matches_at(schedule, sunday));

    let monday = make_datetime(2025, 1, 13, 12, 0, 0);
    assert!(!processor.schedule_matches_at(schedule, monday));
}

#[test]
fn test_schedule_monthly_report() {
    let processor = MessageProcessor::new(None);

    let schedule = "0 0 6 1 * *";

    assert!(processor.schedule_matches_at(schedule, make_datetime(2025, 1, 1, 6, 0, 0)));
    assert!(processor.schedule_matches_at(schedule, make_datetime(2025, 2, 1, 6, 0, 0)));
    assert!(processor.schedule_matches_at(schedule, make_datetime(2025, 12, 1, 6, 0, 0)));

    assert!(!processor.schedule_matches_at(schedule, make_datetime(2025, 1, 2, 6, 0, 0)));

    assert!(!processor.schedule_matches_at(schedule, make_datetime(2025, 1, 1, 7, 0, 0)));
}

#[test]
fn test_schedule_current_time() {
    let processor = MessageProcessor::new(None);

    let schedule = "* * * * * *";

    assert!(processor.schedule_matches(schedule));
}
