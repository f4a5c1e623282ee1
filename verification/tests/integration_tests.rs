//! Tests for the full delivery-to-point pipeline.

use chrono::TimeZone;
use sinqtt::config::{FieldConfig, FieldSpec, PointConfig};
use sinqtt::dispatch::{compose_point, plan_point};
use sinqtt::{MessageProcessor, Point};

fn make_point_config(
    measurement: &str,
    topic: &str,
    fields: Vec<(&str, &str)>,
    tags: Vec<(&str, &str)>,
) -> PointConfig {
    PointConfig {
        measurement: measurement.to_string(),
        topic: topic.to_string(),
        bucket: None,
        schedule: None,
        fields: fields
            .into_iter()
            .map(|(k, v)| (k.to_string(), FieldSpec::Simple(v.to_string())))
            .collect(),
        tags: tags
            .into_iter()
            .map(|(k, v)| (k.to_string(), v.to_string()))
            .collect(),
        httpcontent: Vec::new(),
    }
}

fn make_typed_point_config(
    measurement: &str,
    topic: &str,
    fields: Vec<(&str, &str, Option<&str>)>,
) -> PointConfig {
    PointConfig {
        measurement: measurement.to_string(),
        topic: topic.to_string(),
        bucket: None,
        schedule: None,
        fields: fields
            .into_iter()
            .map(|(k, v, t)| {
                let spec = if let Some(tag) = t {
                    FieldSpec::Typed(FieldConfig {
                        value: v.to_string(),
                        field_type: Some(tag.to_string()),
                    })
                } else {
                    FieldSpec::Simple(v.to_string())
                };
                (k.to_string(), spec)
            })
            .collect(),
        tags: Vec::new(),
        httpcontent: Vec::new(),
    }
}

fn process_message_to_point(
    processor: &MessageProcessor,
    point_config: &PointConfig,
    topic: &str,
    payload: &[u8],
) -> Option<Point> {
    let parsed = processor.parse_message(topic, payload, 0).ok()?;

    if !processor.topic_matches(&point_config.topic, topic) {
        return None;
    }

    compose_point(processor, point_config, &parsed, 0)
}

#[test]
fn test_simple_numeric_payload() {
    let processor = MessageProcessor::new(None);
    let config = make_point_config(
        "temperature",
        "test/+/temperature",
        vec![("value", "$.payload")],
        vec![("sensor_id", "$.topic[1]")],
    );

    let point =
        process_message_to_point(&processor, &config, "test/sensor1/temperature", b"25.5")
            .expect("should produce a point");

    let line = point.to_line_protocol();
    assert!(line.starts_with("temperature"));
    assert!(line.contains("sensor_id=sensor1"));
    assert!(line.contains("value=25.5"));
}

#[test]
fn test_json_payload_multiple_fields() {
    let processor = MessageProcessor::new(None);
    let config = make_point_config(
        "environment",
        "test/+/data",
        vec![
            ("temperature", "$.payload.temperature"),
            ("humidity", "$.payload.humidity"),
            ("pressure", "$.payload.pressure"),
        ],
        vec![("device_id", "$.topic[1]")],
    );

    let payload = br#"{"temperature": 23.5, "humidity": 65.2, "pressure": 1013.25}"#;
    let point = process_message_to_point(&processor, &config, "test/dev001/data", payload)
        .expect("should produce a point");

    let line = point.to_line_protocol();
    assert!(line.contains("temperature=23.5"));
    assert!(line.contains("humidity=65.2"));
    assert!(line.contains("pressure=1013.25"));
    assert!(line.contains("device_id=dev001"));
}

#[test]
fn test_string_to_float_conversion() {
    let processor = MessageProcessor::new(None);
    let config = make_typed_point_config(
        "typed",
        "test/typed/+/value",
        vec![("float_val", "$.payload.raw", Some("float"))],
    );

    let payload = br#"{"raw": "123.456"}"#;
    let point = process_message_to_point(&processor, &config, "test/typed/float/value", payload)
        .expect("should produce a point");

    let line = point.to_line_protocol();
    assert!(line.contains("float_val=123.456"));
}

#[test]
fn test_string_to_int_conversion() {
    let processor = MessageProcessor::new(None);
    let config = make_typed_point_config(
        "typed",
        "test/typed/+/value",
        vec![("int_val", "$.payload.raw", Some("int"))],
    );

    let payload = br#"{"raw": "789"}"#;
    let point = process_message_to_point(&processor, &config, "test/typed/int/value", payload)
        .expect("should produce a point");

    let line = point.to_line_protocol();
    assert!(line.contains("int_val=789i"));
}

#[test]
fn test_booltoint_conversion() {
    let processor = MessageProcessor::new(None);
    let config = make_typed_point_config(
        "typed",
        "test/#",
        vec![("motion", "$.payload.motion", Some("booltoint"))],
    );

    let payload = br#"{"motion": true}"#;
    let point = process_message_to_point(&processor, &config, "test/motion", payload)
        .expect("should produce a point");
    let line = point.to_line_protocol();
    assert!(line.contains("motion=1i"));

    let payload = br#"{"motion": false}"#;
    let point = process_message_to_point(&processor, &config, "test/motion", payload)
        .expect("should produce a point");
    let line = point.to_line_protocol();
    assert!(line.contains("motion=0i"));
}

#[test]
fn test_celsius_to_fahrenheit_0c() {
    let processor = MessageProcessor::new(None);
    let config = make_point_config(
        "temperature",
        "test/expr/temperature",
        vec![
            ("celsius", "$.payload"),
            ("fahrenheit", "= 32 + ($.payload * 9 / 5)"),
        ],
        vec![],
    );

    let point = process_message_to_point(&processor, &config, "test/expr/temperature", b"0")
        .expect("should produce a point");

    let line = point.to_line_protocol();
    assert!(line.contains("celsius=0"));
    assert!(line.contains("fahrenheit=32"));
}

#[test]
fn test_celsius_to_fahrenheit_100c() {
    let processor = MessageProcessor::new(None);
    let config = make_point_config(
        "temperature",
        "test/expr/temperature",
        vec![
            ("celsius", "$.payload"),
            ("fahrenheit", "= 32 + ($.payload * 9 / 5)"),
        ],
        vec![],
    );

    let point = process_message_to_point(&processor, &config, "test/expr/temperature", b"100")
        .expect("should produce a point");

    let line = point.to_line_protocol();
    assert!(line.contains("celsius=100i"));
    assert!(line.contains("fahrenheit=212.0"));
}

#[test]
fn test_expression_with_json_field() {
    let processor = MessageProcessor::new(None);
    let config = make_point_config(
        "computed",
        "test/#",
        vec![("doubled", "= $.payload.value * 2")],
        vec![],
    );

    let payload = br#"{"value": 42}"#;
    let point = process_message_to_point(&processor, &config, "test/compute", payload)
        .expect("should produce a point");

    let line = point.to_line_protocol();
    assert!(line.contains("doubled=84"));
}

#[test]
fn test_array_index_extraction() {
    let processor = MessageProcessor::new(None);
    let config = make_point_config(
        "array_data",
        "test/array/data",
        vec![
            ("first", "$.payload.values[0]"),
            ("second", "$.payload.values[1]"),
            ("third", "$.payload.values[2]"),
        ],
        vec![],
    );

    let payload = br#"{"values": [10, 20, 30, 40, 50]}"#;
    let point = process_message_to_point(&processor, &config, "test/array/data", payload)
        .expect("should produce a point");

    let line = point.to_line_protocol();
    assert!(line.contains("first=10"));
    assert!(line.contains("second=20"));
    assert!(line.contains("third=30"));
}

#[test]
fn test_single_level_wildcard() {
    let processor = MessageProcessor::new(None);
    let config = make_point_config(
        "sensor",
        "home/+/temperature",
        vec![("value", "$.payload")],
        vec![("room", "$.topic[1]")],
    );

    for room in &["living_room", "bedroom", "kitchen"] {
        let topic = format!("home/{}/temperature", room);
        let point = process_message_to_point(&processor, &config, &topic, b"22.5")
            .expect("should produce a point");

        let line = point.to_line_protocol();
        assert!(line.contains(&format!("room={}", room)));
        assert!(line.contains("value=22.5"));
    }
}

#[test]
fn test_wildcard_with_topic_tag_line() {
    let processor = MessageProcessor::new(None);
    let config = make_point_config(
        "sensor",
        "home/+/temperature",
        vec![("value", "$.payload")],
        vec![("room", "$.topic[1]")],
    );

    let point =
        process_message_to_point(&processor, &config, "home/kitchen/temperature", b"22.5")
            .expect("should produce a point");

    assert!(point.to_line_protocol().starts_with("sensor,room=kitchen value=22.5"));
}

#[test]
fn test_multi_level_wildcard() {
    let processor = MessageProcessor::new(None);
    let config = make_point_config(
        "wildcard",
        "test/wild/#",
        vec![("value", "$.payload")],
        vec![("level1", "$.topic[2]")],
    );

    let topics = vec![
        "test/wild/level1",
        "test/wild/level1/level2",
        "test/wild/a/b/c",
    ];

    for topic in topics {
        let point = process_message_to_point(&processor, &config, topic, b"100")
            .unwrap_or_else(|| panic!("should match topic: {}", topic));
        assert!(point.to_line_protocol().contains("value=100"));
    }
}

#[test]
fn test_multi_level_wildcard_zero_levels() {
    let processor = MessageProcessor::new(None);
    let config = make_point_config("wildcard", "test/#", vec![("value", "$.payload")], vec![]);

    let point = process_message_to_point(&processor, &config, "test", b"100")
        .expect("should match a topic with zero additional levels");
    assert!(point.to_line_protocol().contains("value=100"));
}

#[test]
fn test_raw_string_payload_processed() {
    let processor = MessageProcessor::new(None);
    let config = make_point_config(
        "power_state",
        "stat/+/power",
        vec![("value", "$.payload")],
        vec![("device", "$.topic[1]")],
    );

    let point = process_message_to_point(&processor, &config, "stat/device1/power", b"ON")
        .expect("should handle a raw string payload");

    let line = point.to_line_protocol();
    assert!(line.contains("device=device1"));
    assert!(line.contains(r#"value="ON""#));
}

#[test]
fn test_missing_field_handled_gracefully() {
    let processor = MessageProcessor::new(None);
    let config = make_point_config(
        "test",
        "test/#",
        vec![
            ("temperature", "$.payload.temperature"),
            ("humidity", "$.payload.humidity"),
        ],
        vec![],
    );

    let payload = br#"{"temperature": 25.0}"#;
    let point = process_message_to_point(&processor, &config, "test/partial", payload)
        .expect("should produce a point with the available fields");

    let line = point.to_line_protocol();
    assert!(line.contains("temperature=25"));
    assert!(!line.contains("humidity"));
}

#[test]
fn test_no_fields_no_point() {
    let processor = MessageProcessor::new(None);
    let config = make_point_config(
        "test",
        "test/#",
        vec![("value", "$.payload.nonexistent")],
        vec![],
    );

    let payload = br#"{"other": 123}"#;
    let point = process_message_to_point(&processor, &config, "test/empty", payload);

    assert!(point.is_none());
}

#[test]
fn test_empty_payload_as_null() {
    let processor = MessageProcessor::new(None);
    let parsed = processor.parse_message("test/topic", b"", 0).unwrap();

    assert_eq!(parsed.payload, sinqtt::JsonValue::Null);
}

#[test]
fn test_invalid_json_as_string() {
    let processor = MessageProcessor::new(None);
    let parsed = processor.parse_message("test/topic", b"not json", 0).unwrap();

    assert_eq!(parsed.payload, sinqtt::JsonValue::Str("not json".to_string()));
}

#[test]
fn test_multiple_points_same_topic() {
    let processor = MessageProcessor::new(None);

    let config1 = make_point_config("measurement1", "test/#", vec![("value", "$.payload")], vec![]);
    let config2 = make_point_config(
        "measurement2",
        "test/#",
        vec![("doubled", "= $.payload * 2")],
        vec![],
    );

    let point1 = process_message_to_point(&processor, &config1, "test/topic", b"10")
        .expect("the first binding should match");
    let point2 = process_message_to_point(&processor, &config2, "test/topic", b"10")
        .expect("the second binding should match");

    assert!(point1.to_line_protocol().starts_with("measurement1"));
    assert!(point1.to_line_protocol().contains("value=10"));

    assert!(point2.to_line_protocol().starts_with("measurement2"));
    assert!(point2.to_line_protocol().contains("doubled=20"));
}

#[test]
fn test_measurement_from_jsonpath() {
    let processor = MessageProcessor::new(None);
    let config = make_point_config(
        "$.payload.type",
        "test/#",
        vec![("value", "$.payload.value")],
        vec![],
    );

    let payload = br#"{"type": "sensor_reading", "value": 42}"#;
    let point = process_message_to_point(&processor, &config, "test/dynamic", payload)
        .expect("should produce a point with a dynamic measurement");

    let line = point.to_line_protocol();
    assert!(line.starts_with("sensor_reading"));
}

#[test]
fn test_measurement_from_topic() {
    let processor = MessageProcessor::new(None);
    let config = make_point_config(
        "$.topic[1]",
        "metrics/+/data",
        vec![("value", "$.payload")],
        vec![],
    );

    let point = process_message_to_point(&processor, &config, "metrics/cpu_usage/data", b"75.5")
        .expect("should produce a point");

    let line = point.to_line_protocol();
    assert!(line.starts_with("cpu_usage"));
}

#[test]
fn test_deeply_nested_json() {
    let processor = MessageProcessor::new(None);
    let config = make_point_config(
        "nested",
        "test/#",
        vec![("deep_value", "$.payload.level1.level2.level3.value")],
        vec![],
    );

    let payload = br#"{"level1": {"level2": {"level3": {"value": 42}}}}"#;
    let point = process_message_to_point(&processor, &config, "test/nested", payload)
        .expect("should extract a deeply nested value");

    let line = point.to_line_protocol();
    assert!(line.contains("deep_value=42"));
}

#[test]
fn test_bracket_notation_for_special_chars() {
    let processor = MessageProcessor::new(None);
    let config = make_point_config(
        "air_quality",
        "test/#",
        vec![
            ("pm25", "$.payload.air_quality_sensor['pm2.5']"),
            ("pm10", "$.payload.air_quality_sensor['PM10']"),
        ],
        vec![],
    );

    let payload = br#"{"air_quality_sensor": {"pm2.5": 5, "PM10": 12}}"#;
    let point = process_message_to_point(&processor, &config, "test/sensor", payload)
        .expect("should handle bracket notation");

    let line = point.to_line_protocol();
    assert!(line.contains("pm25=5"));
    assert!(line.contains("pm10=12"));
}

#[test]
fn test_bracket_quoted_key_int_token() {
    let processor = MessageProcessor::new(None);
    let config = make_point_config(
        "air",
        "test/#",
        vec![("pm25", "$.payload.air['pm2.5']")],
        vec![],
    );

    let payload = br#"{"air":{"pm2.5":5}}"#;
    let point = process_message_to_point(&processor, &config, "test/sensor", payload)
        .expect("should produce a point");

    assert!(point.to_line_protocol().contains("pm25=5i"));
}

#[test]
fn test_qos_preserved() {
    let processor = MessageProcessor::new(None);

    for qos in 0..=2 {
        let parsed = processor.parse_message("test/topic", b"payload", qos).unwrap();
        assert_eq!(parsed.qos, qos);
    }
}

#[test]
fn test_schedule_filtering() {
    let processor = MessageProcessor::new(None);

    let mut config = make_point_config("scheduled", "test/#", vec![("value", "$.payload")], vec![]);
    config.schedule = Some("* * * * * *".to_string());

    assert!(processor.schedule_matches("* * * * * *"));

    assert!(!processor.schedule_matches("invalid"));
}

#[test]
fn test_schedule_gates_dispatch() {
    let processor = MessageProcessor::new(None);

    let mut config = make_point_config("scheduled", "test/#", vec![("value", "$.payload")], vec![]);
    config.schedule = Some("0 30 14 * * *".to_string());

    let parsed = processor.parse_message("test/topic", b"5", 0).unwrap();

    let in_window = chrono::Utc
        .with_ymd_and_hms(2025, 6, 1, 14, 30, 15)
        .single()
        .unwrap()
        .timestamp();
    let action = plan_point(&processor, &config, "test/topic", &parsed, in_window, 0, false);
    assert!(action.is_some());

    let out_of_window = chrono::Utc
        .with_ymd_and_hms(2025, 6, 1, 14, 31, 0)
        .single()
        .unwrap()
        .timestamp();
    let action = plan_point(&processor, &config, "test/topic", &parsed, out_of_window, 0, false);
    assert!(action.is_none());
}

#[test]
fn test_line_protocol_escaping() {
    let processor = MessageProcessor::new(None);
    let config = make_point_config(
        "test measurement",
        "test/#",
        vec![("value", "$.payload")],
        vec![("tag with space", "$.topic[0]")],
    );

    let point = process_message_to_point(&processor, &config, "test", b"42")
        .expect("should produce a point");

    let line = point.to_line_protocol();
    assert!(line.contains(r"test\ measurement"));
}

#[test]
fn test_string_field_quoting() {
    let processor = MessageProcessor::new(None);
    let config = make_point_config("test", "test/#", vec![("status", "$.payload")], vec![]);

    let point = process_message_to_point(&processor, &config, "test/status", b"\"active\"")
        .expect("should produce a point");

    let line = point.to_line_protocol();
    assert!(line.contains("status="));
}
