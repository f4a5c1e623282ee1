//! Tests for points and the line-protocol encoder.

use std::io::Read;

use sinqtt::{FieldValue, JsonValue, Point};

fn fv_float(text: &str) -> FieldValue {
    FieldValue::Float(text.to_string())
}

#[test]
fn test_line_protocol_simple() {
    let point = Point::new("temperature").field("value", fv_float("23.5"));

    assert_eq!(point.to_line_protocol(), "temperature value=23.5");
}

#[test]
fn test_line_protocol_integer_float() {
    let point = Point::new("count").field("value", fv_float("100"));

    assert_eq!(point.to_line_protocol(), "count value=100.0");
}

#[test]
fn test_line_protocol_with_tags() {
    let point = Point::new("temperature")
        .tag("location", "room1")
        .field("value", fv_float("23.5"));

    assert_eq!(
        point.to_line_protocol(),
        "temperature,location=room1 value=23.5"
    );
}

#[test]
fn test_line_protocol_multiple_tags() {
    let point = Point::new("temperature")
        .tag("location", "room1")
        .tag("sensor", "dht22")
        .field("value", fv_float("23.5"));

    assert_eq!(
        point.to_line_protocol(),
        "temperature,location=room1,sensor=dht22 value=23.5"
    );
}

#[test]
fn test_line_protocol_tags_sorted() {
    let point = Point::new("temperature")
        .tag("sensor", "dht22")
        .tag("location", "room1")
        .field("value", fv_float("23.5"));

    assert_eq!(
        point.to_line_protocol(),
        "temperature,location=room1,sensor=dht22 value=23.5"
    );
}

#[test]
fn test_line_protocol_with_timestamp() {
    let point = Point::new("temperature")
        .field("value", fv_float("23.5"))
        .timestamp(1609459200000000000);

    assert_eq!(
        point.to_line_protocol(),
        "temperature value=23.5 1609459200000000000"
    );
}

#[test]
fn test_line_protocol_integer_field() {
    let point = Point::new("count").field("value", FieldValue::Int(42));

    assert_eq!(point.to_line_protocol(), "count value=42i");
}

#[test]
fn test_line_protocol_unsigned_field() {
    let point = Point::new("count").field("value", FieldValue::UInt(42));

    assert_eq!(point.to_line_protocol(), "count value=42u");
}

#[test]
fn test_line_protocol_string_field() {
    let point = Point::new("event").field("message", FieldValue::Str("hello world".into()));

    assert_eq!(point.to_line_protocol(), r#"event message="hello world""#);
}

#[test]
fn test_line_protocol_bool_field() {
    let point = Point::new("status")
        .field("active", FieldValue::Bool(true))
        .field("error", FieldValue::Bool(false));

    assert_eq!(point.to_line_protocol(), "status active=true,error=false");
}

#[test]
fn test_line_protocol_multiple_fields() {
    let point = Point::new("weather")
        .field("humidity", fv_float("65.2"))
        .field("temperature", fv_float("23.5"));

    assert_eq!(
        point.to_line_protocol(),
        "weather humidity=65.2,temperature=23.5"
    );
}

#[test]
fn test_line_protocol_fields_sorted() {
    let point = Point::new("weather")
        .field("temperature", fv_float("23.5"))
        .field("humidity", fv_float("65.2"));

    assert_eq!(
        point.to_line_protocol(),
        "weather humidity=65.2,temperature=23.5"
    );
}

#[test]
fn test_line_protocol_escape_measurement() {
    let point = Point::new("my measurement").field("value", FieldValue::Int(1));

    assert_eq!(point.to_line_protocol(), r"my\ measurement value=1i");
}

#[test]
fn test_line_protocol_escape_tag_key() {
    let point = Point::new("test")
        .tag("my tag", "value")
        .field("value", FieldValue::Int(1));

    assert_eq!(point.to_line_protocol(), r"test,my\ tag=value value=1i");
}

#[test]
fn test_line_protocol_escape_tag_value() {
    let point = Point::new("test")
        .tag("location", "room 1")
        .field("value", FieldValue::Int(1));

    assert_eq!(point.to_line_protocol(), r"test,location=room\ 1 value=1i");
}

#[test]
fn test_line_protocol_escape_string_value() {
    let point = Point::new("event").field("message", FieldValue::Str(r#"say "hello""#.into()));

    assert_eq!(point.to_line_protocol(), r#"event message="say \"hello\"""#);
}

#[test]
fn test_line_protocol_escape_backslash() {
    let point = Point::new("event").field("path", FieldValue::Str(r"C:\Users\test".into()));

    assert_eq!(point.to_line_protocol(), r#"event path="C:\\Users\\test""#);
}

#[test]
fn test_line_protocol_empty_tag_skipped() {
    let point = Point::new("test")
        .tag("filled", "value")
        .tag("empty", "")
        .field("value", FieldValue::Int(1));

    assert_eq!(point.to_line_protocol(), "test,filled=value value=1i");
}

#[test]
fn test_line_protocol_full_example() {
    let point = Point::new("sensor_data")
        .tag("device", "sensor01")
        .tag("location", "room1")
        .field("humidity", fv_float("65.0"))
        .field("temperature", fv_float("23.5"))
        .timestamp(1609459200000000000);

    assert_eq!(
        point.to_line_protocol(),
        "sensor_data,device=sensor01,location=room1 humidity=65.0,temperature=23.5 1609459200000000000"
    );
}

#[test]
fn test_line_protocol_negative_float_whole() {
    let point = Point::new("depth").field("value", fv_float("-12"));

    assert_eq!(point.to_line_protocol(), "depth value=-12.0");
}

#[test]
fn test_field_value_from_json_int() {
    let json = JsonValue::Int(42);
    let field = FieldValue::from_json(&json).unwrap();
    assert_eq!(field, FieldValue::Int(42));
}

#[test]
fn test_field_value_from_json_float() {
    let json = JsonValue::Float("23.5".to_string());
    let field = FieldValue::from_json(&json).unwrap();
    assert_eq!(field, FieldValue::Float("23.5".to_string()));
}

#[test]
fn test_field_value_from_json_string() {
    let json = JsonValue::Str("hello".to_string());
    let field = FieldValue::from_json(&json).unwrap();
    assert_eq!(field, FieldValue::Str("hello".into()));
}

#[test]
fn test_field_value_from_json_bool() {
    let json = JsonValue::Bool(true);
    let field = FieldValue::from_json(&json).unwrap();
    assert_eq!(field, FieldValue::Bool(true));
}

#[test]
fn test_field_value_from_json_null_returns_none() {
    let json = JsonValue::Null;
    assert!(FieldValue::from_json(&json).is_none());
}

#[test]
fn test_field_value_from_json_object_returns_none() {
    let json = JsonValue::Object(vec![("key".to_string(), JsonValue::Str("value".to_string()))]);
    assert!(FieldValue::from_json(&json).is_none());
}

#[test]
fn test_point_has_fields() {
    let point = Point::new("test");
    assert!(!point.has_fields());

    let point = point.field("value", FieldValue::Int(1));
    assert!(point.has_fields());
}

#[test]
fn test_point_mutable_methods() {
    let mut point = Point::new("test");
    point.add_tag("location", "room1");
    point.add_field("value", FieldValue::Int(42));

    assert_eq!(point.to_line_protocol(), "test,location=room1 value=42i");
}

#[test]
fn test_field_from_json() {
    let point = Point::new("test")
        .field_from_json("temp", &JsonValue::Float("23.5".to_string()))
        .field_from_json("count", &JsonValue::Int(42));

    assert_eq!(point.to_line_protocol(), "test count=42i,temp=23.5");
}

#[test]
fn test_write_url_plain_host() {
    let url = sinqtt::influx::write_url("localhost", 8181, "org1", "bucket1");
    assert_eq!(
        url,
        "http://localhost:8181/api/v2/write?org=org1&bucket=bucket1&precision=ns"
    );
}

#[test]
fn test_write_url_keeps_scheme() {
    let url = sinqtt::influx::write_url("https://db.example.com", 443, "o", "b");
    assert_eq!(
        url,
        "https://db.example.com:443/api/v2/write?org=o&bucket=b&precision=ns"
    );
}

#[test]
fn test_join_line_protocol_empty() {
    let points: Vec<Point> = Vec::new();
    assert_eq!(sinqtt::influx::join_line_protocol(&points), "");
}

#[test]
fn test_join_line_protocol_two_points() {
    let points = vec![
        Point::new("a").field("x", FieldValue::Int(1)),
        Point::new("b").field("y", FieldValue::Int(2)),
    ];
    assert_eq!(sinqtt::influx::join_line_protocol(&points), "a x=1i\nb y=2i");
}

#[test]
fn test_prepare_write_body_plain() {
    let (bytes, gzipped) = sinqtt::influx::prepare_write_body("m value=1i", false);
    assert!(!gzipped);
    assert_eq!(bytes, b"m value=1i");
}

#[test]
fn test_prepare_write_body_gzip_roundtrip() {
    let (bytes, gzipped) = sinqtt::influx::prepare_write_body("m value=1i", true);
    assert!(gzipped);
    let mut decoder = flate2::read::GzDecoder::new(bytes.as_slice());
    let mut out = String::new();
    decoder.read_to_string(&mut out).unwrap();
    assert_eq!(out, "m value=1i");
}
