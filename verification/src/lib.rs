//! A bridge library that turns broker messages into time-series points.
//!
//! The library holds the transformation pipeline: topic-pattern matching,
//! JSONPath extraction over a composed message object, an arithmetic
//! expression sub-language, type coercion, base64 pre-decoding, a cron
//! minute-window gate, and a line-protocol encoder.

pub mod coerce;
pub mod config;
pub mod dispatch;
pub mod error;
pub mod expr;
pub mod exprpow;
pub mod exprscan;
pub mod http;
pub mod influx;
pub mod json;
pub mod jsonpath;
pub mod jsontext;
pub mod numfmt;
pub mod processor;
pub mod schedule;
pub mod strutil;
pub mod topic;

pub use config::{default_influxdb_port, validate_config, Base64DecodeConfig, Config, FieldConfig,
    FieldSpec, HttpConfig, InfluxDBConfig, MqttConfig, PointConfig};
pub use dispatch::{Args, MqttMessage, PointAction};
pub use error::{ConfigError, ExpressionError, SinqttError};
pub use expr::{evaluate_expression, extract_variables, jsonpath_to_variable, parse_expression,
    variable_to_jsonpath};
pub use http::{HttpAction, HttpContentBuilder};
pub use influx::{FieldValue, Point};
pub use json::JsonValue;
pub use processor::{Base64Decoded, MessageProcessor, ParsedMessage};
pub use topic::topic_matches;
