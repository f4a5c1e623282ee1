//! Tests for the expression sub-language: path-to-variable naming, the
//! rewriting pass, and evaluation.

use sinqtt::{evaluate_expression, extract_variables, jsonpath_to_variable, parse_expression,
    variable_to_jsonpath};

fn eval(expr: &str, vars: &Vec<(String, String)>) -> f64 {
    evaluate_expression(expr, vars).unwrap().parse().unwrap()
}

fn var(name: &str, value: f64) -> (String, String) {
    (name.to_string(), format!("{}", value))
}

#[test]
fn test_jsonpath_to_variable_simple() {
    assert_eq!(jsonpath_to_variable("$.payload"), "JSON__payload");
}

#[test]
fn test_jsonpath_to_variable_nested() {
    assert_eq!(
        jsonpath_to_variable("$.payload.temperature"),
        "JSON__payload_temperature"
    );
}

#[test]
fn test_jsonpath_to_variable_topic_index() {
    assert_eq!(jsonpath_to_variable("$.topic[1]"), "JSON__topic[1]");
}

#[test]
fn test_jsonpath_to_variable_deeply_nested() {
    assert_eq!(
        jsonpath_to_variable("$.payload.data.sensor.value"),
        "JSON__payload_data_sensor_value"
    );
}

#[test]
fn test_variable_to_jsonpath_simple() {
    assert_eq!(variable_to_jsonpath("JSON__payload"), "$.payload");
}

#[test]
fn test_variable_to_jsonpath_nested() {
    assert_eq!(
        variable_to_jsonpath("JSON__payload_temperature"),
        "$.payload.temperature"
    );
}

#[test]
fn test_parse_expression_simple() {
    let (expr, paths) = parse_expression("32 + ($.payload * 9 / 5)");
    assert_eq!(expr, "32 + (JSON__payload * 9 / 5)");
    assert_eq!(paths, vec!["$.payload"]);
}

#[test]
fn test_parse_expression_multiple_vars() {
    let (expr, paths) = parse_expression("$.payload + $.payload.offset");
    assert_eq!(expr, "JSON__payload + JSON__payload_offset");
    assert_eq!(paths.len(), 2);
    assert!(paths.contains(&"$.payload".to_string()));
    assert!(paths.contains(&"$.payload.offset".to_string()));
}

#[test]
fn test_parse_expression_power() {
    let (expr, _) = parse_expression("2 ^ 3");
    assert_eq!(expr, "math::pow(2, 3)");
}

#[test]
fn test_extract_variables() {
    let vars = extract_variables("$.payload + $.payload.offset");
    assert!(vars.contains(&"JSON__payload".to_string()));
    assert!(vars.contains(&"JSON__payload_offset".to_string()));
}

#[test]
fn test_simple_addition() {
    let vars = Vec::new();
    let result = eval("= 1 + 2", &vars);
    assert!((result - 3.0).abs() < f64::EPSILON);
}

#[test]
fn test_expression_without_equals() {
    let vars = Vec::new();
    let result = eval("1 + 2", &vars);
    assert!((result - 3.0).abs() < f64::EPSILON);
}

#[test]
fn test_multiplication() {
    let vars = Vec::new();
    let result = eval("= 5 * 3", &vars);
    assert!((result - 15.0).abs() < f64::EPSILON);
}

#[test]
fn test_division() {
    let vars = Vec::new();
    let result = eval("= 10 / 2", &vars);
    assert!((result - 5.0).abs() < f64::EPSILON);
}

#[test]
fn test_complex_expression() {
    let vars = Vec::new();
    let result = eval("= (2 + 3) * 4", &vars);
    assert!((result - 20.0).abs() < f64::EPSILON);
}

#[test]
fn test_expression_with_variable() {
    let vars = vec![var("JSON__payload", 100.0)];
    let result = eval("= $.payload * 2", &vars);
    assert!((result - 200.0).abs() < f64::EPSILON);
}

#[test]
fn test_expression_with_nested_variable() {
    let vars = vec![var("JSON__payload_value", 50.0)];
    let result = eval("= $.payload.value + 100", &vars);
    assert!((result - 150.0).abs() < f64::EPSILON);
}

#[test]
fn evaluator_test_celsius_to_fahrenheit_0c() {
    let vars = vec![var("JSON__payload", 0.0)];
    let result = eval("= 32 + ($.payload * 9 / 5)", &vars);
    assert!((result - 32.0).abs() < f64::EPSILON);
}

#[test]
fn evaluator_test_celsius_to_fahrenheit_100c() {
    let vars = vec![var("JSON__payload", 100.0)];
    let result = eval("= 32 + ($.payload * 9 / 5)", &vars);
    assert!((result - 212.0).abs() < f64::EPSILON);
}

#[test]
fn test_celsius_to_fahrenheit_37c() {
    let vars = vec![var("JSON__payload", 37.0)];
    let result = eval("= 32 + ($.payload * 9 / 5)", &vars);
    assert!((result - 98.6).abs() < 0.01);
}

#[test]
fn test_negative_numbers() {
    let vars = Vec::new();
    let result = eval("= -5 + 10", &vars);
    assert!((result - 5.0).abs() < f64::EPSILON);
}

#[test]
fn test_decimal_variable_values() {
    let vars = vec![var("JSON__payload", 1.5)];
    let result = eval("= JSON__payload * 2", &vars);
    assert!((result - 3.0).abs() < f64::EPSILON);
}

#[test]
fn test_power_operation() {
    let vars = Vec::new();
    let result = eval("= 2 ^ 3", &vars);
    assert!((result - 8.0).abs() < f64::EPSILON);
}

#[test]
fn test_power_nested_expression() {
    let vars = Vec::new();
    let result = eval("= (2 + 1) ^ 2", &vars);
    assert!((result - 9.0).abs() < f64::EPSILON);
}

#[test]
fn test_modulo_operation() {
    let vars = Vec::new();
    let result = eval("= 10 % 3", &vars);
    assert!((result - 1.0).abs() < f64::EPSILON);
}

#[test]
fn test_whitespace_handling() {
    let vars = Vec::new();
    let result = eval("=   1   +   2   ", &vars);
    assert!((result - 3.0).abs() < f64::EPSILON);
}

#[test]
fn test_invalid_expression() {
    let vars = Vec::new();
    let result = evaluate_expression("= invalid (( syntax", &vars);
    assert!(result.is_err());
}

#[test]
fn test_unbalanced_parentheses() {
    let vars = Vec::new();
    let result = evaluate_expression("= (1 + 2", &vars);
    assert!(result.is_err());
}
