//! Error types of the library.

use vstd::prelude::*;

verus! {

/// Expression parsing and evaluation errors.
#[derive(Debug)]
pub enum ExpressionError {
    /// The expression could not be read.
    Parse(String),
    /// The expression could not be evaluated.
    Evaluation(String),
    /// A referenced variable was not bound.
    MissingVariable(String),
}

/// Configuration loading and validation errors.
#[derive(Debug)]
pub enum ConfigError {
    /// The configuration text could not be read.
    Parse(String),
    /// An environment variable reference had no value and no default.
    MissingEnvVar(String),
    /// A schedule is not a usable cron expression.
    InvalidCron(String),
    /// A measurement's path is not a usable JSONPath.
    InvalidJsonPath(String),
    /// A validation rule failed.
    Validation(String),
    /// A referenced file does not exist.
    FileNotFound(String),
    /// Reading the configuration failed.
    Io(String),
}

/// The top-level error of the bridge.
#[derive(Debug)]
pub enum SinqttError {
    Config(ConfigError),
    Mqtt(String),
    Connection(String),
    InfluxDb(String),
    Http(String),
    HttpForward(String),
    Expression(ExpressionError),
    Io(String),
}

impl ExpressionError {
    /// The carried message.
    pub fn message(&self) -> (r: &String)
        ensures
            (self is Parse ==> r@ == self->Parse_0@),
            (self is Evaluation ==> r@ == self->Evaluation_0@),
            (self is MissingVariable ==> r@ == self->MissingVariable_0@),
    {
        match self {
            ExpressionError::Parse(m) => m,
            ExpressionError::Evaluation(m) => m,
            ExpressionError::MissingVariable(m) => m,
        }
    }
}

} // verus!
