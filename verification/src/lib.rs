//! A parser for a small JavaScript-like language of call statements and `if`
//! blocks. It reads a program text and builds its syntax tree; nothing is
//! evaluated.

pub mod ast;
pub mod error;
pub mod grammar;
pub mod laws;
pub mod number;
pub mod parser;
pub mod text;

pub use ast::{
    JsBool, JsComparitor, JsIf, JsIfExpression, JsInvocation, JsNumber, JsPrimitive, JsStatement,
    JsString, Tree,
};
pub use error::{ErrorKind, ParseError};
pub use number::NumberScan;
pub use parser::{
    number_from_scan, parse_arguments, parse_comparitor, parse_false, parse_if,
    parse_if_expression, parse_invocation, parse_number, parse_primitive, parse_statement,
    parse_statements, parse_string, parse_true, primitive_from_scan,
};
