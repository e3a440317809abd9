pub mod lox_error;
pub use crate::lox_error::LoxError;

pub mod tokens;
pub use crate::tokens::Token;

pub mod text;

pub mod scanner;
pub use crate::scanner::Scanner;

pub mod expressions;
pub use crate::expressions::Expr;

pub mod statements;
pub use crate::statements::Statement;

pub mod grammar;

pub mod parser;
pub use crate::parser::Parser;

pub mod callable;
pub use crate::callable::Clock;

pub mod environment;
pub use crate::environment::Environment;

pub mod resolver;
pub use crate::resolver::Resolver;
pub mod resolution_shape;
pub mod parse_order;

pub mod pipeline;
pub use crate::pipeline::run;
