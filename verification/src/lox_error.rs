use vstd::prelude::*;

verus! {

/// The type `std::io::Error`, declared so that an error of the language can
/// carry one; nothing is claimed of its values, which are carried through
/// unread.
#[verifier::external_type_specification]
#[verifier::external_body]
pub struct ExIoError(std::io::Error);

/// The errors of the Lox front end and run time.
#[derive(Debug)]
pub enum LoxError {
    IoError(std::io::Error),
    Error(String),
    ParsingError(String),
    UndefinedVariable(String),
    TokenListEmpty,
    NotExpression,
}

/// The model of an error: its kind and its message.
pub enum SpecLoxError {
    IoError,
    Error(Seq<char>),
    ParsingError(Seq<char>),
    UndefinedVariable(Seq<char>),
    TokenListEmpty,
    NotExpression,
}

impl View for LoxError {
    type V = SpecLoxError;

    open spec fn view(&self) -> SpecLoxError {
        match self {
            LoxError::IoError(_) => SpecLoxError::IoError,
            LoxError::Error(s) => SpecLoxError::Error(s@),
            LoxError::ParsingError(s) => SpecLoxError::ParsingError(s@),
            LoxError::UndefinedVariable(s) => SpecLoxError::UndefinedVariable(s@),
            LoxError::TokenListEmpty => SpecLoxError::TokenListEmpty,
            LoxError::NotExpression => SpecLoxError::NotExpression,
        }
    }
}

impl From<std::io::Error> for LoxError {
    fn from(err: std::io::Error) -> (res: Self) {
        LoxError::IoError(err)
    }
}

impl vstd::std_specs::convert::FromSpecImpl<std::io::Error> for LoxError {
    open spec fn obeys_from_spec() -> bool {
        true
    }

    open spec fn from_spec(err: std::io::Error) -> Self {
        LoxError::IoError(err)
    }
}

/// How reading or resolving a program ends when it cannot end normally: with
/// an error of the language, or by stopping outright (the message says why).
#[derive(Debug)]
pub enum Halt {
    Error(LoxError),
    Panic(String),
}

} // verus!
