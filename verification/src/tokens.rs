use vstd::prelude::*;

verus! {

/// The kinds of lexical tokens of Lox.
#[allow(non_camel_case_types)]
#[derive(Debug, PartialEq, Eq, Structural, Copy, Clone)]
pub enum TokenType {
    // Single-character tokens
    LEFT_PAREN,
    RIGHT_PAREN,
    LEFT_BRACE,
    RIGHT_BRACE,
    COMMA,
    DOT,
    MINUS,
    PLUS,
    SEMICOLON,
    SLASH,
    STAR,
    // One or two character tokens
    BANG,
    BANG_EQUAL,
    EQUAL,
    EQUAL_EQUAL,
    GREATER,
    GREATER_EQUAL,
    LESS,
    LESS_EQUAL,
    // Literals
    IDENTIFIER,
    STRING,
    NUMBER,
    // Keywords
    AND,
    CLASS,
    ELSE,
    FALSE,
    FUN,
    FOR,
    IF,
    NIL,
    OR,
    PRINT,
    RETURN,
    SUPER,
    THIS,
    TRUE,
    VAR,
    WHILE,
    EOF,
}

/// A literal value as it appears in the source text.  A number literal keeps
/// its digits: the text is the number.
#[derive(Debug, PartialEq)]
pub enum Object {
    String(String),
    Number(String),
    False,
    True,
    Nil,
}

/// The mathematical model of a literal.
pub enum SpecObject {
    String(Seq<char>),
    Number(Seq<char>),
    False,
    True,
    Nil,
}

impl View for Object {
    type V = SpecObject;

    open spec fn view(&self) -> SpecObject {
        match self {
            Object::String(s) => SpecObject::String(s@),
            Object::Number(s) => SpecObject::Number(s@),
            Object::False => SpecObject::False,
            Object::True => SpecObject::True,
            Object::Nil => SpecObject::Nil,
        }
    }
}

impl Clone for Object {
    fn clone(&self) -> (res: Self)
        ensures
            res == *self,
    {
        match self {
            Object::String(s) => Object::String(s.clone()),
            Object::Number(s) => Object::Number(s.clone()),
            Object::False => Object::False,
            Object::True => Object::True,
            Object::Nil => Object::Nil,
        }
    }
}

/// A token: its kind, the source text it was read from, its literal value
/// (for strings and numbers) and the line it ends on.
#[derive(Debug, PartialEq)]
pub struct Token {
    pub token_type: TokenType,
    pub lexeme: String,
    pub literal: Option<Object>,
    pub line: usize,
}

/// The mathematical model of a token.
pub struct SpecToken {
    pub token_type: TokenType,
    pub lexeme: Seq<char>,
    pub literal: Option<SpecObject>,
    pub line: nat,
}

impl View for Token {
    type V = SpecToken;

    open spec fn view(&self) -> SpecToken {
        SpecToken {
            token_type: self.token_type,
            lexeme: self.lexeme@,
            literal: match self.literal {
                Some(o) => Some(o@),
                None => None,
            },
            line: self.line as nat,
        }
    }
}

impl Clone for Token {
    fn clone(&self) -> (res: Self)
        ensures
            res == *self,
    {
        let literal = match &self.literal {
            Some(o) => Some(o.clone()),
            None => None,
        };
        Token { token_type: self.token_type, lexeme: self.lexeme.clone(), literal, line: self.line }
    }
}

impl Token {
    pub fn new(token_type: TokenType, lexeme: String, literal: Option<Object>, line: usize) -> (t:
        Self)
        ensures
            t.token_type == token_type,
            t.lexeme == lexeme,
            t.literal == literal,
            t.line == line,
    {
        Token { token_type, lexeme, literal, line }
    }
}

/// The models of a sequence of tokens.
pub open spec fn tokens_view(ts: Seq<Token>) -> Seq<SpecToken> {
    ts.map_values(|t: Token| t@)
}

} // verus!
