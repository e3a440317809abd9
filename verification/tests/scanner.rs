use rlox::tokens::{Object, TokenType};
use rlox::{LoxError, Scanner};

fn kinds(src: &str) -> Vec<TokenType> {
    let mut s = Scanner::new(src.to_string());
    let toks = s.scan_tokens().unwrap();
    toks.iter().map(|t| t.token_type).collect()
}

#[test]
fn scan_var_declaration() {
    assert_eq!(
        kinds("var x = 1;"),
        vec![
            TokenType::VAR,
            TokenType::IDENTIFIER,
            TokenType::EQUAL,
            TokenType::NUMBER,
            TokenType::SEMICOLON,
            TokenType::EOF
        ]
    );
}

#[test]
fn scan_operators_one_and_two_chars() {
    assert_eq!(
        kinds("! != = == < <= > >= / ( ) { } , . - + * ;"),
        vec![
            TokenType::BANG,
            TokenType::BANG_EQUAL,
            TokenType::EQUAL,
            TokenType::EQUAL_EQUAL,
            TokenType::LESS,
            TokenType::LESS_EQUAL,
            TokenType::GREATER,
            TokenType::GREATER_EQUAL,
            TokenType::SLASH,
            TokenType::LEFT_PAREN,
            TokenType::RIGHT_PAREN,
            TokenType::LEFT_BRACE,
            TokenType::RIGHT_BRACE,
            TokenType::COMMA,
            TokenType::DOT,
            TokenType::MINUS,
            TokenType::PLUS,
            TokenType::STAR,
            TokenType::SEMICOLON,
            TokenType::EOF
        ]
    );
}

#[test]
fn scan_keywords_and_identifiers() {
    assert_eq!(
        kinds("and class else false for fun if nil or print return super this true var while whilex _a1"),
        vec![
            TokenType::AND,
            TokenType::CLASS,
            TokenType::ELSE,
            TokenType::FALSE,
            TokenType::FOR,
            TokenType::FUN,
            TokenType::IF,
            TokenType::NIL,
            TokenType::OR,
            TokenType::PRINT,
            TokenType::RETURN,
            TokenType::SUPER,
            TokenType::THIS,
            TokenType::TRUE,
            TokenType::VAR,
            TokenType::WHILE,
            TokenType::IDENTIFIER,
            TokenType::IDENTIFIER,
            TokenType::EOF
        ]
    );
}

#[test]
fn scan_number_literal_keeps_its_text() {
    let mut s = Scanner::new("12.5 7.".to_string());
    let toks = s.scan_tokens().unwrap().clone();
    assert_eq!(toks[0].token_type, TokenType::NUMBER);
    assert_eq!(toks[0].lexeme, "12.5");
    assert_eq!(toks[0].literal, Some(Object::Number("12.5".to_string())));
    assert_eq!(toks[1].token_type, TokenType::NUMBER);
    assert_eq!(toks[1].lexeme, "7");
    assert_eq!(toks[2].token_type, TokenType::DOT);
    assert_eq!(toks[3].token_type, TokenType::EOF);
}

#[test]
fn scan_string_literal_and_lines() {
    let mut s = Scanner::new("\"a\nb\" x".to_string());
    let toks = s.scan_tokens().unwrap().clone();
    assert_eq!(toks[0].token_type, TokenType::STRING);
    assert_eq!(toks[0].lexeme, "\"a\nb\"");
    assert_eq!(toks[0].literal, Some(Object::String("a\nb".to_string())));
    assert_eq!(toks[0].line, 1);
    assert_eq!(toks[1].line, 1);
    assert_eq!(toks[2].token_type, TokenType::EOF);
}

#[test]
fn scan_comment_and_newlines() {
    let mut s = Scanner::new("// note\nprint 1; // more\n".to_string());
    let toks = s.scan_tokens().unwrap().clone();
    let k: Vec<TokenType> = toks.iter().map(|t| t.token_type).collect();
    assert_eq!(
        k,
        vec![TokenType::PRINT, TokenType::NUMBER, TokenType::SEMICOLON, TokenType::EOF]
    );
    assert_eq!(toks[0].line, 1);
    assert_eq!(toks[3].line, 2);
}

#[test]
fn scan_unexpected_character() {
    let mut s = Scanner::new("var a = @;".to_string());
    match s.scan_tokens() {
        Err(LoxError::Error(m)) => assert_eq!(m, "Unexpected character '@' in line 0 !"),
        other => panic!("unexpected {:?}", other),
    }
}

#[test]
fn scan_unterminated_string() {
    let mut s = Scanner::new("\"abc\n".to_string());
    match s.scan_tokens() {
        Err(LoxError::Error(m)) => assert_eq!(m, "Unterminated string at line 1!"),
        other => panic!("unexpected {:?}", other),
    }
}

#[test]
fn scan_empty_source_is_just_eof() {
    assert_eq!(kinds(""), vec![TokenType::EOF]);
}

#[test]
fn scan_get_tokens_copies_them() {
    let mut s = Scanner::new("x".to_string());
    s.scan_tokens().unwrap();
    let toks = s.get_tokens();
    assert_eq!(toks.len(), 2);
    assert_eq!(toks[0].lexeme, "x");
}
