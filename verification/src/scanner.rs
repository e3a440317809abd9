use vstd::prelude::*;

use crate::lox_error::{LoxError, SpecLoxError};
use crate::text::{decimal, push_char, push_decimal, string_of};
use crate::tokens::{tokens_view, Object, SpecObject, SpecToken, Token, TokenType};

verus! {

// ---------------------------------------------------------------------------
// The lexical grammar, as spec functions over the characters of the source.
// ---------------------------------------------------------------------------
/// An ASCII decimal digit.
pub open spec fn is_digit_char(c: char) -> bool {
    '0' <= c <= '9'
}

/// A character that may occur in an identifier: an ASCII letter or digit, or `_`.
pub open spec fn is_alpha_char(c: char) -> bool {
    ||| 'a' <= c <= 'z'
    ||| 'A' <= c <= 'Z'
    ||| '0' <= c <= '9'
    ||| c == '_'
}

/// The first position at or after `i` that does not hold a digit.
pub open spec fn digits_end(src: Seq<char>, i: int) -> int
    decreases src.len() - i,
{
    if 0 <= i < src.len() && is_digit_char(src[i]) {
        digits_end(src, i + 1)
    } else {
        i
    }
}

/// The first position at or after `i` that does not hold an identifier character.
pub open spec fn alnum_end(src: Seq<char>, i: int) -> int
    decreases src.len() - i,
{
    if 0 <= i < src.len() && is_alpha_char(src[i]) {
        alnum_end(src, i + 1)
    } else {
        i
    }
}

/// The first position at or after `i` that holds `c`, or the end of the source.
pub open spec fn find_char(src: Seq<char>, i: int, c: char) -> int
    decreases src.len() - i,
{
    if 0 <= i < src.len() && src[i] != c {
        find_char(src, i + 1, c)
    } else {
        i
    }
}

/// The number of line breaks in `src[i..j]`.
pub open spec fn newlines(src: Seq<char>, i: int, j: int) -> nat
    decreases j - i,
{
    if j <= i {
        0
    } else {
        newlines(src, i, j - 1) + if src[j - 1] == '\n' {
            1nat
        } else {
            0nat
        }
    }
}

/// The kind of a word: a keyword's own kind, or an identifier.
pub open spec fn keyword_type(w: Seq<char>) -> TokenType {
    if w == seq!['a', 'n', 'd'] {
        TokenType::AND
    } else if w == seq!['c', 'l', 'a', 's', 's'] {
        TokenType::CLASS
    } else if w == seq!['e', 'l', 's', 'e'] {
        TokenType::ELSE
    } else if w == seq!['f', 'a', 'l', 's', 'e'] {
        TokenType::FALSE
    } else if w == seq!['f', 'o', 'r'] {
        TokenType::FOR
    } else if w == seq!['f', 'u', 'n'] {
        TokenType::FUN
    } else if w == seq!['i', 'f'] {
        TokenType::IF
    } else if w == seq!['n', 'i', 'l'] {
        TokenType::NIL
    } else if w == seq!['o', 'r'] {
        TokenType::OR
    } else if w == seq!['p', 'r', 'i', 'n', 't'] {
        TokenType::PRINT
    } else if w == seq!['r', 'e', 't', 'u', 'r', 'n'] {
        TokenType::RETURN
    } else if w == seq!['s', 'u', 'p', 'e', 'r'] {
        TokenType::SUPER
    } else if w == seq!['t', 'h', 'i', 's'] {
        TokenType::THIS
    } else if w == seq!['t', 'r', 'u', 'e'] {
        TokenType::TRUE
    } else if w == seq!['v', 'a', 'r'] {
        TokenType::VAR
    } else if w == seq!['w', 'h', 'i', 'l', 'e'] {
        TokenType::WHILE
    } else {
        TokenType::IDENTIFIER
    }
}

/// The message for a character that begins no token.
pub open spec fn unexpected_char_message(c: char, line: nat) -> Seq<char> {
    "Unexpected character '"@ + seq![c] + "' in line "@ + decimal(line) + " !"@
}

/// The message for a string literal that the source ends inside.
pub open spec fn unterminated_message(line: nat) -> Seq<char> {
    "Unterminated string at line "@ + decimal(line) + "!"@
}

/// The token of kind `tt` read from `src[start..end]`.
pub open spec fn token_at(
    tt: TokenType,
    src: Seq<char>,
    start: int,
    end: int,
    literal: Option<SpecObject>,
    line: nat,
) -> SpecToken {
    SpecToken { token_type: tt, lexeme: src.subrange(start, end), literal, line }
}

/// The end-of-file token on a line.
pub open spec fn eof_token(line: nat) -> SpecToken {
    SpecToken { token_type: TokenType::EOF, lexeme: Seq::empty(), literal: None, line }
}

/// What one step of the scanner does at a position.
pub enum ScanStep {
    /// Nothing is produced; scanning goes on at `next`, on line `line`.
    Skip { next: int, line: nat },
    /// A token is produced; scanning goes on at `next`, on line `line`.
    Emit { token: SpecToken, next: int, line: nat },
    /// Scanning stops with an error.
    Fail { error: SpecLoxError },
}

/// A one-character token.
pub open spec fn single(tt: TokenType, src: Seq<char>, start: int, line: nat) -> ScanStep {
    ScanStep::Emit { token: token_at(tt, src, start, start + 1, None, line), next: start + 1, line }
}

/// A token of one character, or of two when the next one is `second`.
pub open spec fn one_or_two(
    src: Seq<char>,
    start: int,
    line: nat,
    second: char,
    tt2: TokenType,
    tt1: TokenType,
) -> ScanStep {
    if start + 1 < src.len() && src[start + 1] == second {
        ScanStep::Emit {
            token: token_at(tt2, src, start, start + 2, None, line),
            next: start + 2,
            line,
        }
    } else {
        single(tt1, src, start, line)
    }
}

/// The end of a number literal that begins at `start`: its digits, then a
/// `.` and digits if a digit follows the `.`.
pub open spec fn number_end(src: Seq<char>, start: int) -> int {
    let e1 = digits_end(src, start + 1);
    if e1 + 1 < src.len() && src[e1] == '.' && is_digit_char(src[e1 + 1]) {
        digits_end(src, e1 + 1)
    } else {
        e1
    }
}

/// The step of the scanner at `start`, on line `line`.
pub open spec fn scan_step(src: Seq<char>, start: int, line: nat) -> ScanStep {
    let c = src[start];
    if c == '(' {
        single(TokenType::LEFT_PAREN, src, start, line)
    } else if c == ')' {
        single(TokenType::RIGHT_PAREN, src, start, line)
    } else if c == '{' {
        single(TokenType::LEFT_BRACE, src, start, line)
    } else if c == '}' {
        single(TokenType::RIGHT_BRACE, src, start, line)
    } else if c == ',' {
        single(TokenType::COMMA, src, start, line)
    } else if c == '.' {
        single(TokenType::DOT, src, start, line)
    } else if c == '-' {
        single(TokenType::MINUS, src, start, line)
    } else if c == '+' {
        single(TokenType::PLUS, src, start, line)
    } else if c == ';' {
        single(TokenType::SEMICOLON, src, start, line)
    } else if c == '*' {
        single(TokenType::STAR, src, start, line)
    } else if c == '!' {
        one_or_two(src, start, line, '=', TokenType::BANG_EQUAL, TokenType::BANG)
    } else if c == '=' {
        one_or_two(src, start, line, '=', TokenType::EQUAL_EQUAL, TokenType::EQUAL)
    } else if c == '<' {
        one_or_two(src, start, line, '=', TokenType::LESS_EQUAL, TokenType::LESS)
    } else if c == '>' {
        one_or_two(src, start, line, '=', TokenType::GREATER_EQUAL, TokenType::GREATER)
    } else if c == '/' {
        if start + 1 < src.len() && src[start + 1] == '/' {
            ScanStep::Skip { next: find_char(src, start + 2, '\n'), line }
        } else {
            single(TokenType::SLASH, src, start, line)
        }
    } else if c == ' ' || c == '\r' || c == '\t' {
        ScanStep::Skip { next: start + 1, line }
    } else if c == '\n' {
        ScanStep::Skip { next: start + 1, line: line + 1 }
    } else if c == '"' {
        let q = find_char(src, start + 1, '"');
        let l = line + newlines(src, start + 1, q);
        if q >= src.len() {
            ScanStep::Fail { error: SpecLoxError::Error(unterminated_message(l)) }
        } else {
            ScanStep::Emit {
                token: token_at(
                    TokenType::STRING,
                    src,
                    start,
                    q + 1,
                    Some(SpecObject::String(src.subrange(start + 1, q))),
                    l,
                ),
                next: q + 1,
                line: l,
            }
        }
    } else if is_digit_char(c) {
        let e = number_end(src, start);
        if e < src.len() && is_alpha_char(src[e]) {
            ScanStep::Fail { error: SpecLoxError::Error(unexpected_char_message(src[e], line)) }
        } else {
            ScanStep::Emit {
                token: token_at(
                    TokenType::NUMBER,
                    src,
                    start,
                    e,
                    Some(SpecObject::Number(src.subrange(start, e))),
                    line,
                ),
                next: e,
                line,
            }
        }
    } else if is_alpha_char(c) {
        let e = alnum_end(src, start + 1);
        ScanStep::Emit {
            token: token_at(keyword_type(src.subrange(start, e)), src, start, e, None, line),
            next: e,
            line,
        }
    } else {
        ScanStep::Fail { error: SpecLoxError::Error(unexpected_char_message(c, line)) }
    }
}

/// Scanning from position `pos` on line `line`: the tokens produced, and the
/// error that stopped scanning, if any.  Without an error the tokens end with
/// the end-of-file token.
pub open spec fn scan_from(src: Seq<char>, pos: int, line: nat) -> (Seq<SpecToken>, Option<
    SpecLoxError,
>)
    decreases src.len() - pos,
{
    if pos < 0 || pos >= src.len() {
        (seq![eof_token(line)], None)
    } else {
        match scan_step(src, pos, line) {
            ScanStep::Skip { next, line: l } => {
                if pos < next <= src.len() {
                    scan_from(src, next, l)
                } else {
                    (Seq::empty(), None)
                }
            },
            ScanStep::Emit { token, next, line: l } => {
                if pos < next <= src.len() {
                    let rest = scan_from(src, next, l);
                    (seq![token] + rest.0, rest.1)
                } else {
                    (Seq::empty(), None)
                }
            },
            ScanStep::Fail { error } => (Seq::empty(), Some(error)),
        }
    }
}

/// The tokens of a whole source text, and the error that stopped scanning, if any.
pub open spec fn scan(src: Seq<char>) -> (Seq<SpecToken>, Option<SpecLoxError>) {
    scan_from(src, 0, 0)
}

proof fn lemma_newlines_bound(src: Seq<char>, i: int, j: int)
    ensures
        i <= j ==> newlines(src, i, j) <= j - i,
    decreases j - i,
{
    if i < j {
        lemma_newlines_bound(src, i, j - 1);
    }
}

/// The end of the digits from `i` is between `i` and the end of the source.
proof fn lemma_digits_end_bounds(src: Seq<char>, i: int)
    requires
        0 <= i <= src.len(),
    ensures
        i <= digits_end(src, i) <= src.len(),
    decreases src.len() - i,
{
    if i < src.len() && is_digit_char(src[i]) {
        lemma_digits_end_bounds(src, i + 1);
    }
}

/// The end of the identifier characters from `i` is between `i` and the end
/// of the source.
proof fn lemma_alnum_end_bounds(src: Seq<char>, i: int)
    requires
        0 <= i <= src.len(),
    ensures
        i <= alnum_end(src, i) <= src.len(),
    decreases src.len() - i,
{
    if i < src.len() && is_alpha_char(src[i]) {
        lemma_alnum_end_bounds(src, i + 1);
    }
}

/// The next `c` from `i` is between `i` and the end of the source.
proof fn lemma_find_char_bounds(src: Seq<char>, i: int, c: char)
    requires
        0 <= i <= src.len(),
    ensures
        i <= find_char(src, i, c) <= src.len(),
    decreases src.len() - i,
{
    if i < src.len() && src[i] != c {
        lemma_find_char_bounds(src, i + 1, c);
    }
}

/// Each step of the scanner moves forward within the source, never back a
/// line; the token it produces is on the line it ends on, and is no
/// end-of-file token; and a token carries a literal exactly when it is a
/// number or a string, the number's text or the string's contents.
proof fn lemma_step(src: Seq<char>, start: int, line: nat)
    requires
        0 <= start < src.len(),
    ensures
        match scan_step(src, start, line) {
            ScanStep::Skip { next, line: l } => start < next <= src.len() && line <= l,
            ScanStep::Emit { token, next, line: l } => {
                &&& start < next <= src.len()
                &&& line <= l
                &&& token.line == l
                &&& token.token_type != TokenType::EOF
                &&& literal_fits(token)
            },
            ScanStep::Fail { .. } => true,
        },
{
    lemma_find_char_bounds(src, start + 1, '"');
    if start + 2 <= src.len() {
        lemma_find_char_bounds(src, start + 2, '\n');
    }
    lemma_digits_end_bounds(src, start + 1);
    let e1 = digits_end(src, start + 1);
    if e1 + 1 < src.len() {
        lemma_digits_end_bounds(src, e1 + 1);
    }
    lemma_alnum_end_bounds(src, start + 1);
    let q = find_char(src, start + 1, '"');
    if q < src.len() {
        assert(src.subrange(start, q + 1).subrange(1, q + 1 - start - 1) =~= src.subrange(
            start + 1,
            q,
        ));
    }
}

/// A non-empty run of digits.
pub open spec fn all_digits(w: Seq<char>) -> bool {
    &&& w.len() > 0
    &&& forall|i: int| 0 <= i < w.len() ==> is_digit_char(#[trigger] w[i])
}

/// The text of a number: digits, or digits, a `.` and digits.
pub open spec fn number_text(w: Seq<char>) -> bool {
    ||| all_digits(w)
    ||| exists|k: int|
        0 < k < w.len() - 1 && #[trigger] w[k] == '.' && all_digits(w.subrange(0, k))
            && all_digits(w.subrange(k + 1, w.len() as int))
}

/// The number that begins at `start` ends at `e`: `src[start..e]` is the
/// text of a number, and no digit, nor (after digits alone) a `.` and a
/// digit, follows it.
pub open spec fn number_ends_at(src: Seq<char>, start: int, e: int) -> bool {
    &&& 0 <= start < e <= src.len()
    &&& number_text(src.subrange(start, e))
    &&& (e == src.len() || !is_digit_char(src[e]))
    &&& all_digits(src.subrange(start, e)) ==> !(e + 1 < src.len() && src[e] == '.'
        && is_digit_char(src[e + 1]))
}

proof fn lemma_digits_end_digits(src: Seq<char>, i: int)
    requires
        0 <= i <= src.len(),
    ensures
        forall|j: int| i <= j < digits_end(src, i) ==> is_digit_char(#[trigger] src[j]),
        digits_end(src, i) == src.len() || !is_digit_char(src[digits_end(src, i)]),
        i <= digits_end(src, i) <= src.len(),
    decreases src.len() - i,
{
    if i < src.len() && is_digit_char(src[i]) {
        lemma_digits_end_digits(src, i + 1);
    }
}

/// Where a digit begins a number, the scanner reads the whole number: the
/// token is a number whose text runs up to the end of the number, with that
/// text as its literal; or, when a letter follows the number, scanning stops
/// on that letter.
pub proof fn law_scan_number(src: Seq<char>, start: int, line: nat)
    requires
        0 <= start < src.len(),
        is_digit_char(src[start]),
    ensures
        exists|e: int|
            #[trigger] number_ends_at(src, start, e) && if e < src.len() && is_alpha_char(src[e]) {
                scan_step(src, start, line) == ScanStep::Fail {
                    error: SpecLoxError::Error(unexpected_char_message(src[e], line)),
                }
            } else {
                scan_step(src, start, line) == ScanStep::Emit {
                    token: SpecToken {
                        token_type: TokenType::NUMBER,
                        lexeme: src.subrange(start, e),
                        literal: Some(SpecObject::Number(src.subrange(start, e))),
                        line,
                    },
                    next: e,
                    line,
                }
            },
{
    let e1 = digits_end(src, start + 1);
    lemma_digits_end_digits(src, start + 1);
    let e = number_end(src, start);
    if e1 + 1 < src.len() && src[e1] == '.' && is_digit_char(src[e1 + 1]) {
        lemma_digits_end_digits(src, e1 + 1);
        let w = src.subrange(start, e);
        let k = e1 - start;
        assert(w[k] == '.');
        assert(all_digits(w.subrange(0, k)));
        assert(all_digits(w.subrange(k + 1, w.len() as int)));
        assert(!is_digit_char(w[k]));
        assert(!all_digits(w));
    } else {
        let w = src.subrange(start, e);
        assert(all_digits(w));
    }
    assert(number_ends_at(src, start, e));
}

/// A token carries a literal exactly when it is a number or a string: the
/// number's text, or the string's contents between its quotes.
pub open spec fn literal_fits(t: SpecToken) -> bool {
    if t.token_type == TokenType::NUMBER {
        t.literal == Some(SpecObject::Number(t.lexeme))
    } else if t.token_type == TokenType::STRING {
        t.literal == Some(SpecObject::String(t.lexeme.subrange(1, t.lexeme.len() - 1)))
    } else {
        t.literal is None
    }
}

/// A scan that no error stops ends with the end-of-file token, on the line
/// the scan ends on, and holds no other one.
pub proof fn law_scan_ends_with_eof(src: Seq<char>, pos: int, line: nat)
    requires
        0 <= pos,
    ensures
        ({
            let (ts, err) = scan_from(src, pos, line);
            err is None ==> {
                &&& ts.len() > 0
                &&& ts.last().token_type == TokenType::EOF
                &&& forall|i: int| 0 <= i < ts.len() - 1 ==> ts[i].token_type != TokenType::EOF
            }
        }),
    decreases src.len() - pos,
{
    if pos < src.len() {
        lemma_step(src, pos, line);
        match scan_step(src, pos, line) {
            ScanStep::Skip { next, line: l } => {
                law_scan_ends_with_eof(src, next, l);
            },
            ScanStep::Emit { token, next, line: l } => {
                law_scan_ends_with_eof(src, next, l);
                let rest = scan_from(src, next, l);
                if rest.1 is None {
                    let ts = seq![token] + rest.0;
                    assert forall|i: int| 0 <= i < ts.len() - 1 implies ts[i].token_type
                        != TokenType::EOF by {
                        if i > 0 {
                            assert(ts[i] == rest.0[i - 1]);
                        }
                    }
                }
            },
            ScanStep::Fail { .. } => {},
        }
    }
}

/// The tokens of a scan are in the order of their lines, none before the
/// line the scan starts on.
pub proof fn law_scan_lines_ordered(src: Seq<char>, pos: int, line: nat)
    requires
        0 <= pos,
    ensures
        ({
            let ts = scan_from(src, pos, line).0;
            &&& forall|i: int| 0 <= i < ts.len() ==> line <= #[trigger] ts[i].line
            &&& forall|i: int, j: int| 0 <= i <= j < ts.len() ==> ts[i].line <= ts[j].line
        }),
    decreases src.len() - pos,
{
    if pos < src.len() {
        lemma_step(src, pos, line);
        match scan_step(src, pos, line) {
            ScanStep::Skip { next, line: l } => {
                law_scan_lines_ordered(src, next, l);
            },
            ScanStep::Emit { token, next, line: l } => {
                law_scan_lines_ordered(src, next, l);
                let rest = scan_from(src, next, l).0;
                let ts = seq![token] + rest;
                assert forall|i: int| 0 <= i < ts.len() implies line <= #[trigger] ts[i].line by {
                    if i > 0 {
                        assert(ts[i] == rest[i - 1]);
                    }
                }
                assert forall|i: int, j: int| 0 <= i <= j < ts.len() implies ts[i].line
                    <= ts[j].line by {
                    if i > 0 {
                        assert(ts[i] == rest[i - 1]);
                    }
                    if j > 0 {
                        assert(ts[j] == rest[j - 1]);
                    }
                }
            },
            ScanStep::Fail { .. } => {},
        }
    }
}

/// Each token of a scan carries a literal exactly when it is a number or a
/// string: the number's text, or the string's contents between its quotes.
pub proof fn law_scan_literals(src: Seq<char>, pos: int, line: nat)
    requires
        0 <= pos,
    ensures
        ({
            let ts = scan_from(src, pos, line).0;
            forall|i: int| 0 <= i < ts.len() ==> literal_fits(#[trigger] ts[i])
        }),
    decreases src.len() - pos,
{
    if pos < src.len() {
        lemma_step(src, pos, line);
        match scan_step(src, pos, line) {
            ScanStep::Skip { next, line: l } => {
                law_scan_literals(src, next, l);
                assert(scan_from(src, pos, line).0 == scan_from(src, next, l).0);
            },
            ScanStep::Emit { token, next, line: l } => {
                law_scan_literals(src, next, l);
                let rest = scan_from(src, next, l).0;
                let ts = seq![token] + rest;
                assert forall|i: int| 0 <= i < ts.len() implies literal_fits(#[trigger] ts[i]) by {
                    if i > 0 {
                        assert(ts[i] == rest[i - 1]);
                    }
                }
                assert(scan_from(src, pos, line).0 == ts);
            },
            ScanStep::Fail { .. } => {},
        }
    } else {
        let ts = scan_from(src, pos, line).0;
        assert(ts =~= seq![eof_token(line)]);
        assert(literal_fits(ts[0]));
    }
}

// ---------------------------------------------------------------------------
// The scanner.
// ---------------------------------------------------------------------------
/// Turns the characters of a source text into tokens.
pub struct Scanner {
    source: Vec<char>,
    tokens: Vec<Token>,
    start: usize,
    current: usize,
    line: usize,
}

impl Scanner {
    /// The positions stay inside the source, and the line count never runs
    /// ahead of the characters read.
    pub closed spec fn wf(&self) -> bool {
        &&& self.start <= self.current <= self.source.len()
        &&& self.line <= self.current
    }

    /// The characters of the source.
    pub closed spec fn source_chars(&self) -> Seq<char> {
        self.source@
    }

    /// The tokens produced so far.
    pub closed spec fn spec_tokens(&self) -> Seq<SpecToken> {
        tokens_view(self.tokens@)
    }

    /// The position that scanning goes on from.
    pub closed spec fn position(&self) -> int {
        self.current as int
    }

    /// The line that scanning is on.
    pub closed spec fn current_line(&self) -> nat {
        self.line as nat
    }

    pub fn new(source: String) -> (s: Self)
        ensures
            s.wf(),
            s.source_chars() == source@,
            s.spec_tokens() == Seq::<SpecToken>::empty(),
            s.position() == 0,
            s.current_line() == 0,
    {
        let mut chars: Vec<char> = Vec::new();
        let ghost src = source@;
        broadcast use vstd::string::group_string_axioms;

        for c in it: source.as_str().chars()
            invariant
                chars@ == it.seq().take(it.index() as int),
                it.seq() == src,
        {
            chars.push(c);
        }
        assert(chars@ =~= src);
        Scanner { source: chars, tokens: Vec::new(), start: 0, current: 0, line: 0 }
    }

    fn is_at_end(&self) -> (r: bool)
        ensures
            r == (self.current >= self.source.len()),
    {
        self.current >= self.source.len()
    }

    /// Scans the rest of the source, appends its tokens and, when no error
    /// stops it, the end-of-file token.  Returns the tokens, or the error.
    pub fn scan_tokens(&mut self) -> (r: Result<&Vec<Token>, LoxError>)
        requires
            old(self).wf(),
        ensures
            final(self).wf(),
            final(self).source_chars() == old(self).source_chars(),
            ({
                let (ts, err) = scan_from(
                    old(self).source_chars(),
                    old(self).position(),
                    old(self).current_line(),
                );
                &&& final(self).spec_tokens() == old(self).spec_tokens() + ts
                &&& r is Ok <==> err is None
                &&& r matches Ok(v) ==> tokens_view(v@) == final(self).spec_tokens()
                &&& r matches Err(e) ==> err == Some(e@)
            }),
    {
        let ghost src = self.source@;
        let ghost total = scan_from(src, self.current as int, self.line as nat);
        let ghost initial = tokens_view(self.tokens@);
        while !self.is_at_end()
            invariant
                self.wf(),
                self.source@ == src,
                src == old(self).source@,
                total == scan_from(src, old(self).current as int, old(self).line as nat),
                initial == tokens_view(old(self).tokens@),
                tokens_view(self.tokens@) + scan_from(src, self.current as int, self.line as nat).0
                    == initial + total.0,
                scan_from(src, self.current as int, self.line as nat).1 == total.1,
            decreases src.len() - self.current,
        {
            self.start = self.current;
            let ghost before = tokens_view(self.tokens@);
            let ghost c0 = self.current as int;
            let ghost l0 = self.line as nat;
            let r = self.scan_token();
            match r {
                Ok(()) => {
                    assert(before + scan_from(src, c0, l0).0 =~= tokens_view(self.tokens@)
                        + scan_from(src, self.current as int, self.line as nat).0);
                },
                Err(e) => {
                    assert(tokens_view(self.tokens@) =~= initial + total.0);
                    return Err(e);
                },
            }
        }
        let eof = Token::new(TokenType::EOF, String::new(), None, self.line);
        self.tokens.push(eof);
        assert(tokens_view(self.tokens@) =~= initial + total.0);
        Ok(&self.tokens)
    }

    /// The tokens produced so far.
    pub fn get_tokens(&self) -> (ts: Vec<Token>)
        ensures
            tokens_view(ts@) == self.spec_tokens(),
    {
        self.tokens.clone()
    }

    /// Reads one token, or skips what produces none, starting at `current`.
    fn scan_token(&mut self) -> (r: Result<(), LoxError>)
        requires
            old(self).wf(),
            old(self).start == old(self).current < old(self).source.len(),
        ensures
            final(self).wf(),
            r is Ok ==> final(self).current > old(self).current,
            final(self).source@ == old(self).source@,
            match scan_step(old(self).source@, old(self).current as int, old(self).line as nat) {
                ScanStep::Skip { next, line } => {
                    &&& r is Ok
                    &&& final(self).current == next
                    &&& final(self).line == line
                    &&& final(self).tokens@ == old(self).tokens@
                },
                ScanStep::Emit { token, next, line } => {
                    &&& r is Ok
                    &&& final(self).current == next
                    &&& final(self).line == line
                    &&& tokens_view(final(self).tokens@) == tokens_view(old(self).tokens@).push(
                        token,
                    )
                },
                ScanStep::Fail { error } => {
                    &&& r matches Err(e) && e@ == error
                    &&& final(self).tokens@ == old(self).tokens@
                },
            },
    {
        let ghost src = self.source@;
        let ghost start = self.current as int;
        let c = self.advance();
        if c == '(' {
            self.add_token(TokenType::LEFT_PAREN);
        } else if c == ')' {
            self.add_token(TokenType::RIGHT_PAREN);
        } else if c == '{' {
            self.add_token(TokenType::LEFT_BRACE);
        } else if c == '}' {
            self.add_token(TokenType::RIGHT_BRACE);
        } else if c == ',' {
            self.add_token(TokenType::COMMA);
        } else if c == '.' {
            self.add_token(TokenType::DOT);
        } else if c == '-' {
            self.add_token(TokenType::MINUS);
        } else if c == '+' {
            self.add_token(TokenType::PLUS);
        } else if c == ';' {
            self.add_token(TokenType::SEMICOLON);
        } else if c == '*' {
            self.add_token(TokenType::STAR);
        } else if c == '!' {
            if self.verify('=') {
                self.add_token(TokenType::BANG_EQUAL);
            } else {
                self.add_token(TokenType::BANG);
            }
        } else if c == '=' {
            if self.verify('=') {
                self.add_token(TokenType::EQUAL_EQUAL);
            } else {
                self.add_token(TokenType::EQUAL);
            }
        } else if c == '<' {
            if self.verify('=') {
                self.add_token(TokenType::LESS_EQUAL);
            } else {
                self.add_token(TokenType::LESS);
            }
        } else if c == '>' {
            if self.verify('=') {
                self.add_token(TokenType::GREATER_EQUAL);
            } else {
                self.add_token(TokenType::GREATER);
            }
        } else if c == '/' {
            if self.verify('/') {
                while self.current < self.source.len() && self.source[self.current] != '\n'
                    invariant
                        self.wf(),
                        self.source@ == src,
                        self.tokens@ == old(self).tokens@,
                        self.line == old(self).line,
                        start + 2 <= self.current,
                        find_char(src, self.current as int, '\n') == find_char(
                            src,
                            start + 2,
                            '\n',
                        ),
                    decreases src.len() - self.current,
                {
                    self.advance();
                }
            } else {
                self.add_token(TokenType::SLASH);
            }
        } else if c == ' ' || c == '\r' || c == '\t' {
        } else if c == '\n' {
            self.line = self.line + 1;
        } else if c == '"' {
            return self.string();
        } else if is_digit(Some(c)) {
            return self.number();
        } else if Self::is_alpha(c) {
            return self.identifier();
        } else {
            return Err(LoxError::Error(unexpected_char(c, self.line)));
        }
        Ok(())
    }

    /// Reads a number literal whose first digit has been read.
    fn number(&mut self) -> (r: Result<(), LoxError>)
        requires
            old(self).wf(),
            old(self).start + 1 == old(self).current <= old(self).source.len(),
            is_digit_char(old(self).source@[old(self).start as int]),
        ensures
            final(self).wf(),
            r is Ok ==> final(self).current > old(self).start,
            final(self).source@ == old(self).source@,
            match scan_step(old(self).source@, old(self).start as int, old(self).line as nat) {
                ScanStep::Emit { token, next, line } => {
                    &&& r is Ok
                    &&& final(self).current == next
                    &&& final(self).line == line
                    &&& tokens_view(final(self).tokens@) == tokens_view(old(self).tokens@).push(
                        token,
                    )
                },
                ScanStep::Fail { error } => {
                    &&& r matches Err(e) && e@ == error
                    &&& final(self).tokens@ == old(self).tokens@
                },
                _ => false,
            },
    {
        let ghost src = self.source@;
        let ghost start = self.start as int;
        while is_digit(self.peek())
            invariant
                self.wf(),
                self.source@ == src,
                self.tokens@ == old(self).tokens@,
                self.line == old(self).line,
                self.start == start,
                start < self.current,
                digits_end(src, self.current as int) == digits_end(src, start + 1),
            decreases src.len() - self.current,
        {
            self.advance();
        }
        if let Some(c) = self.peek() {
            if c == '.' && is_digit(self.peek_next()) {
                self.advance();
                while is_digit(self.peek())
                    invariant
                        self.wf(),
                        self.source@ == src,
                        self.tokens@ == old(self).tokens@,
                        self.line == old(self).line,
                        self.start == start,
                        start < self.current,
                        digits_end(src, self.current as int) == number_end(src, start),
                    decreases src.len() - self.current,
                {
                    self.advance();
                }
            }
        }
        assert(self.current == number_end(src, start));
        if let Some(c) = self.peek() {
            if Self::is_alpha(c) {
                return Err(LoxError::Error(unexpected_char(c, self.line)));
            }
        }
        let n = string_of(&self.source, self.start, self.current);
        self.add_token_object(TokenType::NUMBER, Object::Number(n));
        Ok(())
    }

    /// Reads an identifier or a keyword whose first character has been read.
    fn identifier(&mut self) -> (r: Result<(), LoxError>)
        requires
            old(self).wf(),
            old(self).start + 1 == old(self).current <= old(self).source.len(),
            is_alpha_char(old(self).source@[old(self).start as int]),
            !is_digit_char(old(self).source@[old(self).start as int]),
        ensures
            final(self).wf(),
            r is Ok ==> final(self).current > old(self).start,
            final(self).source@ == old(self).source@,
            r is Ok,
            match scan_step(old(self).source@, old(self).start as int, old(self).line as nat) {
                ScanStep::Emit { token, next, line } => {
                    &&& final(self).current == next
                    &&& final(self).line == line
                    &&& tokens_view(final(self).tokens@) == tokens_view(old(self).tokens@).push(
                        token,
                    )
                },
                _ => false,
            },
    {
        let ghost src = self.source@;
        let ghost start = self.start as int;
        while Self::is_ascii_alphanumeric(self.peek())
            invariant
                self.wf(),
                self.source@ == src,
                self.tokens@ == old(self).tokens@,
                self.line == old(self).line,
                self.start == start,
                start < self.current,
                alnum_end(src, self.current as int) == alnum_end(src, start + 1),
            decreases src.len() - self.current,
        {
            self.advance();
        }
        let tt = keyword(&self.source, self.start, self.current);
        self.add_token(tt);
        Ok(())
    }

    /// Reads a string literal whose opening quote has been read.
    fn string(&mut self) -> (r: Result<(), LoxError>)
        requires
            old(self).wf(),
            old(self).start + 1 == old(self).current <= old(self).source.len(),
            old(self).source@[old(self).start as int] == '"',
            old(self).line <= old(self).start,
        ensures
            final(self).wf(),
            r is Ok ==> final(self).current > old(self).start,
            final(self).source@ == old(self).source@,
            match scan_step(old(self).source@, old(self).start as int, old(self).line as nat) {
                ScanStep::Emit { token, next, line } => {
                    &&& r is Ok
                    &&& final(self).current == next
                    &&& final(self).line == line
                    &&& tokens_view(final(self).tokens@) == tokens_view(old(self).tokens@).push(
                        token,
                    )
                },
                ScanStep::Fail { error } => {
                    &&& r matches Err(e) && e@ == error
                    &&& final(self).tokens@ == old(self).tokens@
                },
                _ => false,
            },
    {
        let ghost src = self.source@;
        let ghost start = self.start as int;
        let ghost line0 = self.line as nat;
        proof {
            lemma_newlines_bound(src, start + 1, start + 1);
        }
        while self.current < self.source.len() && self.source[self.current] != '"'
            invariant
                self.wf(),
                self.source@ == src,
                self.tokens@ == old(self).tokens@,
                self.start == start,
                start < self.current,
                line0 <= start,
                self.line == line0 + newlines(src, start + 1, self.current as int),
                find_char(src, self.current as int, '"') == find_char(src, start + 1, '"'),
            decreases src.len() - self.current,
        {
            let ch = self.source[self.current];
            proof {
                lemma_newlines_bound(src, start + 1, self.current as int);
            }
            if ch == '\n' {
                self.line = self.line + 1;
            }
            self.current = self.current + 1;
        }
        if self.is_at_end() {
            return Err(LoxError::Error(unterminated(self.line)));
        }
        self.advance();
        let val = string_of(&self.source, self.start + 1, self.current - 1);
        self.add_token_object(TokenType::STRING, Object::String(val));
        Ok(())
    }

    fn advance(&mut self) -> (c: char)
        requires
            old(self).wf(),
            old(self).current < old(self).source.len(),
        ensures
            final(self).wf(),
            c == old(self).source@[old(self).current as int],
            final(self).current == old(self).current + 1,
            final(self).source@ == old(self).source@,
            final(self).tokens == old(self).tokens,
            final(self).start == old(self).start,
            final(self).line == old(self).line,
    {
        let c = self.source[self.current];
        self.current = self.current + 1;
        c
    }

    /// Reads the next character when it is `c`.
    fn verify(&mut self, c: char) -> (r: bool)
        requires
            old(self).wf(),
        ensures
            final(self).wf(),
            r == (old(self).current < old(self).source.len() && old(self).source@[old(
                self,
            ).current as int] == c),
            final(self).current == old(self).current + if r {
                1int
            } else {
                0int
            },
            final(self).source@ == old(self).source@,
            final(self).tokens == old(self).tokens,
            final(self).start == old(self).start,
            final(self).line == old(self).line,
    {
        if self.current < self.source.len() {
            if self.source[self.current] == c {
                self.advance();
                return true;
            }
        }
        false
    }

    fn is_alpha(c: char) -> (r: bool)
        ensures
            r == is_alpha_char(c),
    {
        is_alpha_char_exec(c)
    }

    fn is_ascii_alphanumeric(c: Option<char>) -> (r: bool)
        ensures
            r == (c is Some && is_alpha_char(c->0)),
    {
        if let Some(c) = c {
            return Self::is_alpha(c) || is_digit(Some(c));
        }
        false
    }

    fn peek(&self) -> (r: Option<char>)
        ensures
            r == if self.current < self.source.len() {
                Some(self.source@[self.current as int])
            } else {
                None::<char>
            },
    {
        if self.current < self.source.len() {
            Some(self.source[self.current])
        } else {
            None
        }
    }

    fn peek_next(&self) -> (r: Option<char>)
        ensures
            r == if self.current + 1 < self.source.len() {
                Some(self.source@[self.current + 1])
            } else {
                None::<char>
            },
    {
        if self.current < self.source.len() && self.current + 1 < self.source.len() {
            Some(self.source[self.current + 1])
        } else {
            None
        }
    }

    fn add_token(&mut self, token_type: TokenType)
        requires
            old(self).wf(),
        ensures
            final(self).wf(),
            final(self).source@ == old(self).source@,
            final(self).current == old(self).current,
            final(self).start == old(self).start,
            final(self).line == old(self).line,
            tokens_view(final(self).tokens@) == tokens_view(old(self).tokens@).push(
                token_at(
                    token_type,
                    old(self).source@,
                    old(self).start as int,
                    old(self).current as int,
                    None,
                    old(self).line as nat,
                ),
            ),
    {
        let s = string_of(&self.source, self.start, self.current);
        let token = Token::new(token_type, s, None, self.line);
        self.tokens.push(token);
        assert(tokens_view(self.tokens@) =~= tokens_view(old(self).tokens@).push(token@));
    }

    fn add_token_object(&mut self, token_type: TokenType, object: Object)
        requires
            old(self).wf(),
        ensures
            final(self).wf(),
            final(self).source@ == old(self).source@,
            final(self).current == old(self).current,
            final(self).start == old(self).start,
            final(self).line == old(self).line,
            tokens_view(final(self).tokens@) == tokens_view(old(self).tokens@).push(
                token_at(
                    token_type,
                    old(self).source@,
                    old(self).start as int,
                    old(self).current as int,
                    Some(object@),
                    old(self).line as nat,
                ),
            ),
    {
        let s = string_of(&self.source, self.start, self.current);
        let token = Token::new(token_type, s, Some(object), self.line);
        self.tokens.push(token);
        assert(tokens_view(self.tokens@) =~= tokens_view(old(self).tokens@).push(token@));
    }
}

fn is_digit(c: Option<char>) -> (r: bool)
    ensures
        r == (c is Some && is_digit_char(c->0)),
{
    if let Some(c) = c {
        if '0' <= c && c <= '9' {
            return true;
        }
    }
    return false;
}

fn is_alpha_char_exec(c: char) -> (r: bool)
    ensures
        r == is_alpha_char(c),
{
    ('a' <= c && c <= 'z') || ('A' <= c && c <= 'Z') || ('0' <= c && c <= '9') || c == '_'
}

/// Whether `src[start..end]` spells the word `w`.
fn word_is(src: &Vec<char>, start: usize, end: usize, w: &[char]) -> (r: bool)
    requires
        start <= end <= src.len(),
    ensures
        r == (src@.subrange(start as int, end as int) == w@),
{
    if end - start != w.len() {
        proof {
            assert(src@.subrange(start as int, end as int).len() != w@.len());
        }
        return false;
    }
    let mut i: usize = 0;
    while i < w.len()
        invariant
            start <= end <= src.len(),
            end - start == w.len(),
            i <= w.len(),
            forall|k: int| 0 <= k < i ==> src@[start + k] == w@[k],
        decreases w.len() - i,
    {
        if src[start + i] != w[i] {
            proof {
                assert(src@.subrange(start as int, end as int)[i as int] != w@[i as int]);
            }
            return false;
        }
        i += 1;
    }
    assert(src@.subrange(start as int, end as int) =~= w@);
    true
}

/// The kind of the word `src[start..end]`.
fn keyword(src: &Vec<char>, start: usize, end: usize) -> (tt: TokenType)
    requires
        start <= end <= src.len(),
    ensures
        tt == keyword_type(src@.subrange(start as int, end as int)),
{
    let ghost w = src@.subrange(start as int, end as int);
    if word_is(src, start, end, &['a', 'n', 'd']) {
        assert(['a', 'n', 'd']@ =~= seq!['a', 'n', 'd']);
        TokenType::AND
    } else if word_is(src, start, end, &['c', 'l', 'a', 's', 's']) {
        assert(['c', 'l', 'a', 's', 's']@ =~= seq!['c', 'l', 'a', 's', 's']);
        TokenType::CLASS
    } else if word_is(src, start, end, &['e', 'l', 's', 'e']) {
        assert(['e', 'l', 's', 'e']@ =~= seq!['e', 'l', 's', 'e']);
        TokenType::ELSE
    } else if word_is(src, start, end, &['f', 'a', 'l', 's', 'e']) {
        assert(['f', 'a', 'l', 's', 'e']@ =~= seq!['f', 'a', 'l', 's', 'e']);
        TokenType::FALSE
    } else if word_is(src, start, end, &['f', 'o', 'r']) {
        assert(['f', 'o', 'r']@ =~= seq!['f', 'o', 'r']);
        TokenType::FOR
    } else if word_is(src, start, end, &['f', 'u', 'n']) {
        assert(['f', 'u', 'n']@ =~= seq!['f', 'u', 'n']);
        TokenType::FUN
    } else if word_is(src, start, end, &['i', 'f']) {
        assert(['i', 'f']@ =~= seq!['i', 'f']);
        TokenType::IF
    } else if word_is(src, start, end, &['n', 'i', 'l']) {
        assert(['n', 'i', 'l']@ =~= seq!['n', 'i', 'l']);
        TokenType::NIL
    } else if word_is(src, start, end, &['o', 'r']) {
        assert(['o', 'r']@ =~= seq!['o', 'r']);
        TokenType::OR
    } else if word_is(src, start, end, &['p', 'r', 'i', 'n', 't']) {
        assert(['p', 'r', 'i', 'n', 't']@ =~= seq!['p', 'r', 'i', 'n', 't']);
        TokenType::PRINT
    } else if word_is(src, start, end, &['r', 'e', 't', 'u', 'r', 'n']) {
        assert(['r', 'e', 't', 'u', 'r', 'n']@ =~= seq!['r', 'e', 't', 'u', 'r', 'n']);
        TokenType::RETURN
    } else if word_is(src, start, end, &['s', 'u', 'p', 'e', 'r']) {
        assert(['s', 'u', 'p', 'e', 'r']@ =~= seq!['s', 'u', 'p', 'e', 'r']);
        TokenType::SUPER
    } else if word_is(src, start, end, &['t', 'h', 'i', 's']) {
        assert(['t', 'h', 'i', 's']@ =~= seq!['t', 'h', 'i', 's']);
        TokenType::THIS
    } else if word_is(src, start, end, &['t', 'r', 'u', 'e']) {
        assert(['t', 'r', 'u', 'e']@ =~= seq!['t', 'r', 'u', 'e']);
        TokenType::TRUE
    } else if word_is(src, start, end, &['v', 'a', 'r']) {
        assert(['v', 'a', 'r']@ =~= seq!['v', 'a', 'r']);
        TokenType::VAR
    } else if word_is(src, start, end, &['w', 'h', 'i', 'l', 'e']) {
        assert(['w', 'h', 'i', 'l', 'e']@ =~= seq!['w', 'h', 'i', 'l', 'e']);
        TokenType::WHILE
    } else {
        TokenType::IDENTIFIER
    }
}

fn unexpected_char(c: char, line: usize) -> (s: String)
    ensures
        s@ == unexpected_char_message(c, line as nat),
{
    let mut s = String::from_str("Unexpected character '");
    push_char(&mut s, c);
    s.append("' in line ");
    push_decimal(&mut s, line);
    s.append(" !");
    s
}

fn unterminated(line: usize) -> (s: String)
    ensures
        s@ == unterminated_message(line as nat),
{
    let mut s = String::from_str("Unterminated string at line ");
    push_decimal(&mut s, line);
    s.append("!");
    s
}

} // verus!
