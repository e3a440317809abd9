use vstd::prelude::*;

use crate::grammar::{program_at, Parsed};
use crate::lox_error::Halt;
use crate::parser::Parser;
use crate::resolver::{resolved_program, Resolver};
use crate::scanner::{scan, Scanner};
use crate::statements::{stmts_view, Statement};
use crate::tokens::{tokens_view, Token};

verus! {

/// What the front end gives for the tokens `toks`: the program read from
/// them with each use of a variable resolved, or the error or the message on
/// which reading or resolving stops.
pub open spec fn front_end_outcome(toks: Seq<Token>, r: Result<Vec<Statement>, Halt>) -> bool {
    match program_at(toks, 0, Seq::empty()) {
        Parsed::Done { value, .. } => match resolved_program(value) {
            Ok(x) => r matches Ok(v) && stmts_view(v@) == x,
            Err(m) => r matches Err(Halt::Panic(y)) && y@ == m,
        },
        Parsed::Failed { error, .. } => r matches Err(Halt::Error(e)) && e@ == error,
        Parsed::Aborted { message } => r matches Err(Halt::Panic(y)) && y@ == message,
    }
}

/// The front end of the interpreter: scans the source text `input`, reads
/// the program from its tokens and resolves each use of a variable in it.
/// The result is the program, ready to run; or the error of scanning or
/// reading; or, where reading or resolving cannot go on, `Halt::Panic` with
/// the message that says why.
pub fn run(input: String) -> (r: Result<Vec<Statement>, Halt>)
    ensures
        match scan(input@) {
            (_, Some(err)) => r matches Err(Halt::Error(e)) && e@ == err,
            (ts, None) => exists|toks: Seq<Token>|
                tokens_view(toks) == ts && #[trigger] front_end_outcome(toks, r),
        },
{
    let mut scn = Scanner::new(input);
    match scn.scan_tokens() {
        Ok(_) => {},
        Err(e) => {
            return Err(Halt::Error(e));
        },
    }
    let tokens = scn.get_tokens();
    let ghost toks = tokens@;
    let mut parser = Parser::new(tokens);
    let statements = match parser.parse_or_halt() {
        Ok(v) => v,
        Err(h) => {
            assert(front_end_outcome(toks, Err(h)));
            return Err(h);
        },
    };
    let r = Resolver::run_checked(&statements);
    assert(front_end_outcome(toks, r));
    r
}

} // verus!
