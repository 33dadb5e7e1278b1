//! The error taxonomy and the one format in which diagnostics are written.
use vstd::prelude::*;

use crate::text::{digits_of, push_digits, text_of_str};
use crate::token::{Token, TokenType, TokenView};

verus! {

pub enum Error {
    /// Lexical errors were found; each was reported as a diagnostic.
    ScanError,
    /// Syntax errors were found; each was reported as a diagnostic.
    ParseError,
    /// Evaluation stopped at `token` for the reason in `message`.
    RuntimeError { token: Token, message: String },
    /// Evaluation ran out of the loop iterations it was allowed.
    StepLimit,
}

impl Error {
    /// A runtime error at `token` for the reason `message`.
    pub open spec fn is_fault(&self, token: TokenView, message: Seq<char>) -> bool {
        match self {
            Error::RuntimeError { token: t, message: m } => t@ == token && m@ == message,
            _ => false,
        }
    }
}

/// `[line <N>] Error<location>: <message>`.
pub open spec fn report_text(line: nat, location: Seq<char>, message: Seq<char>) -> Seq<char> {
    "[line "@ + digits_of(line) + "] Error"@ + location + ": "@ + message
}

/// Where a diagnostic about `token` points: the end of input, or the
/// token's own text.
pub open spec fn location_of(token: TokenView) -> Seq<char> {
    if token.kind == TokenType::Eof {
        " at end"@
    } else {
        " at '"@ + token.lexeme + "'"@
    }
}

/// A diagnostic in the common format.
pub fn report(line: usize, location: &str, message: &str) -> (r: String)
    ensures
        r@ == report_text(line as nat, location@, message@),
{
    let mut out = text_of_str("[line ");
    push_digits(&mut out, line as u64);
    out.append("] Error");
    out.append(location);
    out.append(": ");
    out.append(message);
    proof {
        assert(out@ =~= report_text(line as nat, location@, message@));
    }
    out
}

/// A diagnostic that points at no token (lexical errors).
pub fn error_line(line: usize, message: &str) -> (r: String)
    ensures
        r@ == report_text(line as nat, ""@, message@),
{
    report(line, "", message)
}

/// A diagnostic that points at `token`.
pub fn error_token(token: &Token, message: &str) -> (r: String)
    ensures
        r@ == report_text(token.line as nat, location_of(token@), message@),
{
    if token.type_ == TokenType::Eof {
        report(token.line, " at end", message)
    } else {
        let mut location = text_of_str(" at '");
        location.append(token.lexeme.as_str());
        location.append("'");
        report(token.line, location.as_str(), message)
    }
}

} // verus!
