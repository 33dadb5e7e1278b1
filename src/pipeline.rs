//! One run of a source text: scan, then parse, then execute.
use vstd::prelude::*;

use crate::error::Error;
use crate::interpreter::{run as run_program, unit_outcome, Fault, Interpreter, State};
use crate::number::lemma_make_exact;
use crate::parser::{parsable, Parser};
use crate::scanner::{eof_view, lexed_diagnostics, lexed_tokens, scanned, views, Scanner};
use crate::grammar::{parse_program, program_diags};
use crate::stmt::{models, Stmt};
use crate::text::{copy_texts, text_of_str, texts};
use crate::token::{Token, TokenType, TokenView};

verus! {

/// Scanned tokens are fit for the parser: they end with the end marker and
/// every number in them is well formed.
pub proof fn lemma_scanned_parsable(source: Seq<char>, tokens: Seq<Token>, spans: Seq<(int, int)>)
    requires
        scanned(source, views(tokens), spans),
    ensures
        parsable(tokens),
{
    let ts = views(tokens);
    assert(tokens.last()@ == ts.last());
    assert forall|i: int| 0 <= i < tokens.len() implies (#[trigger] tokens[i]).literal@.wf() by {
        assert(tokens[i]@ == ts[i]);
        if i < tokens.len() - 1 {
            assert(ts.drop_last()[i] == ts[i]);
            if ts[i].kind == TokenType::Number {
                let s = ts[i].lexeme;
                let k = crate::scanner::first_dot(s);
                let whole = s.take(k);
                let fraction = if k < s.len() {
                    s.skip(k + 1)
                } else {
                    seq![]
                };
                crate::scanner::lemma_pow10_positive(fraction.len());
                lemma_make_exact(
                    crate::scanner::digits_value(whole + fraction),
                    crate::scanner::pow10(fraction.len()),
                );
                crate::scanner::lemma_pow10_positive(fraction.len());
            }
        }
    }
}

/// `source` scans to `tokens`, which parse to `stmts` with the syntax
/// diagnostics `diagnostics`; running the statements from `before` ends in
/// `after`, and `outcome` reports how: a runtime error as itself; a clean
/// run as `Ok` when there were no diagnostics, else as `ParseError`.
pub open spec fn ran(
    source: Seq<char>,
    diagnostics: Seq<Seq<char>>,
    tokens: Seq<TokenView>,
    spans: Seq<(int, int)>,
    stmts: Seq<Stmt>,
    before: State,
    after: State,
    outcome: Result<(), Error>,
) -> bool {
    let (o, st) = run_program(stmts, before);
    &&& tokens == lexed_tokens(source).push(eof_view(source))
    &&& lexed_diagnostics(source).len() == 0
    &&& scanned(source, tokens, spans)
    &&& models(stmts) == parse_program(tokens, 0, seq![])
    &&& diagnostics == program_diags(tokens, 0)
    &&& (outcome is Ok <==> (o is Ok && diagnostics.len() == 0))
    &&& forall|i: int| 0 <= i < stmts.len() ==> (#[trigger] stmts[i]).wf()
    &&& st == after
    &&& (o is Ok <==> (outcome is Ok || (outcome matches Err(Error::ParseError))))
    &&& (o matches Err(f) ==> unit_outcome(outcome) == Err::<(), Fault>(f))
}

/// Runs `source` on `interpreter`: the diagnostics of scanning and parsing,
/// in order, and how the run ended. A lexical error stops the run before
/// anything executes. Every statement that parsed is executed, in order,
/// until a runtime error; the result is that error, else `ParseError` when a
/// declaration was malformed, else `Ok`. Printed lines collect in the
/// interpreter.
pub fn run(source: &str, interpreter: &mut Interpreter) -> (r: (Vec<String>, Result<(), Error>))
    requires
        old(interpreter).inv(),
        source@.len() < usize::MAX,
    ensures
        final(interpreter).inv(),
        (r.1 matches Err(Error::ScanError)) ==> final(interpreter).state() == old(interpreter).state()
            && texts(r.0@) == lexed_diagnostics(source@) && r.0@.len() > 0,
        !(r.1 matches Err(Error::ScanError)) ==> exists|
            tokens: Seq<TokenView>,
            spans: Seq<(int, int)>,
            stmts: Seq<Stmt>,
        |
            #[trigger] ran(
                source@,
                texts(r.0@),
                tokens,
                spans,
                stmts,
                old(interpreter).state(),
                final(interpreter).state(),
                r.1,
            ),
        r.1 is Ok ==> r.0@.len() == 0,
        (r.1 matches Err(Error::ParseError)) ==> r.0@.len() > 0,
{
    let mut scanner = Scanner::new(text_of_str(source));
    let scanned_result = scanner.scan_tokens();
    let tokens = match scanned_result {
        Ok(tokens) => tokens,
        Err(e) => {
            let diagnostics = copy_texts(scanner.diagnostics());
            return (diagnostics, Err(e));
        },
    };
    proof {
        lemma_scanned_parsable(source@, tokens@, scanner.spans());
    }
    let ghost token_views = views(tokens@);
    let ghost spans = scanner.spans();
    let mut parser = Parser::new(tokens);
    let statements = match parser.parse() {
        Ok(s) => s,
        Err(e) => {
            return (copy_texts(parser.diagnostics()), Err(e));
        },
    };
    let diagnostics = copy_texts(parser.diagnostics());
    let ghost before = interpreter.state();
    let outcome = interpreter.interpret(&statements);
    let ghost stmts = statements@;
    assert(run_program(stmts, before) == (unit_outcome(outcome), interpreter.state()));
    let r = match outcome {
        Err(e) => (diagnostics, Err(e)),
        Ok(()) => if diagnostics.len() == 0 {
            (diagnostics, Ok(()))
        } else {
            (diagnostics, Err(Error::ParseError))
        },
    };
    assert(ran(source@, texts(r.0@), token_views, spans, stmts, old(interpreter).state(), interpreter.state(), r.1));
    r
}

} // verus!
