//! A tree-walking interpreter for a small dynamically-typed language:
//! a lexical scanner, a recursive-descent parser with precedence climbing,
//! and an evaluator over lexically-scoped variable environments.
//!
//! Each stage carries its mathematical model. The scanner is proved to
//! produce exactly the token sequence of the lexical specification
//! (`scanner::scanner::scan_from`); the parser is proved to return, on
//! success, a derivation of exactly the tokens it consumed under the
//! grammar relations (`parser::parser::stmts_at` and the precedence
//! levels below it); the evaluator is proved to follow the big-step
//! semantics (`parser::interpreter::exec_stmts`) over a scope-chain
//! model of the environment. Numbers are IEEE 754 binary64 values held
//! as bit patterns; the arithmetic itself is performed by `rustc_apfloat`
//! behind the named operations of `numeric`, and every contract above
//! speaks of those names. Nothing here prints or reads: output lines and
//! error reports are returned as values for the driver to emit.

use vstd::prelude::*;

pub mod numeric;
pub mod parser;
pub mod scanner;

use crate::parser::interpreter::{exec_stmts, str_views, ErrM, Interpreter, RuntimeError};
use crate::parser::parser::{parse_program_at, stmts_at, Parser};
use crate::parser::statements::Stmt;
use crate::scanner::scanner::{err_views, scan_from, token_views};
use crate::scanner::token::{TokenM, TokenType, Val};

verus! {

/// What one driver step produced: the lines the program printed, and
/// every failure — the scan errors in source order, then the parse or
/// runtime error that stopped the run, if any.
pub struct RunResult {
    pub output: Vec<String>,
    pub errors: Vec<RuntimeError>,
}

/// What parsing and executing the scanned tokens must produce: on a
/// parse error, no output and that error appended to the scan errors;
/// on a parse, the printed lines and the possible runtime error of the
/// big-step execution of a derivation of the tokens.
pub open spec fn pipeline_gives(
    toks: Seq<TokenM>,
    scan_errs: Seq<ErrM>,
    out: Seq<Seq<char>>,
    errs: Seq<ErrM>,
) -> bool {
    match parse_program_at(toks, 0) {
        Err(m) => out.len() == 0 && errs == scan_errs.push(m),
        Ok(end) => exists|ss: Seq<Stmt>|
            #![trigger stmts_at(toks, 0, end, ss)]
            stmts_at(toks, 0, end, ss) && ({
                let o = exec_stmts(
                    ss,
                    seq![Map::<Seq<char>, Val>::empty()],
                    Seq::<Seq<char>>::empty(),
                );
                &&& out == o.out
                &&& (match o.err {
                    None => errs == scan_errs,
                    Some(m) => errs == scan_errs.push(m),
                })
            }),
    }
}

/// What one driver step on `source` must produce: `pipeline_gives`, on
/// the scanner's tokens with the `EOF` sentinel appended and on the
/// scanner's errors.
pub open spec fn run_gives(source: Seq<char>, out: Seq<Seq<char>>, errs: Seq<ErrM>) -> bool {
    let lex = scan_from(source, 0, 1);
    pipeline_gives(
        lex.tokens.push(
            TokenM {
                token_type: TokenType::EOF,
                lexeme: Seq::empty(),
                literal: Val::VStr(Seq::empty()),
                line: lex.line_end,
            },
        ),
        lex.errs,
        out,
        errs,
    )
}

/// Runs a complete source text: scan, parse, interpret against a fresh
/// interpreter. Scanning continues past bad characters and its errors
/// are collected; the tokens are parsed regardless, a parse error
/// aborting before any execution; execution stops at the first runtime
/// error, keeping the lines printed before it. Every failure surfaces
/// here as a value, never only as a printed side effect: the scan errors
/// in source order, then — exactly as `run_gives` says — the parse
/// error of `parse_program_at`, or the runtime error of `exec_stmts` on
/// a derivation of the tokens.
/// The error outcome of the pipeline on tokens that do not parse.
proof fn lemma_pipeline_err(
    toks: Seq<TokenM>,
    scan_errs: Seq<ErrM>,
    m: ErrM,
    out: Seq<Seq<char>>,
    errs: Seq<ErrM>,
)
    requires
        parse_program_at(toks, 0) == Err::<int, ErrM>(m),
        out.len() == 0,
        errs == scan_errs.push(m),
    ensures
        pipeline_gives(toks, scan_errs, out, errs),
{
}

/// The outcome of the pipeline on tokens that parse to `ss`.
proof fn lemma_pipeline_ok(
    toks: Seq<TokenM>,
    scan_errs: Seq<ErrM>,
    j: int,
    ss: Seq<Stmt>,
    out: Seq<Seq<char>>,
    errs: Seq<ErrM>,
)
    requires
        parse_program_at(toks, 0) == Ok::<int, ErrM>(j),
        stmts_at(toks, 0, j, ss),
        ({
            let o = exec_stmts(
                ss,
                seq![Map::<Seq<char>, Val>::empty()],
                Seq::<Seq<char>>::empty(),
            );
            &&& out == o.out
            &&& (match o.err {
                None => errs == scan_errs,
                Some(m) => errs == scan_errs.push(m),
            })
        }),
    ensures
        pipeline_gives(toks, scan_errs, out, errs),
{
    let end = parse_program_at(toks, 0)->Ok_0;
    assert(end == j);
    assert(stmts_at(toks, 0, end, ss));
}

/// Executes a parsed program against a fresh interpreter, appending the
/// runtime error, if any, to the errors collected so far.
fn run_program(ss: &Vec<Stmt>, errors: Vec<RuntimeError>) -> (r: RunResult)
    ensures
        ({
            let o = exec_stmts(
                ss@,
                seq![Map::<Seq<char>, Val>::empty()],
                Seq::<Seq<char>>::empty(),
            );
            &&& str_views(r.output@) == o.out
            &&& (match o.err {
                None => err_views(r.errors@) == err_views(errors@),
                Some(m) => err_views(r.errors@) == err_views(errors@).push(m),
            })
        }),
{
    let ghost init_env = seq![Map::<Seq<char>, Val>::empty()];
    let ghost init_out = Seq::<Seq<char>>::empty();
    let mut machine = Interpreter::new();
    proof {
        assert(machine.environment.scopes() =~= init_env);
        assert(str_views(machine.output@) =~= init_out);
    }
    let ghost pre_env = machine.environment.scopes();
    let ghost pre_out = str_views(machine.output@);
    let mut errs = errors;
    let outcome = machine.interpret(ss);
    proof {
        assert(exec_stmts(ss@, init_env, init_out) == exec_stmts(ss@, pre_env, pre_out));
    }
    match outcome {
        Ok(u) => RunResult { output: machine.output, errors: errs },
        Err(e) => {
            errs.push(e);
            proof {
                assert(err_views(errs@) =~= err_views(errors@).push(e@));
            }
            RunResult { output: machine.output, errors: errs }
        },
    }
}

#[verifier::rlimit(100)]
pub fn run(source: String) -> (r: RunResult)
    requires
        source@.len() + 1 < 0x8000_0000,
    ensures
        run_gives(source@, str_views(r.output@), err_views(r.errors@)),
{
    let mut lexer = crate::scanner::scanner::new(source);
    let tokens = lexer.scan_tokens();
    let mut errors: Vec<RuntimeError> = lexer.errors;
    let ghost lex = scan_from(lexer.source@, 0, 1);
    let ghost toks = token_views(tokens@);
    let mut token_reader = Parser::new(tokens);
    match token_reader.parse() {
        Err(e) => {
            proof {
                assert(parse_program_at(toks, 0) == Err::<int, ErrM>(e@));
            }
            errors.push(e);
            let output: Vec<String> = Vec::new();
            proof {
                assert(err_views(errors@) =~= lex.errs.push(e@));
                assert(str_views(output@) =~= Seq::<Seq<char>>::empty());
                lemma_pipeline_err(
                    toks,
                    lex.errs,
                    e@,
                    str_views(output@),
                    err_views(errors@),
                );
            }
            RunResult { output, errors }
        },
        Ok(ss) => {
            let ghost j = token_reader.current as int;
            proof {
                assert(parse_program_at(toks, 0) == Ok::<int, ErrM>(j));
                assert(stmts_at(toks, 0, j, ss@));
                assert(err_views(errors@) =~= lex.errs);
            }
            let r = run_program(&ss, errors);
            proof {
                lemma_pipeline_ok(
                    toks,
                    lex.errs,
                    j,
                    ss@,
                    str_views(r.output@),
                    err_views(r.errors@),
                );
            }
            r
        },
    }
}

} // verus!
