//! An embeddable compiler for Molang, the expression and statement language
//! of Bedrock-edition animation and behaviour content.
//!
//! A source text is split into tokens, parsed, lowered to IR and compiled to
//! a function of basic blocks over 64-bit floating-point values. The function
//! reads and writes the host's [`eval::RuntimeContext`] through the runtime
//! bridge alone. A program that is one pure expression is compiled once and
//! kept in the [`jit_cache::CompileCache`] under its source text.
pub mod ast;
pub mod code_laws;
pub mod eval;
pub mod ir;
pub mod jit;
pub mod jit_cache;
pub mod lexer;
pub mod number;
pub mod parser;
pub mod store_laws;
pub mod text;

use crate::ast::{is_single_expression, Expr, Program};
use crate::ir::{
    lower_failure, lowers_to, program_lowers_to, statements_failure, IrBuilder, IrExpr, IrProgram,
    LowerError,
};
use crate::jit::{
    artifact_of, compile_program, expression_code, program_code, refuses, well_built, CompiledExpression,
    JitError,
};
use crate::jit_cache::{cache_after, cache_handle, compile_cached, CacheModel, CompileCache};
use crate::lexer::{lex, lex_text, LexError};
use crate::parser::{parse_tokens, ParseError, Parser};
use vstd::prelude::*;
use vstd::string::StringSliceAdditionalSpecFns;

verus! {

#[derive(Debug)]
pub enum MolangError {
    Lex(LexError),
    Parse(ParseError),
    Lower(LowerError),
    Jit(JitError),
}

/// What a source text compiles to.
#[derive(Debug)]
pub enum Compiled {
    /// A pure expression: the position of its artifact in the cache.
    Cached(usize),
    /// A program: its artifact, compiled for this call.
    Program(CompiledExpression),
}

/// The first expression statement of a program.
pub open spec fn single_expression(program: Program) -> Expr {
    match program.statements[0] {
        crate::ast::Statement::Expr(e) => e,
        _ => Expr::Flow(crate::ast::ControlFlowExpr::Break),
    }
}

/// What compiling a pure expression under its source text `key` owes: the
/// first lowering failure; else the answer of the cache, which compiles
/// the expression if it does not hold the text.
pub open spec fn prepared_expression(
    e: Expr,
    key: Seq<char>,
    before: CacheModel,
    after: CacheModel,
    result: Result<Compiled, MolangError>,
) -> bool {
    match lower_failure(e) {
        Some(failure) => result matches Err(MolangError::Lower(error)) && error@ == failure && after
            == before,
        None => exists|ir: IrExpr| #[trigger]
            lowers_to(e, ir) && after == cache_after(before, key, expression_code(ir)) && match cache_handle(
                before,
                key,
                expression_code(ir),
            ) {
                Some(handle) => result matches Ok(Compiled::Cached(h)) && h == handle,
                None => result matches Err(MolangError::Jit(error)) && expression_code(ir) matches Err(
                    feature,
                ) && refuses(error, feature),
            },
    }
}

/// What compiling a program owes: the first lowering failure; else the
/// artifact of the lowered program, or the feature for which the code
/// generator refuses it. The cache is not touched.
pub open spec fn prepared_program(
    program: Program,
    before: CacheModel,
    after: CacheModel,
    result: Result<Compiled, MolangError>,
) -> bool {
    after == before && match statements_failure(program.statements, program.statements.len() as nat) {
        Some(failure) => result matches Err(MolangError::Lower(error)) && error@ == failure,
        None => exists|ir: IrProgram| #[trigger]
            program_lowers_to(program, ir) && match program_code(ir) {
                Ok(code) => result matches Ok(Compiled::Program(artifact)) && artifact@ == artifact_of(code),
                Err(feature) => result matches Err(MolangError::Jit(error)) && refuses(error, feature),
            },
    }
}

/// What compiling a parsed program owes: a single pure expression goes
/// through the cache, anything else is compiled afresh.
pub open spec fn prepared(
    program: Program,
    key: Seq<char>,
    before: CacheModel,
    after: CacheModel,
    result: Result<Compiled, MolangError>,
) -> bool {
    if is_single_expression(program) {
        prepared_expression(single_expression(program), key, before, after, result)
    } else {
        prepared_program(program, before, after, result)
    }
}

/// Lowers and compiles a parsed program; `source` is the text that it was
/// parsed from, under which a pure expression is kept in the cache.
pub fn compile_parsed(program: &Program, source: &str, cache: &mut CompileCache) -> (r: Result<
    Compiled,
    MolangError,
>)
    ensures
        prepared(*program, source@, old(cache)@, final(cache)@, r),
        r matches Ok(Compiled::Program(artifact)) ==> well_built(artifact@),
        r is Ok && final(cache)@.len() > old(cache)@.len() ==> well_built(final(cache)@.last().1),
{
    let builder = IrBuilder;
    match program.as_jit_expression() {
        Some(expr) => {
            let ir = match builder.lower(expr) {
                Ok(ir) => ir,
                Err(error) => {
                    return Err(MolangError::Lower(error));
                },
            };
            let r = match compile_cached(cache, source, &ir) {
                Ok(handle) => Ok(Compiled::Cached(handle)),
                Err(error) => Err(MolangError::Jit(error)),
            };
            assert(single_expression(*program) == *expr);
            assert(lowers_to(*expr, ir));
            assert(prepared_expression(*expr, source@, old(cache)@, cache@, r));
            r
        },
        None => {
            let ir = match builder.lower_program(program) {
                Ok(ir) => ir,
                Err(error) => {
                    return Err(MolangError::Lower(error));
                },
            };
            let r = match compile_program(&ir) {
                Ok(artifact) => Ok(Compiled::Program(artifact)),
                Err(error) => Err(MolangError::Jit(error)),
            };
            assert(program_lowers_to(*program, ir));
            assert(prepared_program(*program, old(cache)@, cache@, r));
            r
        },
    }
}

/// Splits a source text into tokens and parses them.
pub fn parse_source(input: &str) -> (r: Result<Program, MolangError>)
    ensures
        match lex_text(input@, input.spec_bytes().len() as usize) {
            Ok(tokens) => match parse_tokens(tokens) {
                Ok(statements) => r matches Ok(program) && program@ == statements,
                Err(failure) => r matches Err(MolangError::Parse(error)) && error@ == failure,
            },
            Err(failure) => r matches Err(MolangError::Lex(error)) && error == failure,
        },
{
    let tokens = match lex(input) {
        Ok(tokens) => tokens,
        Err(error) => {
            return Err(MolangError::Lex(error));
        },
    };
    let mut parser = Parser::new(tokens.as_slice());
    match parser.parse_program() {
        Ok(program) => Ok(program),
        Err(error) => Err(MolangError::Parse(error)),
    }
}

/// Compiles a source text: tokens, syntax tree, IR, code. Lexing and
/// parsing failures come first and leave the cache as it is; a text that
/// parses is compiled as `compile_parsed` compiles its program.
pub fn compile(input: &str, cache: &mut CompileCache) -> (r: Result<Compiled, MolangError>)
    ensures
        match lex_text(input@, input.spec_bytes().len() as usize) {
            Ok(tokens) => match parse_tokens(tokens) {
                Ok(statements) => exists|program: Program| #[trigger]
                    prepared(program, input@, old(cache)@, final(cache)@, r) && program@ == statements,
                Err(failure) => r matches Err(MolangError::Parse(error)) && error@ == failure
                    && final(cache)@ == old(cache)@,
            },
            Err(failure) => r matches Err(MolangError::Lex(error)) && error == failure && final(cache)@
                == old(cache)@,
        },
        r matches Ok(Compiled::Program(artifact)) ==> well_built(artifact@),
        r is Ok && final(cache)@.len() > old(cache)@.len() ==> well_built(final(cache)@.last().1),
{
    let program = parse_source(input)?;
    let r = compile_parsed(&program, input, cache);
    assert(prepared(program, input@, old(cache)@, cache@, r));
    r
}

} // verus!
