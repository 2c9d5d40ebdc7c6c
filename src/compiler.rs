use vstd::prelude::*;
use crate::parser::{ParseError, Parser, statements_from};
use crate::semantic_analysis::{ResolveError, resolve_all, resolve_statements, stmt_views};
use crate::stmt::Statement;
use crate::symbol_table::SymbolTable;
use crate::token::Token;
use crate::tokenizer::{LexError, Tokenizer, lex_spans, tokens_of};

verus! {

/// Why a program could not be compiled, by phase.
#[derive(Debug)]
pub enum CompileError {
    Lex(LexError),
    Parse(ParseError),
    Resolve(ResolveError),
}

/// The statements of `source` tokenized, parsed and resolved under one global
/// scope; or the first error, from the first phase that fails.
pub open spec fn compiles_to(source: Seq<char>, r: Result<Seq<crate::stmt::StmtView>, CompileError>) -> bool {
    match lex_spans(source, 0) {
        Err(e) => r matches Err(CompileError::Lex(x)) && x == e,
        Ok(spans) => exists|ts: Seq<Token>|
            {
                &&& tokens_of(source, spans, ts)
                &&& match statements_from(ts, 0) {
                    Err(e) => r matches Err(CompileError::Parse(x)) && x == e,
                    Ok(ss) => match resolve_all(ss, seq![Map::empty()]) {
                        Err(e) => r matches Err(CompileError::Resolve(x)) && x == e,
                        Ok((rs, _)) => r == Ok::<Seq<crate::stmt::StmtView>, CompileError>(rs),
                    },
                }
            },
    }
}

pub open spec fn result_views(r: Result<Vec<Statement>, CompileError>) -> Result<Seq<crate::stmt::StmtView>, CompileError> {
    match r {
        Ok(v) => Ok(stmt_views(v@)),
        Err(e) => Err(e),
    }
}

/// Compiles a program's source text into resolved statements.
pub fn compile(source: Vec<char>) -> (r: Result<Vec<Statement>, CompileError>)
    ensures
        compiles_to(source@, result_views(r)),
{
    let ghost s = source@;
    let mut tokenizer = Tokenizer::new(source);
    let tokens = match tokenizer.tokenize() {
        Ok(t) => t,
        Err(e) => {
            return Err(CompileError::Lex(e));
        },
    };
    let ghost ts = tokens@;
    let ghost spans = lex_spans(s, 0)->Ok_0;
    assert(tokens_of(s, spans, ts));
    let mut parser = Parser::new(tokens);
    let mut statements = match parser.parse_statements() {
        Ok(v) => v,
        Err(e) => {
            assert(tokens_of(s, spans, ts));
            return Err(CompileError::Parse(e));
        },
    };
    let mut symbol_table = SymbolTable::new();
    match resolve_statements(&mut statements, &mut symbol_table) {
        Ok(()) => {
            assert(tokens_of(s, spans, ts));
            Ok(statements)
        },
        Err(e) => {
            assert(tokens_of(s, spans, ts));
            Err(CompileError::Resolve(e))
        },
    }
}

} // verus!
