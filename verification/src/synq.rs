//! The `.synq` language: scanner, lexer, parser, printers, and the
//! compiler to bytecode, with the pipeline from source text to bytes.
pub mod ast;
pub mod ast_printer;
pub mod bytecode;
pub mod compiler;
pub mod lexer;
pub mod lexer_laws;
pub mod listing;
pub mod mermaid_laws;
pub mod outline_laws;
pub mod parser;
pub mod parser_concat;
pub mod parser_laws;
pub mod scanner;

use crate::error::ParseError;
use crate::synq::bytecode::encode_all;
use crate::synq::compiler::{compile_ast, program};
use crate::synq::lexer::{
    lex_all, outcome_matches, start_state, try_tokenize, LexStep, Lexed, TokenType, TokenView,
};
use crate::synq::parser::{parse_spec, Parsed, Parser};
use vstd::prelude::*;
use vstd::string::StringSliceAdditionalSpecFns;
use vstd::utf8::decode_utf8;

verus! {

/// The token that a step of the lexer reads.
pub open spec fn step_token(step: LexStep, b: Seq<u8>) -> TokenView {
    match step {
        LexStep::Tok { typ, start, end, line, col } => TokenView {
            typ,
            text: decode_utf8(b.subrange(start, end)),
            line: line as usize,
            col: col as usize,
        },
        _ => TokenView { typ: TokenType::Eof, text: Seq::empty(), line: 0, col: 0 },
    }
}

/// The tokens that the steps of the lexer read.
pub open spec fn step_tokens(steps: Seq<LexStep>, b: Seq<u8>) -> Seq<TokenView> {
    steps.map_values(|s: LexStep| step_token(s, b))
}

/// Compiles a source text to bytecode: its tokens are read, parsed into a
/// syntax tree, and the tree is compiled. The first error of the lexer or
/// the parser is returned; `None` says that one of them would panic.
pub fn try_compile(input: &str) -> (res: Option<Result<Vec<u8>, ParseError>>)
    ensures
        match lex_all(input.spec_bytes(), start_state()) {
            Lexed::Panic => res is None,
            Lexed::Failed(step) => res matches Some(Err(e)) && outcome_matches(
                Some(Err(e)),
                step,
                input.spec_bytes(),
            ),
            Lexed::Tokens(steps) => match parse_spec(step_tokens(steps, input.spec_bytes())) {
                Parsed::Panic => res is None,
                Parsed::Failed(err) => res matches Some(Err(e)) && e@ == err,
                Parsed::Done(ast, _) => res matches Some(Ok(bytes)) && bytes@ == encode_all(
                    program(ast),
                ),
            },
        },
{
    let ghost b = input.spec_bytes();
    let tokens = match try_tokenize(input) {
        None => return None,
        Some(Err(e)) => return Some(Err(e)),
        Some(Ok(t)) => t,
    };
    proof {
        if let Lexed::Tokens(steps) = lex_all(b, start_state()) {
            assert forall|i: int| 0 <= i < tokens@.len() implies tokens.deep_view()[i]
                == step_tokens(steps, b)[i] by {
                assert(outcome_matches(Some(Ok(tokens@[i])), steps[i], b));
            }
            assert(tokens.deep_view() =~= step_tokens(steps, b));
        }
    }
    let mut parser = Parser::new(&tokens);
    let ast = match parser.try_parse() {
        None => return None,
        Some(Err(e)) => return Some(Err(e)),
        Some(Ok(a)) => a,
    };
    Some(Ok(compile_ast(&ast)))
}

} // verus!
