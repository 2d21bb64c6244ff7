//! A schema compiler for `.synq` files: lexer, parser, AST printers and a
//! small bytecode back end.
//!
//! `synq` holds the current language; `codec` holds the earlier parser and
//! printer, which read messages without `returns` and option blocks as raw
//! tokens.
pub mod codec;
pub mod error;
pub mod synq;
pub mod text;
