//! An interpreter for a subset of the AWK language.
//!
//! A script is turned into tokens by the [`Lexer`], into a [`Program`] by the
//! [`Parser`], and run against a list of records by the [`Evaluator`], which
//! returns the lines that the program writes. [`Awk`] does the three steps
//! for a script at once, and a [`Session`] takes the records one by one.
//!
//! Every stage has a mathematical model over sequences of characters, and
//! is proved to follow it:
//!
//! - [`lexer::lex`] says which token stands at a position of a script;
//! - [`grammar::parse`] says which program a script stands for;
//! - [`render::render_program`] says how a program is written as a script;
//! - [`semantics::eval_lines`] says which lines a program writes.
//!
//! The models are tied together by laws that are proved of them:
//! [`roundtrip_program::law_program_parses_back`] (the text of a program
//! parses back to the program), [`semantics::law_print_identity`] (the
//! program `{ print }` writes the records as they are),
//! [`semantics::law_range_lines`] (a range pattern writes the records from a
//! start through the next end) and [`semantics::law_no_records`] (without
//! records only the `BEGIN` and `END` blocks run).
//!
//! Texts are sequences of characters, and offsets count characters. Numbers
//! are exact decimal fractions with nine decimal places ([`Number`]), not
//! binary floating point: sums and products of decimal numerals are exact,
//! and what lies beyond 10^20 is infinite. A regex is matched by the reduced
//! matcher of [`matcher`], which knows anchors, the class `[0-9]+` and
//! alternatives, and nothing else.

pub mod ast;
pub mod awk;
pub mod evaluator;
pub mod fields;
pub mod format;
pub mod grammar;
pub mod lexer;
pub mod lexing;
pub mod literals;
pub mod matcher;
pub mod number;
pub mod numeral;
pub mod parser;
pub mod render;
pub mod roundtrip;
pub mod roundtrip_program;
pub mod roundtrip_statements;
pub mod semantics;
pub mod text;
pub mod token;
pub mod variables;

pub use awk::Awk;
pub use evaluator::{Evaluator, Session};
pub use ast::{Action, Expression, Program, Rule, Statement};
pub use lexer::Lexer;
pub use number::Number;
pub use parser::{ParseError, Parser};
pub use token::{Token, TokenKind};
