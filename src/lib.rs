//! A tree-walking interpreter for a small Lox-like scripting language:
//! a lexer, a recursive-descent parser, an arena of lexical scopes and an
//! evaluator, each stated against a model in spec functions.
//!
//! Numbers are exact fractions with 64-bit numerator and denominator, plus
//! the three special values of floating point (positive and negative
//! infinity, not-a-number), rather than binary floating point:
//! - arithmetic on numbers never fails: a result whose lowest terms do not
//!   fit is rounded (halving numerator and denominator), which gives an
//!   infinity of the right sign where the magnitude is too large and zero
//!   where it is too small;
//! - a numeral is rounded the same way; only one whose digits, or whose
//!   power of ten, exceed ten to the 37th is an invalid number;
//! - a number is shown with at most sixteen fraction digits, so `0.1 + 0.2`
//!   shows `0.3`.
pub mod source;
pub mod number;
pub mod text;
pub mod tokenizer;
pub mod ast;
pub mod cursor;
pub mod parser;
pub mod value;
pub mod environment;
pub mod evaluator;
pub mod interpreter;
pub mod reader;
pub mod laws;
