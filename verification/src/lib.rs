//! Lexical analysis for a small procedural language.
//!
//! The library turns source text into a stream of tokens: keywords,
//! identifiers, integer literals, operators and punctuation.  A `Lexer` is
//! built once from the whole input and hands out one token per call until
//! the text is exhausted; unrecognized characters come back as data
//! (`Token::Illegal`), never as a failure.

mod classify;
mod laws;
mod lexer;
mod model;
mod token;

pub use crate::classify::is_alphabetic;
pub use crate::classify::is_dec_digit;
pub use crate::classify::is_numeric;
pub use crate::classify::is_whitespace;
pub use crate::laws::lemma_lex_deterministic;
pub use crate::laws::lemma_lex_length_bounded;
pub use crate::laws::lemma_maximal_munch_ident;
pub use crate::laws::lemma_maximal_munch_int;
pub use crate::laws::lemma_whitespace_between_tokens_invisible;
pub use crate::laws::lemma_whitespace_invisible;
pub use crate::laws::lemma_whitespace_suffix_invisible;
pub use crate::lexer::lex;
pub use crate::lexer::Lexer;
pub use crate::model::alpha_run;
pub use crate::model::digit_run;
pub use crate::model::is_rest_point;
pub use crate::model::is_symbol_char;
pub use crate::model::keyword_token;
pub use crate::model::lex_spec;
pub use crate::model::next_spec;
pub use crate::model::skip_ws;
pub use crate::model::step_rest;
pub use crate::model::step_tok;
pub use crate::token::Token;
pub use crate::token::TokenModel;
