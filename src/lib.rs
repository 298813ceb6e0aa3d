//! A two-stage lexical front end: a position-tracking character stream and a
//! tokenizer with one token of lookahead built on top of it.

pub mod input_stream;
pub mod lexicon;
pub mod token_stream;
pub mod laws;
pub mod parser;
