//! A small arithmetic expression language: a tokenizer, a recursive-descent
//! parser producing an owned syntax tree, and the specifications both are
//! verified against.
//!
//! The pipeline is `Tokenizer` -> `Parser` -> `Node`. Numeric literals are
//! carried through the tree as their source text; reducing a tree to a
//! floating-point value is left to the embedding application, which Verus
//! does not check.

pub mod laws;
pub mod node;
pub mod parser;
pub mod token;
pub mod tokenizer;

pub use node::Node;
pub use parser::parse;
pub use parser::ParseError;
pub use parser::Parser;
pub use token::Token;
pub use tokenizer::Tokenizer;
