//! The markup-parsing core of a minimal browser engine: a tokenizer turns
//! already-fetched HTML text into markup tokens, and a tree builder consumes
//! them under an insertion-mode automaton into a navigable document tree.
//! Around that core sit the boundary pieces a fetch needs: an address
//! parser, a request builder and a response-envelope parser. Every function
//! here carries a verified contract; the tree's link invariants and the
//! tokenizer's determinism are proved, not sampled.

pub mod client;
pub mod dom;
pub mod error;
pub mod http;
pub mod parser;
pub mod text;
pub mod token;
pub mod url;
