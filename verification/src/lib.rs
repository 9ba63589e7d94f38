//! Recognition of comments in source text.
//!
//! Given raw source bytes and a description of a language's comment grammar,
//! the engine returns the exact byte ranges that are comments. It tracks
//! string and character literals, so that a comment opener inside a literal
//! is never taken for a comment.
//!
//! - `grammar`: comment grammars as data, and the registered languages.
//! - `lexical`: what the comment spans of a text are, as mathematics.
//! - `scanner`: the cursor over the input.
//! - `lexer`: the state machine that one step at a time turns bytes into
//!   span boundaries.
//! - `collector`: comment spans, assembled from the boundaries.
//! - `engine`: the entry points, `extract_comments` and `extract_with`.
//! - `strip`: deleting the spans from a text.
//! - `laws`: what is proved of every scan.
//! - `sample`: the function of the sample program.

pub mod collector;
pub mod engine;
pub mod error;
pub mod grammar;
pub mod laws;
pub mod lexer;
pub mod lexical;
pub mod sample;
pub mod scanner;
pub mod strip;
