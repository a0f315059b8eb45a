//! Lexical scanner for a small dynamically-typed scripting language.
//!
//! The scanner turns raw source text into a sequence of classified tokens;
//! the chunk layer maps tokens to display triples; the parser stub folds the
//! literal keywords of a token stream into their printed values.

pub mod chunk;
pub mod laws;
pub mod parser;
pub mod scanner;
pub mod text;
pub mod token;

pub use chunk::Chunk;
pub use chunk::to_chunks;
pub use parser::parse;
pub use scanner::has_invalid;
pub use scanner::partition_tokens;
pub use scanner::scan_file;
pub use text::diagnostic_line;
pub use token::Token;
