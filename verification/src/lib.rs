//! Front end of the Forge language: a lexer that turns source text into
//! tokens and a recursive-descent parser that turns tokens into items.

pub mod text;
pub mod token;
pub mod describe;
pub mod lexical;
pub mod lexer;
pub mod nodes;
pub mod syntax;
pub mod parser;
pub mod options;
pub mod logging;
pub mod laws;
