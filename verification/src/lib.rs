//! Front end for a Pascal-family language: a scanner that turns source text
//! into positioned tokens, and a consumer of the token stream that recognises
//! module headers and `var` blocks.

pub mod token;
pub mod text;
pub mod cursor;
pub mod declaration;
pub mod keyword;
pub mod scan;
pub mod scan_laws;
pub mod lexer;
pub mod parser;
