//! Reading TrueType font files.

pub mod be;
pub mod font;
pub mod parser;
pub mod parser_errors;
pub mod properties;
pub mod tables;
