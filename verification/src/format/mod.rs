//! Template parsing and the value formatters that templates use.
pub mod parser;
pub mod parser_laws;
pub mod duration;
pub mod byte_size;
