//! A small interactive shell: a command-line grammar, a line editor and the
//! decisions of a pipeline executor, each with a verified contract.

pub mod text;
pub mod parser;
pub mod execute;
pub mod width;
pub mod termio;
pub mod input;
pub mod builtin;
pub mod prompt;
pub mod parser_laws;
pub mod editor_laws;
pub mod blank_laws;
