//! Syntax front end for a shell-dialect translator.
//!
//! The scanner (`lexer`) is a backtrackable cursor over the bytes of a
//! command line or script. The parser (`parser`) turns such a text into the
//! syntax tree of `ast`, whose nodes borrow their texts from the input. What
//! the parser yields is defined by the grammar (`grammar`), a set of
//! functions over the input bytes and the model of the tree (`ast_view`); the
//! parser is proved to compute exactly these functions, to end on every
//! input, and to nest no deeper than it is allowed. What holds of the
//! grammar for every input is stated in `laws`.
//!
//! Beside the parser stand the helpers that replay what a command changed
//! in the environment of the source shell (`env_diff`, `passthrough`).

pub mod bytes;
pub mod text;
pub mod lexer;
pub mod ast;
pub mod ast_view;
pub mod grammar;
pub mod parser;
pub mod provenance;
pub mod laws;
pub mod env_diff;
pub mod passthrough;
