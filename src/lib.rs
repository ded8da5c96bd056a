//! A small template engine: markup with `{...}` segments is lexed, parsed into a flat
//! sequence of content nodes, and rendered against a mutable environment.
//!
//! - `lexer`: source text to markup segments and token lists.
//! - `parser`: token lists to the flat tree of `ast`, with the base template if any.
//! - `template`: expression evaluation and rendering of the flat tree.
//! - `engine`: one whole pass, from source text to rendered text.
//! - `environment`: the variable bindings a pass reads and extends.
//! - `number`: the exact fixed-point numbers of the language.
//! - `seed`: values written on a command line to seed the environment.
//! - `arena`: a fixed-capacity byte pool with bump allocation.
pub mod arena;
pub mod ast;
pub mod engine;
pub mod environment;
pub mod lexer;
pub mod number;
pub mod parser;
pub mod seed;
pub mod template;
pub mod text;
