//! A reader for Lisp-family source text.
//!
//! The text is read byte by byte into a tree of atoms, lists and vectors; the
//! first syntax error stops the reading and is reported with its line, its
//! byte offset and the productions that were legal there. Every function is
//! stated against a mathematical description of the grammar and proved to
//! follow it.
//!
//! - `chars`: the category of each byte; whitespace and comments.
//! - `position`: lines and columns.
//! - `error`: the kinds of error and their reports.
//! - `ast`: the tree, the mathematical value that a tree stands for, and
//!   which trees are well formed.
//! - `number`, `atom`, `quote`: numeric literals, atoms, quoting shortcuts.
//! - `grammar`: what a text stands for, as functions on its bytes.
//! - `parser`: the reader itself; `parse_program` is the entry point.
//! - `render`: the canonical text of a tree.
//! - `outcome`: every reading gives a well-formed tree or an error that the
//!   text shows.
//! - `roundtrip`: reading the canonical text of a tree gives the tree back.

pub mod chars;
pub mod position;
pub mod error;
pub mod ast;
pub mod number;
pub mod atom;
pub mod quote;
pub mod grammar;
pub mod parser;
pub mod render;
pub mod outcome;
pub mod roundtrip;

pub use ast::Atom;
pub use ast::AstNode;
pub use ast::Number;
pub use error::ErrorKind;
pub use error::ExpectedSet;
pub use error::ParseError;
pub use error::Production;
pub use parser::parse_bytes;
pub use parser::parse_expr;
pub use parser::parse_program;
pub use position::Position;
pub use render::render_expr;
pub use render::render_program;
