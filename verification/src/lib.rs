//! Front end of a small schema language for binary wire records: lexing,
//! parsing, semantic checks and lowering to a plain schema value, together
//! with the framing codecs, the packet history and the HTML writers used by
//! the tooling around it.
//!
//! The passes, leaves first: [`lexer`] turns text into located tokens,
//! [`parser`] builds the syntax tree of [`syntax`] by the rules of
//! [`grammar`], [`checks`] finds cycles and misused names, [`definition`]
//! lowers the tree to the schema, and [`pipeline`] runs them in a row.
//! [`language`] and [`laws`] hold what is proved of the passes beyond the
//! contracts of their functions.

pub mod assoc;
pub mod ax25;
pub mod chars;
pub mod checks;
pub mod definition;
pub mod definitions;
pub mod diagnostics;
pub mod grammar;
pub mod html;
pub mod kiss;
pub mod language;
pub mod laws;
pub mod lexer;
pub mod literal;
pub mod parser;
pub mod pipeline;
pub mod relay;
pub mod span;
pub mod syntax;
pub mod text;
pub mod token;
pub mod writer;

pub use pipeline::compile;
