//! A compiler front end for a small expression and statement language: an
//! error-tolerant scanner and a lossless-syntax-tree parser.
//!
//! The parser never builds a tree directly.  The grammar emits a flat,
//! append-only event log through a marker protocol that lets node
//! boundaries and kinds be decided retroactively, a precedence-climbing
//! expression grammar sits on top of that protocol, and a single-pass
//! linearizer replays the log against an external tree service while
//! preserving every byte of the source — whitespace, comments, and
//! error-recovered fragments included.
//!
//! The proved backbone: `parse_text` terminates on every input and produces
//! one strictly well-nested instruction sequence whose leaf texts
//! concatenate back to the source exactly, with the diagnostic messages
//! pinned as a function of the event log and the tokens.

pub mod chars;
pub mod event;
pub mod grammar;
pub mod input;
pub mod kind_set;
pub mod language;
pub mod lexer;
pub mod output;
pub mod parser;
pub mod sink;
pub mod syntax_kind;
pub mod token;
pub mod token_kind;
pub mod tree;

pub use event::Event;
pub use input::Input;
pub use kind_set::KindSet;
pub use language::RueLanguage;
pub use lexer::Lexer;
pub use output::{Output, ParseError, TreeInstr};
pub use parser::{parse_text, CompletedMarker, Marker, Parser};
pub use sink::Sink;
pub use syntax_kind::SyntaxKind;
pub use token::{Span, Token};
pub use token_kind::{Base, TokenKind};
