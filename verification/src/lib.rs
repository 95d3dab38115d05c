//! An in-memory, constraint-checked tabular data model with snapshot-based
//! undo/redo, meant as the verified core of an interactive CSV editor.
//!
//! The crate is organised leaf-first:
//! - [`text`] and [`num`] hold verified character, string and integer-text
//!   helpers the rest of the crate builds on;
//! - [`value`] defines the typed cell scalar [`value::Value`] and the
//!   per-column constraint object [`value::ValueLimiter`];
//! - [`virtual_data`] defines the tabular container
//!   [`virtual_data::VirtualData`] with its columns and rows, structural
//!   mutation, serialization and schema import/export;
//! - [`command`] defines the textual command vocabulary and the
//!   snapshot-based [`command::CommandHistory`];
//! - [`processor`] keys several tables by page name behind one API;
//! - [`parse`], [`utils`], [`models`] and [`error`] hold the invocation
//!   flag parser, quote-aware scanning, small shared types and the error
//!   taxonomy.

pub mod command;
pub mod error;
pub mod models;
pub mod num;
pub mod parse;
pub mod processor;
pub mod text;
pub mod utils;
pub mod value;
pub mod virtual_data;

pub use command::{Command, CommandType};
pub use error::{CedError, CedResult};
pub use processor::Processor;
