//! Per-function stack usage of a linked executable.
//!
//! The symbol table of an executable names its functions; a stack-size
//! section, emitted by the compiler when asked, records how many bytes of
//! stack each of them needs. This crate brings the two together: one record
//! per function, with its address, its code size, every symbol name it goes
//! by and the stack figure that was recorded for it.
//!
//! [`analyze_executable`] does the whole of it, from the parts of an
//! executable in [`symbol`] to the catalog in [`catalog`]; [`report`] turns
//! the catalog into rows, the largest stack first. The steps on the way
//! are public too: [`symtab`] reads the symbol table, [`stack_sizes`]
//! decodes the section, [`correlate`] assigns the stack sizes, and
//! [`lookup`] finds a function by an address whose lowest bit may differ.
//! What holds of every analysis is stated and proved in [`laws`].

pub mod analyze;
pub mod catalog;
pub mod correlate;
pub mod error;
pub mod laws;
pub mod lookup;
pub mod names;
pub mod report;
pub mod sequences;
pub mod stack_sizes;
pub mod symbol;
pub mod symtab;
pub mod tags;
pub mod wire;

pub use analyze::analyze_executable;
pub use catalog::{Function, Functions};
pub use error::{AnalysisError, Section};
pub use report::{insert_row, join_names, report, report_row, Row};
pub use symbol::{Executable, Symbol, SymbolKind, SymbolTable};
pub use tags::is_tag;
