//! Turns rows of spreadsheet cells into batches of SQL statement text by
//! substituting placeholders in a user-supplied template. Pure text
//! transformation: no database is ever contacted.
//!
//! - [`chars`] holds the character-sequence toolkit: search, replacement,
//!   joining and decimal rendering, with contracts over `Seq<char>`.
//! - [`column`] resolves column labels ("A", "AA", ...) to zero-based indices.
//! - [`escape`] doubles quotes and backslashes in raw values.
//! - [`extract`] picks and trims the requested columns of the row grid.
//! - [`subst`] substitutes one row into a template (single-row mode).
//! - [`batch`] cuts rows into chunks and builds one statement per chunk.
//! - [`pipeline`] dispatches between the modes and names the output shards.

pub mod batch;
pub mod chars;
pub mod column;
pub mod escape;
pub mod extract;
pub mod pipeline;
pub mod subst;

use vstd::prelude::*;

verus! {

/// The error kinds the generation pipeline can report.
#[derive(Debug, Clone, Copy, PartialEq, Eq, Structural)]
pub enum SqlGenError {
    /// A column label contains a character that is not an ASCII letter.
    InvalidColumnLabel,
    /// The requested sheet is absent, or the workbook has no sheets.
    SheetNotFound,
    /// After extraction and empty-row filtering, no rows remain.
    NoDataFound,
    /// A rows-per-statement or shard size of zero was requested.
    InvalidBatchSize,
    /// The output path cannot be split into name and extension.
    InvalidOutputPath,
}

} // verus!
