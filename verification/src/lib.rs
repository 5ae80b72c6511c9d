//! Conversion of Lichess puzzle CSV exports to PGN.
//!
//! The library reads the standard Lichess CSV header, keeps the puzzles whose
//! rating is at least an inclusive minimum, converts their UCI moves to SAN
//! and renders each selected puzzle as a PGN game.

pub mod text;
pub mod table;
pub mod error;
pub mod chess;
pub mod pgn;
pub mod puzzle;
pub mod convert;
pub mod cli;
pub mod form;

pub use convert::{convert_csv_to_pgn, ConversionProgress, ConversionStats, PuzzleCsv, RowConverter};
pub use error::ConversionError;
