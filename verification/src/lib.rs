//! Conversion between delimited text tables and spreadsheet workbooks.
//!
//! A `Table` is an ordered sequence of rows, each an ordered sequence of
//! string cells; rows may have unequal lengths. The crate turns parsed
//! delimited-text tables into a write plan for one workbook (named
//! worksheets, cell writes that skip empty values, display widths per
//! column), and turns one worksheet of a workbook file, selected by index
//! or by name, back into delimited text. Every fallible step reports one
//! of the fatal errors in [`error::ConvError`]; there is no partial
//! output.

pub mod convert;
pub mod csvio;
pub mod error;
pub mod naming;
pub mod plan;
pub mod readback;
pub mod reader;
pub mod widths;
