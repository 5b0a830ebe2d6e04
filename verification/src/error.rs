//! The fatal errors a conversion can end in.

use vstd::prelude::*;

verus! {

/// Everything that can go wrong during a conversion. Each error is fatal:
/// the conversion aborts at once and emits no output.
#[derive(Debug, Clone, Copy, PartialEq, Eq, Structural)]
pub enum ConvError {
    /// A file could not be read or written. The in-memory conversions never
    /// produce it; it belongs to the file-handling edge around the library.
    IoError,
    /// None of the known spreadsheet container formats could parse the input.
    UnsupportedFormat,
    /// The requested worksheet index is out of range, or no worksheet
    /// carries the requested name.
    SheetNotFound,
    /// A delimited-text record could not be tokenized; holds the index of
    /// the offending input table.
    MalformedRecord(usize),
    /// Two worksheets of one workbook would carry the same name; holds the
    /// index of the later of the two.
    DuplicateSheetName(usize),
}

} // verus!
