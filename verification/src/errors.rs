use vstd::prelude::*;

verus! {

/// The error taxonomy of the pipeline. Each step fails fast with one of these;
/// the orchestration layer (outside the library) decides whether a failure
/// halts the batch.
#[derive(Clone, Copy, Debug, PartialEq, Eq, Structural)]
pub enum StepError {
    /// The input directory itself could not be opened.
    DirectoryUnavailable,
    /// A file could not be opened, read or written.
    IoError,
    /// A row's field count is inconsistent, or the delimited text could not
    /// be parsed at all.
    MalformedRow,
    /// A value cannot be reconciled with the type inferred for its column.
    /// Part of the pipeline's error taxonomy: type inference itself falls
    /// back to plain text rather than fail, and filtering drops unmatched
    /// rows, so the verified steps never raise it.
    TypeInferenceConflict,
    /// A named column is absent from the table.
    UnknownColumn,
}

} // verus!
