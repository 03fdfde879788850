use vstd::prelude::*;

verus! {

/// The error kinds a store operation can report.
///
/// `Io` and `Json` carry a plain message supplied by the caller that performs
/// the actual file access; the in-memory operations themselves only ever
/// produce `TaskNotFound` and `InvalidDate`.
#[derive(Debug)]
pub enum TodoError {
    Io(String),
    Json(String),
    TaskNotFound(u64),
    InvalidDate(String),
}

} // verus!
