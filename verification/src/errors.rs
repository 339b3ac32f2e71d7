//! The error kinds that every operation of the crate can surface.

use vstd::prelude::*;

verus! {

/// Why an operation failed.
///
/// `InvalidRootPath` covers a scan root that cannot be resolved and any
/// read or write attempted before a scan ever completed; `PathNotAllowed`
/// a candidate path outside the sandbox; `ScanCanceled` a scan stopped by
/// the cancellation signal; `IoError` any underlying filesystem failure,
/// with an opaque diagnostic string.
#[derive(Clone, Debug)]
pub enum AppError {
    InvalidRootPath,
    PathNotAllowed,
    ScanCanceled,
    IoError(String),
}

impl AppError {
    /// A short, fixed description of the error kind.
    pub fn kind_message(&self) -> (r: &'static str)
        ensures
            self is InvalidRootPath ==> r@ == "Invalid root path"@,
            self is PathNotAllowed ==> r@ == "Path not allowed"@,
            self is ScanCanceled ==> r@ == "Scan canceled"@,
            self is IoError ==> r@ == "IO error"@,
    {
        match self {
            AppError::InvalidRootPath => "Invalid root path",
            AppError::PathNotAllowed => "Path not allowed",
            AppError::ScanCanceled => "Scan canceled",
            AppError::IoError(_) => "IO error",
        }
    }
}

} // verus!
