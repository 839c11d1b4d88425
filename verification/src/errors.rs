//! The typed failures of the capture engine.

use vstd::prelude::*;

verus! {

/// Every operation of the engine returns either a value or one of these.
///
/// - `EnumerationFailed`: the host could not list monitors or windows;
///   the payload carries the underlying error text.
/// - `NotFound`: no monitor or window matches the given name or point;
///   the payload names the query and, where available, the candidates.
/// - `CaptureFailed`: a resolved target refused the capture; the payload
///   carries the underlying error text.
/// - `OutOfBounds`: a crop rectangle exceeds the source surface.
#[derive(Debug)]
pub enum CaptureError {
    EnumerationFailed(String),
    NotFound(String),
    CaptureFailed(String),
    OutOfBounds,
}

impl CaptureError {
    /// A human-readable description of the failure.
    pub fn message(&self) -> (r: String)
        ensures
            self is OutOfBounds ==> r@ == "requested rectangle exceeds the captured surface"@,
            self matches CaptureError::EnumerationFailed(s) ==> r@ == s@,
            self matches CaptureError::NotFound(s) ==> r@ == s@,
            self matches CaptureError::CaptureFailed(s) ==> r@ == s@,
    {
        match self {
            CaptureError::EnumerationFailed(s) => s.clone(),
            CaptureError::NotFound(s) => s.clone(),
            CaptureError::CaptureFailed(s) => s.clone(),
            CaptureError::OutOfBounds => "requested rectangle exceeds the captured surface".to_owned(),
        }
    }
}

} // verus!
