//! The uniform application error: a single kind wrapping a message.

use vstd::prelude::*;

verus! {

/// The one error shape that every non-domain failure is normalized into
/// before it crosses into the dispatch layer.
#[derive(Debug)]
pub struct AppError {
    pub message: String,
}

impl AppError {
    /// Wraps a descriptive message in the uniform error.
    pub fn new(message: String) -> (r: AppError)
        ensures
            r.message@ == message@,
    {
        AppError { message }
    }
}

impl Clone for AppError {
    fn clone(&self) -> (r: Self)
        ensures
            r.message@ == self.message@,
    {
        AppError { message: self.message.clone() }
    }
}

} // verus!
