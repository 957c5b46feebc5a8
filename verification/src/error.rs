use vstd::prelude::*;
use vstd::string::StrSliceExecFns;
use vstd::string::StringExecFns;

verus! {

/// Error value used across the library: a stable machine-readable code and a
/// human-readable message, as surfaced to the operator and to sync peers.
#[derive(Debug)]
pub struct AppError {
    pub code: String,
    pub message: String,
}

impl AppError {
    /// Build an error from a code and a message.
    pub fn new(code: &str, message: &str) -> (r: AppError)
        ensures
            r.code@ == code@,
            r.message@ == message@,
    {
        AppError { code: code.to_owned(), message: message.to_owned() }
    }

    /// Rendering used where the error is shown to an operator.
    pub fn display_string(&self) -> (r: String)
        ensures
            r@ == self.code@ + ": "@ + self.message@,
    {
        let mut s = self.code.clone();
        s.append(": ");
        s.append(self.message.as_str());
        s
    }
}

} // verus!
