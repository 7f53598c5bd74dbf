use vstd::prelude::*;

verus! {

/// An error answered with an HTTP status and a message.
#[derive(Debug, PartialEq)]
pub struct AppError {
    pub status: u16,
    pub message: String,
}

impl AppError {
    /// An error with `status` and `message`.
    pub fn new(status: u16, message: &str) -> (e: AppError)
        ensures
            e.status == status,
            e.message@ == message@,
    {
        AppError { status, message: message.to_owned() }
    }
}

/// The error is `status` with `message`.
pub open spec fn is_error(e: AppError, status: u16, message: Seq<char>) -> bool {
    e.status == status && e.message@ == message
}

} // verus!
