use vstd::prelude::*;

verus! {

/// Failures the engine reports to its callers. Each carries a
/// machine-readable kind; the string variants also carry a message.
/// `Internal` stands for opaque storage-layer failure, reported without
/// detail.
#[derive(Debug)]
pub enum AppError {
    BadRequest(String),
    Unauthorized,
    Forbidden,
    NotFound,
    Conflict(String),
    UnprocessableEntity(String),
    Internal,
}

pub type AppResult<T> = Result<T, AppError>;

} // verus!
