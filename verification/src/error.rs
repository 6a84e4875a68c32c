//! The errors of the library.
use vstd::prelude::*;
use vstd::string::*;

verus! {

/// What can go wrong.
#[derive(Debug)]
pub enum FeriteError {
    /// A setting or a request that breaks a rule.
    Config(String),
    /// A DNS message that cannot be used.
    Dns(String),
    /// A domain map that cannot be built or opened.
    Fst(String),
    /// A fault of the program or the machine.
    Internal(String),
    /// Text that is not the JSON that was expected.
    Json(String),
    /// Something asked for that is not there.
    NotFound(String),
    /// Too many attempts.
    RateLimited,
    /// A request without valid credentials.
    Unauthorized,
    /// An update that cannot be applied.
    Update(String),
}

/// The result of a library function.
pub type Result<T> = core::result::Result<T, FeriteError>;

/// The error is a `Config` error with this message.
pub open spec fn config_error(e: FeriteError, message: Seq<char>) -> bool {
    e matches FeriteError::Config(m) && m@ == message
}

}
