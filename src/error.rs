use vstd::prelude::*;

verus! {

/// Failure categories surfaced by the library.
#[derive(Debug, Clone, Copy, PartialEq, Eq, Structural)]
pub enum Ex {
    InvalidUsername,
    InvalidFilename,
    InvalidTimestamp,
    FileExists,
    UserExists,
    UserNotFound,
    InvalidCredentials,
    PageNotFound,
    PageAlreadyExists,
    PermissionDenied,
    InvalidInvite,
    CannotInviteSelf,
    DatabaseError,
    DatabaseTableError,
    DatabaseCommitError,
    DatabaseStorageError,
    DatabaseTransactionError,
    DataEncodingError,
    TemplateRenderingError,
    InternalServerError,
}

/// Result type of the library's fallible operations.
pub type Result<T> = core::result::Result<T, Ex>;

} // verus!
