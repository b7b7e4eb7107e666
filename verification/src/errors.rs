//! Errors of the catalogue's operations.
use vstd::prelude::*;

verus! {

/// A failure of the underlying table store, as a relational database would
/// report it.
#[derive(Clone, Copy, Debug, PartialEq, Eq, Structural)]
pub enum DbError {
    /// No row has the requested key.
    NotFound,
    /// A row with the same unique key (a name, or a link's key) exists.
    UniqueViolation,
    /// The row is still referenced by another row.
    ForeignKeyViolation,
    /// No identifier is left for a new row.
    IdExhausted,
    /// A counter would leave the range of `i32`.
    CounterOverflow,
}

/// The errors that the catalogue's operations report.
#[derive(Clone, Debug)]
pub enum AppError {
    GroupNotFound,
    CreateGroupFailed(String),
    DeleteGroupFailed(String),
    FileNotFound,
    CreateFileFailed(String),
    DeleteFileFailed(String),
    TagNotFound,
    CreateTagFailed(String),
    DeleteTagFailed(String),
    GroupTagNotFound,
    CreateGroupTagFailed(String),
    DeleteGroupTagFailed(String),
    FileGroupNotFound,
    CreateFileGroupFailed(String),
    DeleteFileGroupFailed(String),
    /// A file may not be linked to a group that is already some file's primary group.
    CannotBindToPrimaryGroup,
    /// The link between a file and its primary group may not be removed.
    CannotUnbindPrimaryGroup,
    /// A group that becomes a primary group must have no links and no children.
    FuturePrimaryGroupShouldBeEmpty,
    /// The relation would be rejected as cyclic.
    GroupRelationCycleDetected,
    /// The same relation exists already.
    GroupRelationAlreadyExists,
    /// A primary group may not be a parent.
    PrimaryGroupCannotBeParent,
    /// The primary flag is maintained by the catalogue itself.
    CannotModifyPrimaryStatus,
    /// Reference counts are maintained by the catalogue itself.
    CannotModifyReferenceCount,
    /// Identifiers are handed out by the catalogue itself.
    CannotModifyId,
    ValidationError(String),
    /// A failure of the table store.
    DatabaseError(DbError),
}

impl AppError {
    /// A stable number for each kind of error.
    pub fn code(&self) -> (r: u32)
        ensures
            r == self.spec_code(),
    {
        match self {
            AppError::GroupNotFound => 1001,
            AppError::CreateGroupFailed(_) => 1002,
            AppError::DeleteGroupFailed(_) => 1003,
            AppError::FileNotFound => 2001,
            AppError::CreateFileFailed(_) => 2002,
            AppError::DeleteFileFailed(_) => 2003,
            AppError::TagNotFound => 3001,
            AppError::CreateTagFailed(_) => 3002,
            AppError::DeleteTagFailed(_) => 3003,
            AppError::GroupTagNotFound => 4001,
            AppError::CreateGroupTagFailed(_) => 4002,
            AppError::DeleteGroupTagFailed(_) => 4003,
            AppError::FileGroupNotFound => 5001,
            AppError::CreateFileGroupFailed(_) => 5002,
            AppError::DeleteFileGroupFailed(_) => 5003,
            AppError::CannotBindToPrimaryGroup => 5004,
            AppError::CannotUnbindPrimaryGroup => 5005,
            AppError::FuturePrimaryGroupShouldBeEmpty => 5006,
            AppError::GroupRelationCycleDetected => 6001,
            AppError::GroupRelationAlreadyExists => 6002,
            AppError::PrimaryGroupCannotBeParent => 6003,
            AppError::CannotModifyPrimaryStatus => 7001,
            AppError::CannotModifyReferenceCount => 7002,
            AppError::CannotModifyId => 7003,
            AppError::ValidationError(_) => 8001,
            AppError::DatabaseError(_) => 9001,
        }
    }

    pub open spec fn spec_code(&self) -> u32 {
        match self {
            AppError::GroupNotFound => 1001,
            AppError::CreateGroupFailed(_) => 1002,
            AppError::DeleteGroupFailed(_) => 1003,
            AppError::FileNotFound => 2001,
            AppError::CreateFileFailed(_) => 2002,
            AppError::DeleteFileFailed(_) => 2003,
            AppError::TagNotFound => 3001,
            AppError::CreateTagFailed(_) => 3002,
            AppError::DeleteTagFailed(_) => 3003,
            AppError::GroupTagNotFound => 4001,
            AppError::CreateGroupTagFailed(_) => 4002,
            AppError::DeleteGroupTagFailed(_) => 4003,
            AppError::FileGroupNotFound => 5001,
            AppError::CreateFileGroupFailed(_) => 5002,
            AppError::DeleteFileGroupFailed(_) => 5003,
            AppError::CannotBindToPrimaryGroup => 5004,
            AppError::CannotUnbindPrimaryGroup => 5005,
            AppError::FuturePrimaryGroupShouldBeEmpty => 5006,
            AppError::GroupRelationCycleDetected => 6001,
            AppError::GroupRelationAlreadyExists => 6002,
            AppError::PrimaryGroupCannotBeParent => 6003,
            AppError::CannotModifyPrimaryStatus => 7001,
            AppError::CannotModifyReferenceCount => 7002,
            AppError::CannotModifyId => 7003,
            AppError::ValidationError(_) => 8001,
            AppError::DatabaseError(_) => 9001,
        }
    }
}

} // verus!
