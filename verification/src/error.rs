//! The unified error type of the indexing core. Failures that arise in the
//! surrounding application (the version-control backend, the database, the
//! I/O layer) are carried as their rendered messages.

use vstd::prelude::*;

verus! {

/// Every failure the core or its collaborators can report.
#[derive(Debug, Clone, PartialEq)]
pub enum GitxError {
    /// A version-control operation failed.
    Git(String),
    /// A database operation failed.
    Sqlx(String),
    /// An input/output operation failed.
    Io(String),
    /// Encoding or decoding a cached value failed.
    Serialization(String),
    /// No repository row matches the given identity.
    RepositoryNotFound(String),
    /// No commit row matches the given identity.
    CommitNotFound(String),
    /// A ref did not resolve.
    ReferenceNotFound(String),
    /// A path is not usable.
    InvalidPath(String),
    /// An object identifier is not usable.
    InvalidOid(String),
    /// A ref exists but has no usable target.
    InvalidRef,
    /// The configuration is not usable.
    Config(String),
    /// A value could not be parsed.
    Parse(String),
    /// Any other failure.
    Internal(String),
}

impl GitxError {
    /// The HTTP status class a response layer reports for this failure:
    /// 404 for a missing entity, 400 for an unusable input, 500 otherwise.
    pub fn status_code(&self) -> (r: u16)
        ensures
            r == self.spec_status_code(),
    {
        match self {
            GitxError::RepositoryNotFound(_) => 404,
            GitxError::CommitNotFound(_) => 404,
            GitxError::ReferenceNotFound(_) => 404,
            GitxError::InvalidPath(_) => 400,
            GitxError::InvalidOid(_) => 400,
            _ => 500,
        }
    }

    pub open spec fn spec_status_code(&self) -> u16 {
        match self {
            GitxError::RepositoryNotFound(_) => 404,
            GitxError::CommitNotFound(_) => 404,
            GitxError::ReferenceNotFound(_) => 404,
            GitxError::InvalidPath(_) => 400,
            GitxError::InvalidOid(_) => 400,
            _ => 500,
        }
    }
}

impl From<String> for GitxError {
    /// A bare string names a configuration problem.
    fn from(s: String) -> (r: Self) {
        GitxError::Config(s)
    }
}

impl vstd::std_specs::convert::FromSpecImpl<String> for GitxError {
    open spec fn obeys_from_spec() -> bool {
        true
    }

    open spec fn from_spec(s: String) -> Self {
        GitxError::Config(s)
    }
}

} // verus!
