//! Errors are values: each failure site constructs an `ErrorModel` with a
//! stable kind tag and a human message, and the kind alone determines the
//! HTTP status code of the envelope.

use vstd::prelude::*;

verus! {

/// Stable tags for every failure the catalog core can report.
#[derive(Debug, Clone, Copy, PartialEq, Eq, Structural)]
pub enum ErrorKind {
    /// A batch resolve was asked for more identifiers than the parameter budget allows.
    TooManyTables,
    /// A commit transaction carries more changes than the parameter budget allows.
    TooManyTablesForCommit,
    /// A change in a commit transaction has no table identifier.
    TableIdentifierRequired,
    /// A change's identifier is missing from the caller-supplied resolution map.
    TableIdentifierNotFound,
    /// The table does not exist (or is staged and the caller did not opt in).
    NoSuchTableError,
    /// The table exists but is staged and the caller did not opt in.
    TableStaged,
    /// A committed table already occupies the requested (namespace, name).
    TableAlreadyExists,
    /// Another row already bears the requested table id.
    TableIdAlreadyExists,
    /// A create request carried no `location`.
    CreateTableLocationRequired,
    /// The namespace addressed by a create does not exist under an active warehouse.
    WarehouseInactive,
    /// Same-namespace rename: no row with the given table id under an active warehouse.
    RenameTableIdNotFound,
    /// Cross-namespace rename: source row or destination namespace missing.
    RenameTableIdOrNamespaceNotFound,
    /// A commit requirement did not hold against the current metadata.
    RequirementFailed,
    /// An `AssignUuid` update named a UUID other than the current one.
    AssignUuidNotAllowed,
    /// A `SetLocation` update named a location other than the current one.
    SetLocationNotAllowed,
    /// The bulk update touched a different number of rows than the commit has changes.
    CommitTableUpdateError,
    /// A warehouse with this name already exists in the project.
    WarehouseNameAlreadyExists,
    /// A warehouse with this id already exists.
    WarehouseIdAlreadyExists,
    /// No warehouse with the given id.
    WarehouseNotFound,
    /// A namespace with this name already exists in the warehouse.
    NamespaceAlreadyExists,
    /// Another namespace already bears the requested id.
    NamespaceIdAlreadyExists,
    /// No namespace with the given name under an active warehouse.
    NamespaceNotFound,
    /// A namespace can only be dropped once it holds no tables.
    NamespaceNotEmpty,
    /// A namespace name could not be parsed from its vector form.
    NamespaceParseError,
}

impl ErrorKind {
    /// The HTTP status code of the error envelope, a function of the kind alone.
    pub open spec fn spec_code(self) -> u16 {
        match self {
            ErrorKind::TooManyTables => 400,
            ErrorKind::TooManyTablesForCommit => 400,
            ErrorKind::TableIdentifierRequired => 400,
            ErrorKind::TableIdentifierNotFound => 400,
            ErrorKind::NoSuchTableError => 404,
            ErrorKind::TableStaged => 404,
            ErrorKind::TableAlreadyExists => 409,
            ErrorKind::TableIdAlreadyExists => 409,
            ErrorKind::CreateTableLocationRequired => 409,
            ErrorKind::WarehouseInactive => 404,
            ErrorKind::RenameTableIdNotFound => 404,
            ErrorKind::RenameTableIdOrNamespaceNotFound => 404,
            ErrorKind::RequirementFailed => 409,
            ErrorKind::AssignUuidNotAllowed => 400,
            ErrorKind::SetLocationNotAllowed => 400,
            ErrorKind::CommitTableUpdateError => 500,
            ErrorKind::WarehouseNameAlreadyExists => 409,
            ErrorKind::WarehouseIdAlreadyExists => 409,
            ErrorKind::WarehouseNotFound => 404,
            ErrorKind::NamespaceAlreadyExists => 409,
            ErrorKind::NamespaceIdAlreadyExists => 409,
            ErrorKind::NamespaceNotFound => 404,
            ErrorKind::NamespaceNotEmpty => 409,
            ErrorKind::NamespaceParseError => 500,
        }
    }

    pub fn code(&self) -> (r: u16)
        ensures
            r == self.spec_code(),
    {
        match self {
            ErrorKind::TooManyTables => 400,
            ErrorKind::TooManyTablesForCommit => 400,
            ErrorKind::TableIdentifierRequired => 400,
            ErrorKind::TableIdentifierNotFound => 400,
            ErrorKind::NoSuchTableError => 404,
            ErrorKind::TableStaged => 404,
            ErrorKind::TableAlreadyExists => 409,
            ErrorKind::TableIdAlreadyExists => 409,
            ErrorKind::CreateTableLocationRequired => 409,
            ErrorKind::WarehouseInactive => 404,
            ErrorKind::RenameTableIdNotFound => 404,
            ErrorKind::RenameTableIdOrNamespaceNotFound => 404,
            ErrorKind::RequirementFailed => 409,
            ErrorKind::AssignUuidNotAllowed => 400,
            ErrorKind::SetLocationNotAllowed => 400,
            ErrorKind::CommitTableUpdateError => 500,
            ErrorKind::WarehouseNameAlreadyExists => 409,
            ErrorKind::WarehouseIdAlreadyExists => 409,
            ErrorKind::WarehouseNotFound => 404,
            ErrorKind::NamespaceAlreadyExists => 409,
            ErrorKind::NamespaceIdAlreadyExists => 409,
            ErrorKind::NamespaceNotFound => 404,
            ErrorKind::NamespaceNotEmpty => 409,
            ErrorKind::NamespaceParseError => 500,
        }
    }
}

/// The error envelope surfaced at the HTTP boundary.
#[derive(Debug, Clone)]
pub struct ErrorModel {
    pub kind: ErrorKind,
    pub message: String,
}

impl ErrorModel {
    pub fn new(kind: ErrorKind, message: String) -> (r: Self)
        ensures
            r.kind == kind,
            r.message@ == message@,
    {
        ErrorModel { kind, message }
    }

    pub fn code(&self) -> (r: u16)
        ensures
            r == self.kind.spec_code(),
    {
        self.kind.code()
    }
}

/// Every catalog operation reports failure through the shared envelope.
pub type CatalogResult<T> = Result<T, ErrorModel>;

} // verus!
