//! The failures that the engine reports.

use vstd::prelude::*;

verus! {

/// Why a synchronisation did not complete.
#[derive(Debug, PartialEq, Eq)]
pub enum MigrationError {
    /// The migration list is unusable: `version` is below one, or it occurs
    /// again at a later place in the list.
    ConfigurationError { version: i64 },
    /// The store could not be opened, or its ledger could not be reached.
    StorageAccessError { cause: String },
    /// The transaction of migration `version` failed and was rolled back.
    MigrationExecutionError { version: i64, cause: String },
    /// The ledger lacks the structure the engine expects of it.
    LedgerCorruptionError { cause: String },
}

/// The mathematical value of a [`MigrationError`].
pub enum Fault {
    Configuration { version: i64 },
    StorageAccess { cause: Seq<char> },
    MigrationExecution { version: i64, cause: Seq<char> },
    LedgerCorruption { cause: Seq<char> },
}

impl View for MigrationError {
    type V = Fault;

    open spec fn view(&self) -> Fault {
        match *self {
            MigrationError::ConfigurationError { version } => Fault::Configuration { version },
            MigrationError::StorageAccessError { cause } => Fault::StorageAccess { cause: cause@ },
            MigrationError::MigrationExecutionError {
                version,
                cause,
            } => Fault::MigrationExecution { version, cause: cause@ },
            MigrationError::LedgerCorruptionError { cause } => Fault::LedgerCorruption {
                cause: cause@,
            },
        }
    }
}

impl MigrationError {
    /// A second error with the same content.
    pub fn duplicate(&self) -> (copy: MigrationError)
        ensures
            copy@ == self@,
    {
        match self {
            MigrationError::ConfigurationError { version } => MigrationError::ConfigurationError {
                version: *version,
            },
            MigrationError::StorageAccessError { cause } => MigrationError::StorageAccessError {
                cause: cause.clone(),
            },
            MigrationError::MigrationExecutionError {
                version,
                cause,
            } => MigrationError::MigrationExecutionError {
                version: *version,
                cause: cause.clone(),
            },
            MigrationError::LedgerCorruptionError {
                cause,
            } => MigrationError::LedgerCorruptionError { cause: cause.clone() },
        }
    }
}

} // verus!
