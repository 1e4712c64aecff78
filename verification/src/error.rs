//! Errors of the project and memory use cases.

use vstd::prelude::*;

verus! {

/// Everything that can go wrong in a use case, with the detail it carries.
#[derive(Debug, Clone, PartialEq, Eq)]
pub enum ApplicationError {
    /// No project root was found.
    ProjectNotFound,
    /// The project is already initialized and no force was asked for.
    ProjectAlreadyExists,
    /// Creating the project structure failed.
    ProjectInitializationError(String),
    /// A file system operation failed.
    FileSystemError(String),
    /// The configuration could not be written or read.
    ConfigurationError(String),
    /// A feature name is not in kebab case.
    InvalidFeatureName(String),
    /// A feature with this name already exists.
    FeatureAlreadyExists(String),
    /// Creating a feature failed.
    FeatureCreationError(String),
    /// Writing a memory document failed.
    DocumentGenerationError(String),
    /// A memory type is not among the configured ones.
    InvalidMemoryType(String),
    /// The memory database reported an error.
    DatabaseError(String),
    /// No specification of this name exists.
    SpecNotFound(String),
    /// The specification path is not a directory.
    InvalidSpecDirectory(String),
    /// The archive already holds a specification of this name.
    ArchiveAlreadyExists(String),
}

} // verus!
