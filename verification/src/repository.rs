//! The storage a project's use cases work against.

use vstd::prelude::*;
use crate::config::ProjectConfig;
use crate::error::ApplicationError;

verus! {

/// Where a project keeps its structure, configuration, feature
/// specifications and memory documents. Implementations decide every
/// outcome; the use cases only sequence the calls and pass the errors on.
pub trait ProjectRepository: Send + Sync {
    /// The memory entries a document is written from.
    type Memory;

    /// Creates the project's directory structure.
    fn initialize(&self) -> Result<(), ApplicationError>;

    /// Whether the project is already initialized.
    fn project_exists(&self) -> Result<bool, ApplicationError>;

    /// Writes the configuration.
    fn save_config(&self, config: &ProjectConfig) -> Result<(), ApplicationError>;

    /// Reads the configuration.
    fn load_config(&self) -> Result<ProjectConfig, ApplicationError>;

    /// Adds the database entries to the ignore file of the version control.
    fn update_gitignore(&self) -> Result<(), ApplicationError>;

    /// Creates the specification directory of a feature.
    fn create_feature(&self, name: &str) -> Result<(), ApplicationError>;

    /// Writes the document of one memory type.
    fn save_document(&self, memory_type: &str, memories: &[Self::Memory]) -> Result<
        (),
        ApplicationError,
    >;

    /// Lists the specification directories as (name, is archived) pairs.
    fn list_spec_directories(&self) -> Result<Vec<(String, bool)>, ApplicationError>;

    /// Marks a specification complete by moving it to the archive.
    fn mark_spec_complete(&self, name: &str) -> Result<(), ApplicationError>;
}

} // verus!
