//! The storage of memories that the memory use cases work against.

use vstd::prelude::*;
use crate::error::ApplicationError;

verus! {

#[verifier::external_type_specification]
#[verifier::external_body]
pub struct ExUuid(uuid::Uuid);

/// Where memories are kept. Implementations decide every outcome; the use
/// cases only sequence the calls and pass the errors on.
pub trait MemoryRepository: Send + Sync {
    /// The memory entries kept.
    type Memory;

    /// Stores one memory, replacing the one with its id.
    fn save(&mut self, memory: &Self::Memory) -> Result<(), ApplicationError>;

    /// Stores several memories at once.
    fn save_batch(&mut self, memories: &[Self::Memory]) -> Result<(), ApplicationError>;

    /// The memory with this id, unless it is deleted or missing.
    fn find_by_id(&mut self, id: &uuid::Uuid) -> Result<Option<Self::Memory>, ApplicationError>;

    /// Full-text search, best matches first, at most `limit` of them.
    fn search_fts(&mut self, query: &str, limit: usize) -> Result<Vec<Self::Memory>, ApplicationError>;

    /// The memories of one type that are not deleted, newest first.
    fn find_by_type(&mut self, memory_type: &str) -> Result<Vec<Self::Memory>, ApplicationError>;

    /// All memories that are not deleted, newest first.
    fn find_all(&mut self) -> Result<Vec<Self::Memory>, ApplicationError>;

    /// Counts one more reading of the memory and notes when it happened.
    fn increment_reference_count(&mut self, id: &uuid::Uuid) -> Result<(), ApplicationError>;

    /// Removes the memories marked deleted and says how many there were.
    fn cleanup_deleted(&mut self) -> Result<usize, ApplicationError>;

    /// Rebuilds the full-text index from the memories.
    fn rebuild_fts_index(&mut self) -> Result<(), ApplicationError>;

    /// Compacts the database.
    fn vacuum(&mut self) -> Result<(), ApplicationError>;
}

} // verus!
