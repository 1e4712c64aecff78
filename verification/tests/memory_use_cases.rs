use std::sync::Mutex;
use std::collections::HashMap;

use hail_mary::config::ProjectConfig;
use hail_mary::error::ApplicationError;
use hail_mary::memory_repository::MemoryRepository;
use hail_mary::repository::ProjectRepository;
use hail_mary::use_cases::{
    document_types, generate_document, generate_documents_for, reindex_memories, ReindexStats,
};

#[derive(Debug, Clone, PartialEq)]
struct Memory {
    memory_type: String,
    title: String,
    content: String,
}

fn create_test_memory(memory_type: &str, title: &str, content: &str) -> Memory {
    Memory {
        memory_type: memory_type.to_string(),
        title: title.to_string(),
        content: content.to_string(),
    }
}

#[derive(Default)]
struct MockMemoryRepository {
    by_type: HashMap<String, Vec<Memory>>,
    deleted_count: usize,
    fail_cleanup: bool,
    cleanup_called: bool,
    rebuild_called: bool,
    vacuum_called: bool,
}

impl MockMemoryRepository {
    fn new() -> Self {
        Self::default()
    }

    fn add_memory_by_type(&mut self, memory_type: &str, memory: Memory) {
        self.by_type.entry(memory_type.to_string()).or_default().push(memory);
    }

    fn set_deleted_count(&mut self, count: usize) {
        self.deleted_count = count;
    }

    fn set_fail_cleanup(&mut self, fail: bool) {
        self.fail_cleanup = fail;
    }
}

impl MemoryRepository for MockMemoryRepository {
    type Memory = Memory;

    fn save(&mut self, memory: &Memory) -> Result<(), ApplicationError> {
        self.add_memory_by_type(&memory.memory_type.clone(), memory.clone());
        Ok(())
    }

    fn save_batch(&mut self, memories: &[Memory]) -> Result<(), ApplicationError> {
        for m in memories {
            self.save(m)?;
        }
        Ok(())
    }

    fn find_by_id(&mut self, _id: &uuid::Uuid) -> Result<Option<Memory>, ApplicationError> {
        Ok(None)
    }

    fn search_fts(&mut self, _query: &str, _limit: usize) -> Result<Vec<Memory>, ApplicationError> {
        Ok(Vec::new())
    }

    fn find_by_type(&mut self, memory_type: &str) -> Result<Vec<Memory>, ApplicationError> {
        Ok(self.by_type.get(memory_type).cloned().unwrap_or_default())
    }

    fn find_all(&mut self) -> Result<Vec<Memory>, ApplicationError> {
        Ok(self.by_type.values().flatten().cloned().collect())
    }

    fn increment_reference_count(&mut self, _id: &uuid::Uuid) -> Result<(), ApplicationError> {
        Ok(())
    }

    fn cleanup_deleted(&mut self) -> Result<usize, ApplicationError> {
        self.cleanup_called = true;
        if self.fail_cleanup {
            return Err(ApplicationError::DatabaseError("Cleanup failed".to_string()));
        }
        Ok(self.deleted_count)
    }

    fn rebuild_fts_index(&mut self) -> Result<(), ApplicationError> {
        self.rebuild_called = true;
        Ok(())
    }

    fn vacuum(&mut self) -> Result<(), ApplicationError> {
        self.vacuum_called = true;
        Ok(())
    }
}

struct MockProjectRepository {
    config: Option<ProjectConfig>,
    saved: Mutex<Vec<(String, usize)>>,
}

impl MockProjectRepository {
    fn with_config(config: ProjectConfig) -> Self {
        Self { config: Some(config), saved: Mutex::new(Vec::new()) }
    }

    fn new_without_config() -> Self {
        Self { config: None, saved: Mutex::new(Vec::new()) }
    }
}

impl ProjectRepository for MockProjectRepository {
    type Memory = Memory;

    fn initialize(&self) -> Result<(), ApplicationError> {
        Ok(())
    }

    fn project_exists(&self) -> Result<bool, ApplicationError> {
        Ok(self.config.is_some())
    }

    fn save_config(&self, _config: &ProjectConfig) -> Result<(), ApplicationError> {
        Ok(())
    }

    fn load_config(&self) -> Result<ProjectConfig, ApplicationError> {
        self.config.clone().ok_or(ApplicationError::ProjectNotFound)
    }

    fn update_gitignore(&self) -> Result<(), ApplicationError> {
        Ok(())
    }

    fn create_feature(&self, _name: &str) -> Result<(), ApplicationError> {
        Ok(())
    }

    fn save_document(&self, memory_type: &str, memories: &[Memory]) -> Result<(), ApplicationError> {
        self.saved.lock().unwrap().push((memory_type.to_string(), memories.len()));
        Ok(())
    }

    fn list_spec_directories(&self) -> Result<Vec<(String, bool)>, ApplicationError> {
        Ok(Vec::new())
    }

    fn mark_spec_complete(&self, _name: &str) -> Result<(), ApplicationError> {
        Ok(())
    }
}

#[test]
fn test_generate_document_specific_type() {
    let mut memory_repo = MockMemoryRepository::new();
    let project_repo = MockProjectRepository::with_config(ProjectConfig::default_for_new_project());

    memory_repo.add_memory_by_type(
        "tech",
        create_test_memory("tech", "Rust Ownership", "Rust ownership concept"),
    );
    memory_repo.add_memory_by_type(
        "tech",
        create_test_memory("tech", "Pattern Matching", "Match expressions"),
    );

    let result = generate_document(&mut memory_repo, &project_repo, Some("tech"));

    assert!(result.is_ok());
    let output_path = result.unwrap();
    assert_eq!(output_path, ".kiro/memory");
    assert_eq!(*project_repo.saved.lock().unwrap(), vec![("tech".to_string(), 2)]);
}

#[test]
fn test_generate_document_all_types() {
    let mut memory_repo = MockMemoryRepository::new();
    let project_repo = MockProjectRepository::with_config(ProjectConfig::default_for_new_project());

    memory_repo.add_memory_by_type("tech", create_test_memory("tech", "Rust", "Rust content"));
    memory_repo.add_memory_by_type(
        "project-tech",
        create_test_memory("project-tech", "Project", "Project content"),
    );
    memory_repo.add_memory_by_type(
        "domain",
        create_test_memory("domain", "Business", "Business content"),
    );

    let result = generate_document(&mut memory_repo, &project_repo, None);

    assert!(result.is_ok());
    let saved: Vec<String> = project_repo.saved.lock().unwrap().iter().map(|(t, _)| t.clone()).collect();
    assert_eq!(saved, vec!["tech", "project-tech", "domain", "workflow", "decision"]);
}

#[test]
fn test_generate_document_invalid_memory_type() {
    let mut memory_repo = MockMemoryRepository::new();
    let project_repo = MockProjectRepository::with_config(ProjectConfig::default_for_new_project());

    let result = generate_document(&mut memory_repo, &project_repo, Some("invalid_type"));

    assert!(result.is_err());
    assert!(matches!(result.unwrap_err(), ApplicationError::InvalidMemoryType(_)));
}

#[test]
fn test_generate_document_no_config() {
    let mut memory_repo = MockMemoryRepository::new();
    let project_repo = MockProjectRepository::new_without_config();

    let result = generate_document(&mut memory_repo, &project_repo, Some("tech"));

    assert!(result.is_err());
    assert!(matches!(result.unwrap_err(), ApplicationError::ProjectNotFound));
}

#[test]
fn test_generate_document_empty_memories() {
    let mut memory_repo = MockMemoryRepository::new();
    let project_repo = MockProjectRepository::with_config(ProjectConfig::default_for_new_project());

    let result = generate_document(&mut memory_repo, &project_repo, Some("tech"));

    assert!(result.is_ok());
    let output_path = result.unwrap();
    assert_eq!(output_path, ".kiro/memory");
}

#[test]
fn test_reindex_memories_basic_operation() {
    let mut repo = MockMemoryRepository::new();
    repo.set_deleted_count(5);

    let result = reindex_memories(&mut repo);

    assert!(result.is_ok());
    let stats = result.unwrap();
    assert_eq!(stats.deleted_entries, 5);
    assert!(stats.index_rebuilt);
    assert!(stats.database_optimized);

    assert!(repo.cleanup_called);
    assert!(repo.rebuild_called);
    assert!(repo.vacuum_called);
}

#[test]
fn test_reindex_memories_verbose_mode() {
    let mut repo = MockMemoryRepository::new();
    repo.set_deleted_count(3);

    let result = reindex_memories(&mut repo);

    assert!(result.is_ok());
    let stats = result.unwrap();
    assert_eq!(stats.deleted_entries, 3);
    assert!(stats.index_rebuilt);
    assert!(stats.database_optimized);
}

#[test]
fn test_reindex_memories_no_deleted_entries() {
    let mut repo = MockMemoryRepository::new();
    repo.set_deleted_count(0);

    let result = reindex_memories(&mut repo);

    assert!(result.is_ok());
    let stats = result.unwrap();
    assert_eq!(stats.deleted_entries, 0);
    assert!(stats.index_rebuilt);
    assert!(stats.database_optimized);
}

#[test]
fn test_reindex_memories_cleanup_failure() {
    let mut repo = MockMemoryRepository::new();
    repo.set_fail_cleanup(true);

    let result = reindex_memories(&mut repo);

    assert!(result.is_err());
    if let Err(ApplicationError::DatabaseError(msg)) = result {
        assert_eq!(msg, "Cleanup failed");
    } else {
        panic!("Expected DatabaseError");
    }
    assert!(!repo.rebuild_called);
    assert!(!repo.vacuum_called);
}

#[test]
fn document_types_checks_the_configuration() {
    let config = ProjectConfig::default_for_new_project();
    assert_eq!(document_types(&config, Some("domain")), Ok(vec!["domain".to_string()]));
    assert_eq!(
        document_types(&config, Some("Domain")),
        Err(ApplicationError::InvalidMemoryType("Domain".to_string()))
    );
    assert_eq!(document_types(&config, None).unwrap().len(), 5);
}

#[test]
fn reindex_stats_start_empty() {
    let stats = ReindexStats::default();
    assert_eq!(stats.deleted_entries, 0);
}

#[test]
fn invalid_type_fails_before_the_repositories_are_asked() {
    let config = ProjectConfig::default_for_new_project();
    let mut memory_repo = MockMemoryRepository::new();
    memory_repo.add_memory_by_type("tech", create_test_memory("tech", "T", "C"));
    let project_repo = MockProjectRepository::with_config(config.clone());
    let result = generate_documents_for(&config, &mut memory_repo, &project_repo, Some("nope"));
    assert_eq!(result, Err(ApplicationError::InvalidMemoryType("nope".to_string())));
    assert!(project_repo.saved.lock().unwrap().is_empty());
    let result = generate_documents_for(&config, &mut memory_repo, &project_repo, Some("tech"));
    assert_eq!(result, Ok(".kiro/memory".to_string()));
    assert_eq!(*project_repo.saved.lock().unwrap(), vec![("tech".to_string(), 1)]);
}

#[test]
fn no_configured_type_writes_nothing_and_succeeds() {
    let mut config = ProjectConfig::default_for_new_project();
    config.memory_types.clear();
    let mut memory_repo = MockMemoryRepository::new();
    let project_repo = MockProjectRepository::with_config(config.clone());
    let result = generate_documents_for(&config, &mut memory_repo, &project_repo, None);
    assert_eq!(result, Ok(".kiro/memory".to_string()));
    assert!(project_repo.saved.lock().unwrap().is_empty());
}

#[test]
fn reindex_stats_record_the_removed_count() {
    let stats = hail_mary::use_cases::reindex_stats(5);
    assert_eq!(stats.deleted_entries, 5);
    assert!(stats.index_rebuilt);
    assert!(stats.database_optimized);
}
