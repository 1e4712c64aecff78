use hail_mary::config::ProjectConfig;
use hail_mary::error::ApplicationError;
use hail_mary::repository::ProjectRepository;

#[derive(Debug, Default)]
struct MockProjectRepository {
    initialized: bool,
}

impl MockProjectRepository {
    fn new() -> Self {
        Self::default()
    }

    fn set_initialized(&mut self, initialized: bool) {
        self.initialized = initialized;
    }
}

impl ProjectRepository for MockProjectRepository {
    type Memory = ();

    fn initialize(&self) -> Result<(), ApplicationError> {
        Ok(())
    }

    fn project_exists(&self) -> Result<bool, ApplicationError> {
        Ok(self.initialized)
    }

    fn save_config(&self, _config: &ProjectConfig) -> Result<(), ApplicationError> {
        Ok(())
    }

    fn load_config(&self) -> Result<ProjectConfig, ApplicationError> {
        Ok(ProjectConfig::default_for_new_project())
    }

    fn update_gitignore(&self) -> Result<(), ApplicationError> {
        Ok(())
    }

    fn create_feature(&self, _name: &str) -> Result<(), ApplicationError> {
        Ok(())
    }

    fn save_document(&self, _memory_type: &str, _memories: &[()]) -> Result<(), ApplicationError> {
        Ok(())
    }

    fn list_spec_directories(&self) -> Result<Vec<(String, bool)>, ApplicationError> {
        Ok(Vec::new())
    }

    fn mark_spec_complete(&self, _name: &str) -> Result<(), ApplicationError> {
        Ok(())
    }
}

#[test]
fn test_project_repository_exists() {
    let mut repo = MockProjectRepository::new();

    let exists = repo.project_exists().unwrap();
    assert!(!exists);

    repo.set_initialized(true);
    let exists = repo.project_exists().unwrap();
    assert!(exists);
}

#[test]
fn test_project_config_validate_memory_type() {
    let config = ProjectConfig::default_for_new_project();

    assert!(config.validate_memory_type("tech"));
    assert!(config.validate_memory_type("project-tech"));
    assert!(config.validate_memory_type("domain"));
    assert!(config.validate_memory_type("workflow"));
    assert!(config.validate_memory_type("decision"));

    assert!(!config.validate_memory_type("invalid"));
    assert!(!config.validate_memory_type(""));
    assert!(!config.validate_memory_type("TECH"));
}

#[test]
fn default_config_has_the_five_types_in_order() {
    let config = ProjectConfig::default_for_new_project();
    assert_eq!(
        config.memory_types,
        vec!["tech", "project-tech", "domain", "workflow", "decision"]
    );
}

#[test]
fn new_project_instructions() {
    let config = ProjectConfig::default_for_new_project();
    assert_eq!(
        config.instructions,
        "Record technical knowledge, project decisions and domain insights as memories."
    );
}
