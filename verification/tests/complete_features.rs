use std::sync::Mutex;

use hail_mary::config::ProjectConfig;
use hail_mary::error::ApplicationError;
use hail_mary::repository::ProjectRepository;
use hail_mary::use_cases::complete_features;

/// Holds the active specifications and records those marked complete.
struct ArchiveRepository {
    active: Mutex<Vec<String>>,
    archived: Mutex<Vec<String>>,
}

impl ArchiveRepository {
    fn with_specs(names: &[&str]) -> Self {
        ArchiveRepository {
            active: Mutex::new(names.iter().map(|n| n.to_string()).collect()),
            archived: Mutex::new(Vec::new()),
        }
    }
}

impl ProjectRepository for ArchiveRepository {
    type Memory = ();

    fn initialize(&self) -> Result<(), ApplicationError> {
        Ok(())
    }

    fn project_exists(&self) -> Result<bool, ApplicationError> {
        Ok(true)
    }

    fn save_config(&self, _config: &ProjectConfig) -> Result<(), ApplicationError> {
        Ok(())
    }

    fn load_config(&self) -> Result<ProjectConfig, ApplicationError> {
        Ok(ProjectConfig::default_for_new_project())
    }

    fn update_gitignore(&self) -> Result<(), ApplicationError> {
        Ok(())
    }

    fn create_feature(&self, _name: &str) -> Result<(), ApplicationError> {
        Ok(())
    }

    fn save_document(&self, _memory_type: &str, _memories: &[()]) -> Result<(), ApplicationError> {
        Ok(())
    }

    fn list_spec_directories(&self) -> Result<Vec<(String, bool)>, ApplicationError> {
        Ok(Vec::new())
    }

    fn mark_spec_complete(&self, name: &str) -> Result<(), ApplicationError> {
        let mut active = self.active.lock().unwrap();
        match active.iter().position(|n| n == name) {
            Some(i) => {
                active.remove(i);
                self.archived.lock().unwrap().push(name.to_string());
                Ok(())
            }
            None => Err(ApplicationError::SpecNotFound(name.to_string())),
        }
    }
}

#[test]
fn completing_one_feature_archives_it() {
    let repo = ArchiveRepository::with_specs(&["2025-01-01-feature-a", "2025-01-02-feature-b"]);
    let result = complete_features(&repo, &["2025-01-01-feature-a".to_string()]);
    assert!(result.is_ok());
    assert_eq!(*repo.archived.lock().unwrap(), vec!["2025-01-01-feature-a"]);
    assert_eq!(*repo.active.lock().unwrap(), vec!["2025-01-02-feature-b"]);
}

#[test]
fn completing_several_features_archives_each_in_order() {
    let repo = ArchiveRepository::with_specs(&["2025-01-01-feature-a", "2025-01-02-feature-b"]);
    let result = complete_features(
        &repo,
        &[
            "2025-01-02-feature-b".to_string(),
            "2025-01-01-feature-a".to_string(),
        ],
    );
    assert!(result.is_ok());
    assert_eq!(
        *repo.archived.lock().unwrap(),
        vec!["2025-01-02-feature-b", "2025-01-01-feature-a"]
    );
    assert!(repo.active.lock().unwrap().is_empty());
}

#[test]
fn completion_stops_at_the_first_error() {
    let repo = ArchiveRepository::with_specs(&["a", "c"]);
    let result = complete_features(&repo, &["a".to_string(), "b".to_string(), "c".to_string()]);
    assert_eq!(result, Err(ApplicationError::SpecNotFound("b".to_string())));
    assert_eq!(*repo.archived.lock().unwrap(), vec!["a"]);
    assert_eq!(*repo.active.lock().unwrap(), vec!["c"]);
}

#[test]
fn completing_nothing_succeeds() {
    let repo = ArchiveRepository::with_specs(&["a"]);
    assert!(complete_features(&repo, &[]).is_ok());
    assert!(repo.archived.lock().unwrap().is_empty());
}
