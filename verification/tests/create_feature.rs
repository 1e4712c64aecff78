use hail_mary::config::ProjectConfig;
use hail_mary::error::ApplicationError;
use hail_mary::repository::ProjectRepository;
use hail_mary::use_cases::{create_feature, feature_creation_result};

#[derive(Debug, Default)]
struct MockProjectRepository {
    should_fail_operation: Option<String>,
}

impl ProjectRepository for MockProjectRepository {
    type Memory = ();

    fn initialize(&self) -> Result<(), ApplicationError> {
        Ok(())
    }

    fn project_exists(&self) -> Result<bool, ApplicationError> {
        Ok(false)
    }

    fn save_config(&self, _config: &ProjectConfig) -> Result<(), ApplicationError> {
        Ok(())
    }

    fn load_config(&self) -> Result<ProjectConfig, ApplicationError> {
        Ok(ProjectConfig::default_for_new_project())
    }

    fn update_gitignore(&self) -> Result<(), ApplicationError> {
        Ok(())
    }

    fn create_feature(&self, name: &str) -> Result<(), ApplicationError> {
        if let Some(ref fail_op) = self.should_fail_operation {
            if fail_op == "create_feature" {
                return Err(ApplicationError::FeatureCreationError(format!(
                    "Mock creation failure for: {}",
                    name
                )));
            }
        }
        Ok(())
    }

    fn save_document(&self, _memory_type: &str, _memories: &[()]) -> Result<(), ApplicationError> {
        Ok(())
    }

    fn list_spec_directories(&self) -> Result<Vec<(String, bool)>, ApplicationError> {
        Ok(Vec::new())
    }

    fn mark_spec_complete(&self, _name: &str) -> Result<(), ApplicationError> {
        Ok(())
    }
}

impl MockProjectRepository {
    fn new() -> Self {
        Self::default()
    }

    fn set_operation_to_fail(&mut self, operation: &str) {
        self.should_fail_operation = Some(operation.to_string());
    }
}

#[test]
fn test_create_feature_valid_names() {
    let repo = MockProjectRepository::new();

    let valid_names = vec![
        "user-authentication",
        "api-endpoints",
        "database-migration",
        "feature-123",
        "simple",
        "a",
        "test-feature-with-numbers-123",
    ];

    for name in valid_names {
        let result = create_feature(&repo, name);
        assert!(result.is_ok(), "Feature name '{}' should be valid", name);

        let feature_path = result.unwrap();
        assert!(feature_path.contains(name), "Feature path should contain the name: {}", name);
    }
}

#[test]
fn test_create_feature_invalid_names() {
    let repo = MockProjectRepository::new();

    let invalid_names = vec![
        "-invalid-start",
        "invalid-end-",
        "invalid--double",
        "InvalidCase",
        "invalid_underscore",
        "invalid.dot",
        "invalid space",
        "invalid@symbol",
        "",
        "-",
        "--",
        "UPPERCASE",
        "Mixed-Case",
    ];

    for name in invalid_names {
        let result = create_feature(&repo, name);
        assert!(result.is_err(), "Feature name '{}' should be invalid", name);

        match result.unwrap_err() {
            ApplicationError::InvalidFeatureName(invalid_name) => {
                assert_eq!(invalid_name, name);
            }
            other => panic!("Expected InvalidFeatureName for '{}', got {:?}", name, other),
        }
    }
}

#[test]
fn test_create_feature_repository_failure() {
    let mut repo = MockProjectRepository::new();
    repo.set_operation_to_fail("create_feature");

    let result = create_feature(&repo, "valid-feature");
    assert!(result.is_err());

    match result.unwrap_err() {
        ApplicationError::FeatureCreationError(msg) => {
            assert!(msg.contains("valid-feature"));
            assert!(msg.contains("Mock creation failure"));
        }
        other => panic!("Expected FeatureCreationError, got {:?}", other),
    }
}

#[test]
fn test_create_feature_path_format() {
    let repo = MockProjectRepository::new();

    let result = create_feature(&repo, "test-feature");
    assert!(result.is_ok());

    let feature_path = result.unwrap();

    assert!(feature_path.starts_with(".kiro/specs/"));
    assert!(feature_path.ends_with("-test-feature"));

    let path_parts: Vec<&str> = feature_path.split('/').collect();
    assert_eq!(path_parts[0], ".kiro");
    assert_eq!(path_parts[1], "specs");

    let date_and_name = path_parts[2];
    let date_part = &date_and_name[0..10];

    assert_eq!(date_part.len(), 10);
    assert_eq!(date_part.chars().nth(4).unwrap(), '-');
    assert_eq!(date_part.chars().nth(7).unwrap(), '-');

    let today = chrono::Utc::now().format("%Y-%m-%d").to_string();
    assert_eq!(date_part, today);
}

#[test]
fn test_create_feature_validation_edge_cases() {
    let repo = MockProjectRepository::new();

    let result = create_feature(&repo, "a");
    assert!(result.is_ok());

    let result = create_feature(&repo, "123");
    assert!(result.is_ok());

    let result = create_feature(&repo, "a-b");
    assert!(result.is_ok());

    let result = create_feature(&repo, "a-b-c-d");
    assert!(result.is_ok());

    let result = create_feature(&repo, "feature-123-test");
    assert!(result.is_ok());
}

#[test]
fn test_create_feature_validation_before_repository_call() {
    let mut repo = MockProjectRepository::new();
    repo.set_operation_to_fail("create_feature");

    let result = create_feature(&repo, "Invalid-Name");
    assert!(result.is_err());

    match result.unwrap_err() {
        ApplicationError::InvalidFeatureName(_) => {}
        ApplicationError::FeatureCreationError(_) => {
            panic!("Should not reach repository with invalid name");
        }
        other => panic!("Unexpected error type: {:?}", other),
    }
}

#[test]
fn test_create_feature_error_propagation() {
    let mut repo = MockProjectRepository::new();
    repo.set_operation_to_fail("create_feature");

    let result = create_feature(&repo, "valid-name");
    assert!(result.is_err());

    match result.unwrap_err() {
        ApplicationError::FeatureCreationError(msg) => {
            assert!(msg.contains("valid-name"));
        }
        other => panic!("Expected FeatureCreationError, got {:?}", other),
    }
}

#[test]
fn test_create_feature_return_value_consistency() {
    let repo = MockProjectRepository::new();

    let result1 = create_feature(&repo, "consistent-test");
    let result2 = create_feature(&repo, "consistent-test");

    assert!(result1.is_ok());
    assert!(result2.is_ok());

    let path1 = result1.unwrap();
    let path2 = result2.unwrap();

    assert_eq!(path1, path2);
}

#[test]
fn test_create_feature_special_characters_validation() {
    let repo = MockProjectRepository::new();

    let special_chars = vec![
        "test@feature",
        "test#feature",
        "test$feature",
        "test%feature",
        "test^feature",
        "test&feature",
        "test*feature",
        "test(feature",
        "test)feature",
        "test+feature",
        "test=feature",
        "test[feature",
        "test]feature",
        "test{feature",
        "test}feature",
        "test|feature",
        "test\\feature",
        "test:feature",
        "test;feature",
        "test\"feature",
        "test'feature",
        "test<feature",
        "test>feature",
        "test,feature",
        "test?feature",
        "test/feature",
        "test~feature",
        "test`feature",
    ];

    for name in special_chars {
        let result = create_feature(&repo, name);
        assert!(result.is_err(), "Name with special character should be invalid: {}", name);
    }
}

#[test]
fn creation_result_passes_the_error_or_builds_the_path() {
    assert_eq!(
        feature_creation_result(Ok(()), "2024-03-01", "login-flow"),
        Ok(".kiro/specs/2024-03-01-login-flow".to_string())
    );
    assert_eq!(
        feature_creation_result(
            Err(ApplicationError::FeatureAlreadyExists("x".to_string())),
            "2024-03-01",
            "x"
        ),
        Err(ApplicationError::FeatureAlreadyExists("x".to_string()))
    );
}
