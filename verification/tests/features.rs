use hail_mary::naming::{extract_feature_name, feature_dir_name, kebab_case, valid_feature_name};
use hail_mary::project::ProjectManager;

#[test]
fn test_extract_feature_name() {
    let project = ProjectManager::new();

    assert_eq!(
        project.extract_feature_name("2024-01-01-my-feature"),
        Some("my-feature".to_string())
    );

    assert_eq!(
        project.extract_feature_name("2024-12-25-complex-feature-name"),
        Some("complex-feature-name".to_string())
    );

    assert_eq!(project.extract_feature_name("invalid-format"), None);
}

#[test]
fn extract_inverts_the_dated_directory_name() {
    let dir = feature_dir_name("2025-03-15", "user-authentication");
    assert_eq!(dir, "2025-03-15-user-authentication");
    assert_eq!(extract_feature_name(&dir), Some("user-authentication".to_string()));
}

#[test]
fn feature_exists_looks_at_the_listed_directories() {
    let project = ProjectManager::new();
    let dirs = vec![
        "2024-01-01-alpha".to_string(),
        "notes".to_string(),
        "2024-02-02-beta-two".to_string(),
    ];
    assert!(project.feature_exists(&dirs, "alpha"));
    assert!(project.feature_exists(&dirs, "beta-two"));
    assert!(!project.feature_exists(&dirs, "notes"));
    assert_eq!(
        project.features_from_dir_names(&dirs),
        vec!["alpha".to_string(), "beta-two".to_string()]
    );
}

#[test]
fn base_path_is_specs_directory() {
    assert_eq!(ProjectManager::new().base_path(), ".kiro/specs");
    let name = ProjectManager::new().generate_feature_dir_name("my-feature");
    assert!(name.ends_with("-my-feature"));
    assert!(name.len() >= 21);
}

#[test]
fn kebab_case_rules() {
    for name in ["user-authentication", "api-endpoints", "feature-123", "simple", "a", "123"] {
        assert!(valid_feature_name(name), "{}", name);
    }
    for name in [
        "-invalid-start",
        "invalid-end-",
        "invalid--double",
        "InvalidCase",
        "invalid_underscore",
        "invalid.dot",
        "",
        "-",
        "--",
    ] {
        assert!(!valid_feature_name(name), "{}", name);
    }
    assert!(kebab_case(""));
    assert!(!valid_feature_name(""));
}

#[test]
fn features_are_listed_by_name() {
    let project = ProjectManager::new();
    let dirs: Vec<String> = [
        "2024-03-01-zeta",
        "notes",
        "2024-01-01-alpha",
        "2023-12-31-mid-point",
    ]
    .iter()
    .map(|s| s.to_string())
    .collect();
    assert_eq!(project.list_features(&dirs), vec!["alpha", "mid-point", "zeta"]);
    assert!(project.list_features(&[]).is_empty());
}

#[test]
fn spec_directories_are_newest_first() {
    let repo = hail_mary::project_files::ProjectRepository::new(
        hail_mary::paths::PathManager::new("/work/app".to_string()),
    );
    let names: Vec<String> = ["2024-01-02-b", "2025-06-01-c", "2023-11-30-a"]
        .iter()
        .map(|s| s.to_string())
        .collect();
    assert_eq!(
        repo.spec_directories(names),
        vec![
            ("2025-06-01-c".to_string(), false),
            ("2024-01-02-b".to_string(), false),
            ("2023-11-30-a".to_string(), false)
        ]
    );
}

#[test]
fn names_sort_by_characters() {
    let names: Vec<String> = ["b", "B", "", "ab", "a"].iter().map(|s| s.to_string()).collect();
    assert_eq!(hail_mary::tag_list::sort_names(names), vec!["", "B", "a", "ab", "b"]);
}

#[test]
fn test_generate_feature_dir_name() {
    let project = ProjectManager::new();
    let dir_name = project.generate_feature_dir_name("my-feature");

    // Should match YYYY-MM-dd-my-feature pattern
    assert!(dir_name.ends_with("-my-feature"));
    assert!(dir_name.len() >= 21); // "2024-01-01-my-feature" = 21 chars
}

#[test]
fn generated_dir_name_gives_the_feature_name_back() {
    let project = ProjectManager::new();
    let dir_name = project.generate_feature_dir_name("my-feature");
    assert_eq!(extract_feature_name(&dir_name), Some("my-feature".to_string()));
    let date = &dir_name[..dir_name.len() - "-my-feature".len()];
    assert_eq!(date.len(), 10);
    assert_eq!(date.matches('-').count(), 2);
}
