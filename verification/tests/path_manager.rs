use hail_mary::paths::{ancestor_dirs, parent_of, PathManager};
use std::path::PathBuf;

#[test]
fn test_path_manager_new() {
    let project_root = PathBuf::from("/test/project");
    let path_manager = PathManager::new(project_root.to_string_lossy().to_string());

    assert_eq!(PathBuf::from(path_manager.project_root()), project_root);
}

#[test]
fn test_kiro_dir_absolute_and_relative() {
    let path_manager = PathManager::new("/test/project".to_string());

    let absolute_path = path_manager.kiro_dir(true);
    assert_eq!(PathBuf::from(absolute_path), PathBuf::from("/test/project/.kiro"));

    let relative_path = path_manager.kiro_dir(false);
    assert_eq!(PathBuf::from(relative_path), PathBuf::from(".kiro"));
}

#[test]
fn test_config_path_absolute_and_relative() {
    let path_manager = PathManager::new("/test/project".to_string());

    let absolute_path = path_manager.config_path(true);
    assert_eq!(
        PathBuf::from(absolute_path),
        PathBuf::from("/test/project/.kiro/config.toml")
    );

    let relative_path = path_manager.config_path(false);
    assert_eq!(PathBuf::from(relative_path), PathBuf::from(".kiro/config.toml"));
}

#[test]
fn test_specs_dir_absolute_and_relative() {
    let path_manager = PathManager::new("/test/project".to_string());

    let absolute_path = path_manager.specs_dir(true);
    assert_eq!(PathBuf::from(absolute_path), PathBuf::from("/test/project/.kiro/specs"));

    let relative_path = path_manager.specs_dir(false);
    assert_eq!(PathBuf::from(relative_path), PathBuf::from(".kiro/specs"));
}

#[test]
fn test_memory_dir_absolute_and_relative() {
    let path_manager = PathManager::new("/test/project".to_string());

    let absolute_path = path_manager.memory_dir(true);
    assert_eq!(PathBuf::from(absolute_path), PathBuf::from("/test/project/.kiro/memory"));

    let relative_path = path_manager.memory_dir(false);
    assert_eq!(PathBuf::from(relative_path), PathBuf::from(".kiro/memory"));
}

#[test]
fn test_memory_db_path_absolute_and_relative() {
    let path_manager = PathManager::new("/test/project".to_string());

    let absolute_path = path_manager.memory_db_path(true);
    assert_eq!(
        PathBuf::from(absolute_path),
        PathBuf::from("/test/project/.kiro/memory/db.sqlite3")
    );

    let relative_path = path_manager.memory_db_path(false);
    assert_eq!(PathBuf::from(relative_path), PathBuf::from(".kiro/memory/db.sqlite3"));
}

#[test]
fn test_project_root_accessor() {
    let project_root = PathBuf::from("/test/project");
    let path_manager = PathManager::new(project_root.to_string_lossy().to_string());

    assert_eq!(std::path::Path::new(path_manager.project_root()), project_root.as_path());
}

#[test]
fn archive_dir_sits_beside_specs() {
    let path_manager = PathManager::new("/test/project/".to_string());
    assert_eq!(path_manager.archive_dir(true), "/test/project/.kiro/archive");
    assert_eq!(path_manager.archive_dir(false), ".kiro/archive");
}

#[test]
fn empty_root_gives_relative_locations() {
    let path_manager = PathManager::new(String::new());
    assert_eq!(path_manager.kiro_dir(true), ".kiro");
    assert_eq!(path_manager.memory_db_path(true), ".kiro/memory/db.sqlite3");
}

#[test]
fn project_root_is_looked_for_up_to_the_root() {
    assert_eq!(
        ancestor_dirs("/home/user/project"),
        vec!["/home/user/project", "/home/user", "/home", "/"]
    );
    assert_eq!(ancestor_dirs("/"), vec!["/"]);
    assert_eq!(ancestor_dirs("/a"), vec!["/a", "/"]);
    assert_eq!(parent_of("/a/b"), Some("/a".to_string()));
    assert_eq!(parent_of("/a"), Some("/".to_string()));
    assert_eq!(parent_of("/"), None);
    assert_eq!(parent_of("relative"), None);
}
