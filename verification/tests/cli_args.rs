use hail_mary::cli::{Cli, Commands, MemoryCommands};

#[test]
fn test_cli_parse_init_command() {
    let cli = Cli::parse_from(&["hail-mary", "init"]);
    assert!(cli.command.is_init());
    assert_eq!(cli.command.get_init_force(), Some(false));
}

#[test]
fn test_cli_parse_init_with_force() {
    let cli = Cli::parse_from(&["hail-mary", "init", "--force"]);
    assert!(cli.command.is_init());
    assert_eq!(cli.command.get_init_force(), Some(true));
}

#[test]
fn test_cli_parse_new_command() {
    let cli = Cli::parse_from(&["hail-mary", "new", "my-feature"]);
    assert!(cli.command.is_new());
    assert_eq!(cli.command.get_new_name(), Some("my-feature"));
}

#[test]
fn test_cli_parse_memory_serve() {
    let cli = Cli::parse_from(&["hail-mary", "memory", "serve"]);
    assert!(cli.command.is_memory());

    let memory_cmd = cli.command.get_memory_command().unwrap();
    assert!(memory_cmd.is_serve());
}

#[test]
fn test_cli_parse_memory_document() {
    let cli = Cli::parse_from(&["hail-mary", "memory", "document"]);
    assert!(cli.command.is_memory());

    let memory_cmd = cli.command.get_memory_command().unwrap();
    assert!(memory_cmd.is_document());
    assert_eq!(memory_cmd.get_document_type(), None);
}

#[test]
fn test_cli_parse_memory_document_with_type() {
    let cli = Cli::parse_from(&["hail-mary", "memory", "document", "--type", "tech"]);
    assert!(cli.command.is_memory());

    let memory_cmd = cli.command.get_memory_command().unwrap();
    assert!(memory_cmd.is_document());
    assert_eq!(memory_cmd.get_document_type(), Some("tech"));
}

#[test]
fn test_cli_parse_memory_reindex() {
    let cli = Cli::parse_from(&["hail-mary", "memory", "reindex"]);
    assert!(cli.command.is_memory());

    let memory_cmd = cli.command.get_memory_command().unwrap();
    assert!(memory_cmd.is_reindex());
    assert_eq!(memory_cmd.get_reindex_options(), Some((false, false)));
}

#[test]
fn test_cli_parse_memory_reindex_with_options() {
    let cli = Cli::parse_from(&["hail-mary", "memory", "reindex", "--dry-run", "--verbose"]);
    assert!(cli.command.is_memory());

    let memory_cmd = cli.command.get_memory_command().unwrap();
    assert!(memory_cmd.is_reindex());
    assert_eq!(memory_cmd.get_reindex_options(), Some((true, true)));
}

#[test]
fn test_commands_is_methods() {
    let init_cmd = Commands::Init { force: false };
    assert!(init_cmd.is_init());
    assert!(!init_cmd.is_new());
    assert!(!init_cmd.is_memory());

    let new_cmd = Commands::New {
        name: "test".to_string(),
    };
    assert!(!new_cmd.is_init());
    assert!(new_cmd.is_new());
    assert!(!new_cmd.is_memory());

    let memory_cmd = Commands::Memory {
        command: MemoryCommands::Serve,
    };
    assert!(!memory_cmd.is_init());
    assert!(!memory_cmd.is_new());
    assert!(memory_cmd.is_memory());
}

#[test]
fn test_memory_commands_is_methods() {
    let serve_cmd = MemoryCommands::Serve;
    assert!(serve_cmd.is_serve());
    assert!(!serve_cmd.is_document());
    assert!(!serve_cmd.is_reindex());

    let doc_cmd = MemoryCommands::Document { memory_type: None };
    assert!(!doc_cmd.is_serve());
    assert!(doc_cmd.is_document());
    assert!(!doc_cmd.is_reindex());

    let reindex_cmd = MemoryCommands::Reindex {
        dry_run: false,
        verbose: false,
    };
    assert!(!reindex_cmd.is_serve());
    assert!(!reindex_cmd.is_document());
    assert!(reindex_cmd.is_reindex());
}
