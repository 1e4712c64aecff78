use hail_mary::cli::{Cli, CliError, Commands, MemoryCommand, MemoryCommands, Shell};

fn parse(args: &[&str]) -> Result<Cli, CliError> {
    Cli::try_parse_from(args)
}

#[test]
fn option_values_in_every_spelling() {
    for args in [
        vec!["hm", "memory", "document", "-t", "tech"],
        vec!["hm", "memory", "document", "-ttech"],
        vec!["hm", "memory", "document", "-t=tech"],
        vec!["hm", "memory", "document", "--type=tech"],
    ] {
        let cli = parse(&args).unwrap();
        let cmd = cli.command.get_memory_command().unwrap();
        assert_eq!(cmd.get_document_type(), Some("tech"));
    }
}

#[test]
fn refusals_name_the_argument() {
    assert_eq!(parse(&["hm"]).unwrap_err(), CliError::MissingSubcommand);
    assert_eq!(
        parse(&["hm", "launch"]).unwrap_err(),
        CliError::UnrecognizedSubcommand("launch".to_string())
    );
    assert_eq!(
        parse(&["hm", "init", "-f", "--force"]).unwrap_err(),
        CliError::DuplicateArgument("--force".to_string())
    );
    assert_eq!(
        parse(&["hm", "new"]).unwrap_err(),
        CliError::MissingValue("<NAME>".to_string())
    );
    assert_eq!(
        parse(&["hm", "new", "a", "b"]).unwrap_err(),
        CliError::UnexpectedArgument("b".to_string())
    );
    assert_eq!(
        parse(&["hm", "memory", "document", "--type"]).unwrap_err(),
        CliError::MissingValue("--type".to_string())
    );
    assert_eq!(
        parse(&["hm", "completion", "tcsh"]).unwrap_err(),
        CliError::InvalidValue("tcsh".to_string())
    );
    assert_eq!(parse(&["hm", "--help"]).unwrap_err(), CliError::HelpRequested);
    assert_eq!(parse(&["hm", "-V"]).unwrap_err(), CliError::VersionRequested);
    assert_eq!(parse(&["hm", "memory"]).unwrap_err(), CliError::MissingSubcommand);
}

#[test]
fn positional_after_double_dash() {
    let cli = parse(&["hm", "new", "--", "-odd"]).unwrap();
    assert_eq!(cli.command.get_new_name(), Some("-odd"));
    let cli = parse(&["hm", "completion", "power-shell"]).unwrap();
    assert_eq!(cli.command.get_completion_shell(), Some(&Shell::PowerShell));
    assert!(cli.command.is_completion());
}

#[test]
fn memory_command_carries_options() {
    match MemoryCommand::from_memory_commands(MemoryCommands::Reindex {
        dry_run: true,
        verbose: false,
    }) {
        MemoryCommand::Reindex { dry_run, verbose } => assert!(dry_run && !verbose),
        _ => panic!("expected reindex"),
    }
    let init = Commands::Init { force: true };
    assert_eq!(init.get_init_force(), Some(true));
    assert_eq!(init.get_new_name(), None);
}
