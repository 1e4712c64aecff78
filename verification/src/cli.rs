//! The command-line grammar of the tool:
//!
//! ```text
//! hail-mary init [-f|--force]
//! hail-mary new [--] <NAME>
//! hail-mary memory serve
//! hail-mary memory document [-t|--type <TYPE>]
//! hail-mary memory reindex [--dry-run] [-v|--verbose]
//! hail-mary completion [--] <SHELL>
//! ```
//!
//! Arguments are read left to right and the first one that does not fit
//! decides the error. `-h`/`--help` (and `help` in place of a subcommand)
//! ask for help, `-V`/`--version` in place of a subcommand for the version.
//! An option value can be given as `--type VALUE`, `--type=VALUE`, `-t VALUE`,
//! `-tVALUE` or `-t=VALUE`; a value may not look like an option.

use vstd::prelude::*;
use crate::text::{chars_eq, chars_of, matches_at, occurs_at, pieces, string_from_chars, string_from_range};

verus! {

/// A shell that completions can be generated for.
#[derive(Debug, Clone, Copy, PartialEq, Eq, Structural)]
pub enum Shell {
    Bash,
    Zsh,
    Fish,
    PowerShell,
    Elvish,
}

/// The memory subcommands.
#[derive(Debug, Clone)]
pub enum MemoryCommands {
    /// Start the memory server.
    Serve,
    /// Generate documentation, for one memory type or all of them.
    Document { memory_type: Option<String> },
    /// Reindex the database.
    Reindex { dry_run: bool, verbose: bool },
}

/// The top-level commands.
#[derive(Debug, Clone)]
pub enum Commands {
    /// Initialize a project.
    Init { force: bool },
    /// Create a feature specification.
    New { name: String },
    /// Memory operations.
    Memory { command: MemoryCommands },
    /// Generate shell completions.
    Completion { shell: Shell },
}

/// A parsed command line.
#[derive(Debug, Clone)]
pub struct Cli {
    pub command: Commands,
}

/// Why a command line was not accepted.
#[derive(Debug, Clone, PartialEq, Eq)]
pub enum CliError {
    /// A subcommand is required here and none was given.
    MissingSubcommand,
    /// The word in the place of a subcommand names none.
    UnrecognizedSubcommand(String),
    /// An argument that fits nowhere.
    UnexpectedArgument(String),
    /// A flag or option given a second time.
    DuplicateArgument(String),
    /// A required value is missing; names the option or the positional argument.
    MissingValue(String),
    /// A value outside the accepted ones.
    InvalidValue(String),
    /// Help was asked for.
    HelpRequested,
    /// The version was asked for.
    VersionRequested,
}

/// The meaning of a memory subcommand.
pub enum MemoryView {
    Serve,
    Document { memory_type: Option<Seq<char>> },
    Reindex { dry_run: bool, verbose: bool },
}

/// The meaning of a command.
pub enum CommandView {
    Init { force: bool },
    New { name: Seq<char> },
    Memory { command: MemoryView },
    Completion { shell: Shell },
}

/// The meaning of a refusal.
pub enum CliErrorView {
    MissingSubcommand,
    UnrecognizedSubcommand(Seq<char>),
    UnexpectedArgument(Seq<char>),
    DuplicateArgument(Seq<char>),
    MissingValue(Seq<char>),
    InvalidValue(Seq<char>),
    HelpRequested,
    VersionRequested,
}

impl View for MemoryCommands {
    type V = MemoryView;

    open spec fn view(&self) -> MemoryView {
        match self {
            MemoryCommands::Serve => MemoryView::Serve,
            MemoryCommands::Document { memory_type } => MemoryView::Document {
                memory_type: match memory_type {
                    Some(t) => Some(t@),
                    None => None,
                },
            },
            MemoryCommands::Reindex { dry_run, verbose } => MemoryView::Reindex {
                dry_run: *dry_run,
                verbose: *verbose,
            },
        }
    }
}

impl View for Commands {
    type V = CommandView;

    open spec fn view(&self) -> CommandView {
        match self {
            Commands::Init { force } => CommandView::Init { force: *force },
            Commands::New { name } => CommandView::New { name: name@ },
            Commands::Memory { command } => CommandView::Memory { command: command@ },
            Commands::Completion { shell } => CommandView::Completion { shell: *shell },
        }
    }
}

impl View for CliError {
    type V = CliErrorView;

    open spec fn view(&self) -> CliErrorView {
        match self {
            CliError::MissingSubcommand => CliErrorView::MissingSubcommand,
            CliError::UnrecognizedSubcommand(s) => CliErrorView::UnrecognizedSubcommand(s@),
            CliError::UnexpectedArgument(s) => CliErrorView::UnexpectedArgument(s@),
            CliError::DuplicateArgument(s) => CliErrorView::DuplicateArgument(s@),
            CliError::MissingValue(s) => CliErrorView::MissingValue(s@),
            CliError::InvalidValue(s) => CliErrorView::InvalidValue(s@),
            CliError::HelpRequested => CliErrorView::HelpRequested,
            CliError::VersionRequested => CliErrorView::VersionRequested,
        }
    }
}

/// The arguments as texts.
pub open spec fn arg_texts(args: Seq<&str>) -> Seq<Seq<char>> {
    args.map_values(|a: &str| a@)
}

/// An argument that reads as a flag or an option: a dash followed by something.
pub open spec fn looks_like_flag(a: Seq<char>) -> bool {
    a.len() >= 2 && a[0] == '-'
}

/// `-h` or `--help`.
pub open spec fn is_help_flag(a: Seq<char>) -> bool {
    a == "-h"@ || a == "--help"@
}

/// The shell a value names, with the names `bash`, `zsh`, `fish`,
/// `power-shell` and `elvish`.
pub open spec fn shell_named(a: Seq<char>) -> Option<Shell> {
    if a == "bash"@ {
        Some(Shell::Bash)
    } else if a == "zsh"@ {
        Some(Shell::Zsh)
    } else if a == "fish"@ {
        Some(Shell::Fish)
    } else if a == "power-shell"@ {
        Some(Shell::PowerShell)
    } else if a == "elvish"@ {
        Some(Shell::Elvish)
    } else {
        None
    }
}

/// The arguments of `init` from position `i` on, with `force` seen so far.
pub open spec fn parse_init(args: Seq<Seq<char>>, i: int, force: bool) -> Result<
    CommandView,
    CliErrorView,
>
    decreases args.len() - i,
{
    if i >= args.len() {
        Ok(CommandView::Init { force })
    } else {
        let a = args[i];
        if is_help_flag(a) {
            Err(CliErrorView::HelpRequested)
        } else if a == "-f"@ || a == "--force"@ {
            if force {
                Err(CliErrorView::DuplicateArgument(a))
            } else {
                parse_init(args, i + 1, true)
            }
        } else {
            Err(CliErrorView::UnexpectedArgument(a))
        }
    }
}

/// The arguments of `new` from position `i` on: the name so far, and whether
/// `--` has ended the options.
pub open spec fn parse_new(
    args: Seq<Seq<char>>,
    i: int,
    name: Option<Seq<char>>,
    positional: bool,
) -> Result<CommandView, CliErrorView>
    decreases args.len() - i,
{
    if i >= args.len() {
        match name {
            Some(n) => Ok(CommandView::New { name: n }),
            None => Err(CliErrorView::MissingValue("<NAME>"@)),
        }
    } else {
        let a = args[i];
        if !positional && a == "--"@ {
            parse_new(args, i + 1, name, true)
        } else if !positional && is_help_flag(a) {
            Err(CliErrorView::HelpRequested)
        } else if !positional && looks_like_flag(a) {
            Err(CliErrorView::UnexpectedArgument(a))
        } else if name is Some {
            Err(CliErrorView::UnexpectedArgument(a))
        } else {
            parse_new(args, i + 1, Some(a), positional)
        }
    }
}

/// The arguments of `completion` from position `i` on.
pub open spec fn parse_completion(
    args: Seq<Seq<char>>,
    i: int,
    shell: Option<Shell>,
    positional: bool,
) -> Result<CommandView, CliErrorView>
    decreases args.len() - i,
{
    if i >= args.len() {
        match shell {
            Some(s) => Ok(CommandView::Completion { shell: s }),
            None => Err(CliErrorView::MissingValue("<SHELL>"@)),
        }
    } else {
        let a = args[i];
        if !positional && a == "--"@ {
            parse_completion(args, i + 1, shell, true)
        } else if !positional && is_help_flag(a) {
            Err(CliErrorView::HelpRequested)
        } else if !positional && looks_like_flag(a) {
            Err(CliErrorView::UnexpectedArgument(a))
        } else if shell is Some {
            Err(CliErrorView::UnexpectedArgument(a))
        } else {
            match shell_named(a) {
                Some(s) => parse_completion(args, i + 1, Some(s), positional),
                None => Err(CliErrorView::InvalidValue(a)),
            }
        }
    }
}

/// The arguments of `memory serve` from position `i` on.
pub open spec fn parse_serve(args: Seq<Seq<char>>, i: int) -> Result<CommandView, CliErrorView> {
    if i >= args.len() {
        Ok(CommandView::Memory { command: MemoryView::Serve })
    } else if is_help_flag(args[i]) {
        Err(CliErrorView::HelpRequested)
    } else {
        Err(CliErrorView::UnexpectedArgument(args[i]))
    }
}

/// The value attached to a short option `-tVALUE` or `-t=VALUE`.
pub open spec fn attached_short_value(a: Seq<char>) -> Seq<char> {
    let v = a.subrange(2, a.len() as int);
    if v.len() > 0 && v[0] == '=' {
        v.drop_first()
    } else {
        v
    }
}

/// The arguments of `memory document` from position `i` on, with the type so far.
pub open spec fn parse_document(args: Seq<Seq<char>>, i: int, ty: Option<Seq<char>>) -> Result<
    CommandView,
    CliErrorView,
>
    decreases args.len() - i,
{
    if i >= args.len() {
        Ok(CommandView::Memory { command: MemoryView::Document { memory_type: ty } })
    } else {
        let a = args[i];
        if is_help_flag(a) {
            Err(CliErrorView::HelpRequested)
        } else if a == "-t"@ || a == "--type"@ {
            if ty is Some {
                Err(CliErrorView::DuplicateArgument(a))
            } else if i + 1 >= args.len() || looks_like_flag(args[i + 1]) {
                Err(CliErrorView::MissingValue(a))
            } else {
                parse_document(args, i + 2, Some(args[i + 1]))
            }
        } else if occurs_at(a, "--type="@, 0) {
            if ty is Some {
                Err(CliErrorView::DuplicateArgument(a))
            } else {
                parse_document(args, i + 1, Some(a.subrange("--type="@.len() as int, a.len() as int)))
            }
        } else if a.len() > 2 && occurs_at(a, "-t"@, 0) {
            if ty is Some {
                Err(CliErrorView::DuplicateArgument(a))
            } else {
                parse_document(args, i + 1, Some(attached_short_value(a)))
            }
        } else {
            Err(CliErrorView::UnexpectedArgument(a))
        }
    }
}

/// The arguments of `memory reindex` from position `i` on, with the flags so far.
pub open spec fn parse_reindex(args: Seq<Seq<char>>, i: int, dry_run: bool, verbose: bool) -> Result<
    CommandView,
    CliErrorView,
>
    decreases args.len() - i,
{
    if i >= args.len() {
        Ok(CommandView::Memory { command: MemoryView::Reindex { dry_run, verbose } })
    } else {
        let a = args[i];
        if is_help_flag(a) {
            Err(CliErrorView::HelpRequested)
        } else if a == "--dry-run"@ {
            if dry_run {
                Err(CliErrorView::DuplicateArgument(a))
            } else {
                parse_reindex(args, i + 1, true, verbose)
            }
        } else if a == "-v"@ || a == "--verbose"@ {
            if verbose {
                Err(CliErrorView::DuplicateArgument(a))
            } else {
                parse_reindex(args, i + 1, dry_run, true)
            }
        } else {
            Err(CliErrorView::UnexpectedArgument(a))
        }
    }
}

/// The arguments of `memory`, whose subcommand is at position `i`.
pub open spec fn parse_memory(args: Seq<Seq<char>>, i: int) -> Result<CommandView, CliErrorView> {
    if i >= args.len() {
        Err(CliErrorView::MissingSubcommand)
    } else {
        let a = args[i];
        if is_help_flag(a) || a == "help"@ {
            Err(CliErrorView::HelpRequested)
        } else if a == "serve"@ {
            parse_serve(args, i + 1)
        } else if a == "document"@ {
            parse_document(args, i + 1, None)
        } else if a == "reindex"@ {
            parse_reindex(args, i + 1, false, false)
        } else if looks_like_flag(a) {
            Err(CliErrorView::UnexpectedArgument(a))
        } else {
            Err(CliErrorView::UnrecognizedSubcommand(a))
        }
    }
}

/// A whole command line; `args[0]` is the program name.
pub open spec fn parse_command_line(args: Seq<Seq<char>>) -> Result<CommandView, CliErrorView> {
    if args.len() < 2 {
        Err(CliErrorView::MissingSubcommand)
    } else {
        let a = args[1];
        if is_help_flag(a) || a == "help"@ {
            Err(CliErrorView::HelpRequested)
        } else if a == "-V"@ || a == "--version"@ {
            Err(CliErrorView::VersionRequested)
        } else if a == "init"@ {
            parse_init(args, 2, false)
        } else if a == "new"@ {
            parse_new(args, 2, None, false)
        } else if a == "memory"@ {
            parse_memory(args, 2)
        } else if a == "completion"@ {
            parse_completion(args, 2, None, false)
        } else if looks_like_flag(a) {
            Err(CliErrorView::UnexpectedArgument(a))
        } else {
            Err(CliErrorView::UnrecognizedSubcommand(a))
        }
    }
}

/// Whether `a` is the literal `lit`.
fn is_word(a: &Vec<char>, lit: &str) -> (r: bool)
    ensures
        r == (a@ == lit@),
{
    let l = chars_of(lit);
    chars_eq(a.as_slice(), l.as_slice())
}

/// Whether `a` starts with the literal `lit`.
fn has_prefix(a: &Vec<char>, lit: &str) -> (r: bool)
    ensures
        r == occurs_at(a@, lit@, 0),
{
    let l = chars_of(lit);
    matches_at(a.as_slice(), l.as_slice(), 0)
}

fn flag_like(a: &Vec<char>) -> (r: bool)
    ensures
        r == looks_like_flag(a@),
{
    a.len() >= 2 && a[0] == '-'
}

fn help_flag(a: &Vec<char>) -> (r: bool)
    ensures
        r == is_help_flag(a@),
{
    is_word(a, "-h") || is_word(a, "--help")
}

fn text(a: &Vec<char>) -> (r: String)
    ensures
        r@ == a@,
{
    string_from_chars(a.as_slice())
}

fn word_error(lit: &str) -> (r: String)
    ensures
        r@ == lit@,
{
    let l = chars_of(lit);
    string_from_chars(l.as_slice())
}

fn shell_of(a: &Vec<char>) -> (r: Option<Shell>)
    ensures
        r == shell_named(a@),
{
    if is_word(a, "bash") {
        Some(Shell::Bash)
    } else if is_word(a, "zsh") {
        Some(Shell::Zsh)
    } else if is_word(a, "fish") {
        Some(Shell::Fish)
    } else if is_word(a, "power-shell") {
        Some(Shell::PowerShell)
    } else if is_word(a, "elvish") {
        Some(Shell::Elvish)
    } else {
        None
    }
}

/// The meaning a parse result has.
pub open spec fn result_view(r: Result<Commands, CliError>) -> Result<CommandView, CliErrorView> {
    match r {
        Ok(c) => Ok(c@),
        Err(e) => Err(e@),
    }
}


fn init_args(args: &Vec<Vec<char>>) -> (r: Result<Commands, CliError>)
    ensures
        result_view(r) == parse_init(pieces(args@), 2, false),
{
    let ghost t = pieces(args@);
    let mut force = false;
    let mut i: usize = 2;
    while i < args.len()
        invariant
            t == pieces(args@),
            2 <= i <= args@.len() || args@.len() < 2,
            parse_init(t, 2, false) == parse_init(t, i as int, force),
        decreases args.len() - i,
    {
        let a = &args[i];
        assert(t[i as int] == a@);
        if help_flag(a) {
            return Err(CliError::HelpRequested);
        } else if is_word(a, "-f") || is_word(a, "--force") {
            if force {
                return Err(CliError::DuplicateArgument(text(a)));
            }
            force = true;
        } else {
            return Err(CliError::UnexpectedArgument(text(a)));
        }
        i = i + 1;
    }
    Ok(Commands::Init { force })
}

fn new_args(args: &Vec<Vec<char>>) -> (r: Result<Commands, CliError>)
    ensures
        result_view(r) == parse_new(pieces(args@), 2, None, false),
{
    let ghost t = pieces(args@);
    let mut name: Option<usize> = None;
    let mut positional = false;
    let mut i: usize = 2;
    while i < args.len()
        invariant
            t == pieces(args@),
            2 <= i <= args@.len() || args@.len() < 2,
            name matches Some(k) ==> k < args@.len(),
            parse_new(t, 2, None, false) == parse_new(
                t,
                i as int,
                match name {
                    Some(k) => Some(t[k as int]),
                    None => None,
                },
                positional,
            ),
        decreases args.len() - i,
    {
        let a = &args[i];
        assert(t[i as int] == a@);
        if !positional && is_word(a, "--") {
            positional = true;
        } else if !positional && help_flag(a) {
            return Err(CliError::HelpRequested);
        } else if !positional && flag_like(a) {
            return Err(CliError::UnexpectedArgument(text(a)));
        } else if name.is_some() {
            return Err(CliError::UnexpectedArgument(text(a)));
        } else {
            name = Some(i);
        }
        i = i + 1;
    }
    match name {
        Some(k) => Ok(Commands::New { name: text(&args[k]) }),
        None => Err(CliError::MissingValue(word_error("<NAME>"))),
    }
}

fn completion_args(args: &Vec<Vec<char>>) -> (r: Result<Commands, CliError>)
    ensures
        result_view(r) == parse_completion(pieces(args@), 2, None, false),
{
    let ghost t = pieces(args@);
    let mut shell: Option<Shell> = None;
    let mut positional = false;
    let mut i: usize = 2;
    while i < args.len()
        invariant
            t == pieces(args@),
            2 <= i <= args@.len() || args@.len() < 2,
            parse_completion(t, 2, None, false) == parse_completion(t, i as int, shell, positional),
        decreases args.len() - i,
    {
        let a = &args[i];
        assert(t[i as int] == a@);
        if !positional && is_word(a, "--") {
            positional = true;
        } else if !positional && help_flag(a) {
            return Err(CliError::HelpRequested);
        } else if !positional && flag_like(a) {
            return Err(CliError::UnexpectedArgument(text(a)));
        } else if shell.is_some() {
            return Err(CliError::UnexpectedArgument(text(a)));
        } else {
            match shell_of(a) {
                Some(s) => {
                    shell = Some(s);
                },
                None => {
                    return Err(CliError::InvalidValue(text(a)));
                },
            }
        }
        i = i + 1;
    }
    match shell {
        Some(s) => Ok(Commands::Completion { shell: s }),
        None => Err(CliError::MissingValue(word_error("<SHELL>"))),
    }
}

fn document_args(args: &Vec<Vec<char>>) -> (r: Result<Commands, CliError>)
    requires
        args@.len() >= 3,
    ensures
        result_view(r) == parse_document(pieces(args@), 3, None),
{
    let ghost t = pieces(args@);
    let mut ty: Option<String> = None;
    let mut i: usize = 3;
    while i < args.len()
        invariant
            t == pieces(args@),
            3 <= i <= args@.len(),
            parse_document(t, 3, None) == parse_document(
                t,
                i as int,
                match ty {
                    Some(s) => Some(s@),
                    None => None,
                },
            ),
        decreases args.len() - i,
    {
        let a = &args[i];
        assert(t[i as int] == a@);
        if help_flag(a) {
            return Err(CliError::HelpRequested);
        } else if is_word(a, "-t") || is_word(a, "--type") {
            if ty.is_some() {
                return Err(CliError::DuplicateArgument(text(a)));
            }
            if i + 1 >= args.len() || flag_like(&args[i + 1]) {
                return Err(CliError::MissingValue(text(a)));
            }
            assert(t[i + 1] == args@[i + 1]@);
            ty = Some(text(&args[i + 1]));
            i = i + 2;
        } else if has_prefix(a, "--type=") {
            if ty.is_some() {
                return Err(CliError::DuplicateArgument(text(a)));
            }
            let p = chars_of("--type=");
            ty = Some(string_from_range(a.as_slice(), p.len(), a.len()));
            i = i + 1;
        } else if a.len() > 2 && has_prefix(a, "-t") {
            if ty.is_some() {
                return Err(CliError::DuplicateArgument(text(a)));
            }
            let start: usize = if a[2] == '=' { 3 } else { 2 };
            let v = string_from_range(a.as_slice(), start, a.len());
            assert(v@ == attached_short_value(a@)) by {
                let w = a@.subrange(2, a@.len() as int);
                if a@[2] == '=' {
                    assert(w.drop_first() =~= a@.subrange(3, a@.len() as int));
                } else {
                    assert(w =~= a@.subrange(2, a@.len() as int));
                }
            }
            ty = Some(v);
            i = i + 1;
        } else {
            return Err(CliError::UnexpectedArgument(text(a)));
        }
    }
    Ok(Commands::Memory { command: MemoryCommands::Document { memory_type: ty } })
}

fn reindex_args(args: &Vec<Vec<char>>) -> (r: Result<Commands, CliError>)
    requires
        args@.len() >= 3,
    ensures
        result_view(r) == parse_reindex(pieces(args@), 3, false, false),
{
    let ghost t = pieces(args@);
    let mut dry_run = false;
    let mut verbose = false;
    let mut i: usize = 3;
    while i < args.len()
        invariant
            t == pieces(args@),
            3 <= i <= args@.len(),
            parse_reindex(t, 3, false, false) == parse_reindex(t, i as int, dry_run, verbose),
        decreases args.len() - i,
    {
        let a = &args[i];
        assert(t[i as int] == a@);
        if help_flag(a) {
            return Err(CliError::HelpRequested);
        } else if is_word(a, "--dry-run") {
            if dry_run {
                return Err(CliError::DuplicateArgument(text(a)));
            }
            dry_run = true;
        } else if is_word(a, "-v") || is_word(a, "--verbose") {
            if verbose {
                return Err(CliError::DuplicateArgument(text(a)));
            }
            verbose = true;
        } else {
            return Err(CliError::UnexpectedArgument(text(a)));
        }
        i = i + 1;
    }
    Ok(Commands::Memory { command: MemoryCommands::Reindex { dry_run, verbose } })
}

fn memory_args(args: &Vec<Vec<char>>) -> (r: Result<Commands, CliError>)
    ensures
        result_view(r) == parse_memory(pieces(args@), 2),
{
    let ghost t = pieces(args@);
    if args.len() <= 2 {
        return Err(CliError::MissingSubcommand);
    }
    let a = &args[2];
    assert(t[2] == a@);
    if help_flag(a) || is_word(a, "help") {
        Err(CliError::HelpRequested)
    } else if is_word(a, "serve") {
        if args.len() > 3 {
            assert(t[3] == args@[3]@);
            if help_flag(&args[3]) {
                Err(CliError::HelpRequested)
            } else {
                Err(CliError::UnexpectedArgument(text(&args[3])))
            }
        } else {
            Ok(Commands::Memory { command: MemoryCommands::Serve })
        }
    } else if is_word(a, "document") {
        document_args(args)
    } else if is_word(a, "reindex") {
        reindex_args(args)
    } else if flag_like(a) {
        Err(CliError::UnexpectedArgument(text(a)))
    } else {
        Err(CliError::UnrecognizedSubcommand(text(a)))
    }
}

fn command_line(args: &Vec<Vec<char>>) -> (r: Result<Commands, CliError>)
    ensures
        result_view(r) == parse_command_line(pieces(args@)),
{
    let ghost t = pieces(args@);
    if args.len() < 2 {
        return Err(CliError::MissingSubcommand);
    }
    let a = &args[1];
    assert(t[1] == a@);
    if help_flag(a) || is_word(a, "help") {
        Err(CliError::HelpRequested)
    } else if is_word(a, "-V") || is_word(a, "--version") {
        Err(CliError::VersionRequested)
    } else if is_word(a, "init") {
        init_args(args)
    } else if is_word(a, "new") {
        new_args(args)
    } else if is_word(a, "memory") {
        memory_args(args)
    } else if is_word(a, "completion") {
        completion_args(args)
    } else if flag_like(a) {
        Err(CliError::UnexpectedArgument(text(a)))
    } else {
        Err(CliError::UnrecognizedSubcommand(text(a)))
    }
}

impl Cli {
    /// Parses a command line whose first element is the program name; the
    /// result is exactly what `parse_command_line` gives.
    pub fn try_parse_from(args: &[&str]) -> (r: Result<Cli, CliError>)
        ensures
            match parse_command_line(arg_texts(args@)) {
                Ok(c) => r matches Ok(cli) && cli.command@ == c,
                Err(e) => r matches Err(err) && err@ == e,
            },
    {
        let mut v: Vec<Vec<char>> = Vec::new();
        let mut i: usize = 0;
        while i < args.len()
            invariant
                i <= args@.len(),
                pieces(v@) == arg_texts(args@).take(i as int),
            decreases args.len() - i,
        {
            let ghost prev = v@;
            let c = chars_of(args[i]);
            assert(c@ == arg_texts(args@)[i as int]);
            v.push(c);
            assert(pieces(v@) =~= pieces(prev).push(arg_texts(args@)[i as int]));
            i = i + 1;
            assert(pieces(v@) =~= arg_texts(args@).take(i as int));
        }
        assert(arg_texts(args@).take(args@.len() as int) =~= arg_texts(args@));
        match command_line(&v) {
            Ok(command) => Ok(Cli { command }),
            Err(e) => Err(e),
        }
    }

    /// Parses a command line that the grammar accepts.
    pub fn parse_from(args: &[&str]) -> (cli: Cli)
        requires
            parse_command_line(arg_texts(args@)) is Ok,
        ensures
            parse_command_line(arg_texts(args@)) == Ok::<CommandView, CliErrorView>(cli.command@),
    {
        match Cli::try_parse_from(args) {
            Ok(cli) => cli,
            Err(_) => {
                proof {
                    assert(false);
                }
                Cli { command: Commands::Init { force: false } }
            },
        }
    }
}

impl Commands {
    /// Whether this is `init`.
    pub fn is_init(&self) -> (r: bool)
        ensures
            r == (self is Init),
    {
        matches!(self, Commands::Init { .. })
    }

    /// Whether this is `new`.
    pub fn is_new(&self) -> (r: bool)
        ensures
            r == (self is New),
    {
        matches!(self, Commands::New { .. })
    }

    /// Whether this is `memory`.
    pub fn is_memory(&self) -> (r: bool)
        ensures
            r == (self is Memory),
    {
        matches!(self, Commands::Memory { .. })
    }

    /// Whether this is `completion`.
    pub fn is_completion(&self) -> (r: bool)
        ensures
            r == (self is Completion),
    {
        matches!(self, Commands::Completion { .. })
    }

    /// The force flag of `init`, and none for the other commands.
    pub fn get_init_force(&self) -> (r: Option<bool>)
        ensures
            r == match self {
                Commands::Init { force } => Some(*force),
                _ => None::<bool>,
            },
    {
        match self {
            Commands::Init { force } => Some(*force),
            _ => None,
        }
    }

    /// The feature name of `new`, and none for the other commands.
    pub fn get_new_name(&self) -> (r: Option<&str>)
        ensures
            match self {
                Commands::New { name } => r matches Some(s) && s@ == name@,
                _ => r is None,
            },
    {
        match self {
            Commands::New { name } => Some(name.as_str()),
            _ => None,
        }
    }

    /// The memory subcommand of `memory`, and none for the other commands.
    pub fn get_memory_command(&self) -> (r: Option<&MemoryCommands>)
        ensures
            match self {
                Commands::Memory { command } => r == Some(command),
                _ => r is None,
            },
    {
        match self {
            Commands::Memory { command } => Some(command),
            _ => None,
        }
    }

    /// The shell of `completion`, and none for the other commands.
    pub fn get_completion_shell(&self) -> (r: Option<&Shell>)
        ensures
            match self {
                Commands::Completion { shell } => r == Some(shell),
                _ => r is None,
            },
    {
        match self {
            Commands::Completion { shell } => Some(shell),
            _ => None,
        }
    }
}

impl MemoryCommands {
    /// Whether this is `serve`.
    pub fn is_serve(&self) -> (r: bool)
        ensures
            r == (self is Serve),
    {
        matches!(self, MemoryCommands::Serve)
    }

    /// Whether this is `document`.
    pub fn is_document(&self) -> (r: bool)
        ensures
            r == (self is Document),
    {
        matches!(self, MemoryCommands::Document { .. })
    }

    /// Whether this is `reindex`.
    pub fn is_reindex(&self) -> (r: bool)
        ensures
            r == (self is Reindex),
    {
        matches!(self, MemoryCommands::Reindex { .. })
    }

    /// The memory type `document` was given, if any; none for the other subcommands.
    pub fn get_document_type(&self) -> (r: Option<&str>)
        ensures
            match self {
                MemoryCommands::Document { memory_type: Some(t) } => r matches Some(s) && s@ == t@,
                _ => r is None,
            },
    {
        match self {
            MemoryCommands::Document { memory_type } => match memory_type {
                Some(t) => Some(t.as_str()),
                None => None,
            },
            _ => None,
        }
    }

    /// The `(dry_run, verbose)` flags of `reindex`, and none for the other subcommands.
    pub fn get_reindex_options(&self) -> (r: Option<(bool, bool)>)
        ensures
            r == match self {
                MemoryCommands::Reindex { dry_run, verbose } => Some((*dry_run, *verbose)),
                _ => None::<(bool, bool)>,
            },
    {
        match self {
            MemoryCommands::Reindex { dry_run, verbose } => Some((*dry_run, *verbose)),
            _ => None,
        }
    }
}

/// A memory operation ready to run.
#[derive(Debug, Clone)]
pub enum MemoryCommand {
    Serve,
    Document { memory_type: Option<String> },
    Reindex { dry_run: bool, verbose: bool },
}

impl MemoryCommand {
    /// The operation a parsed memory subcommand asks for, with its options carried over.
    pub fn from_memory_commands(command: MemoryCommands) -> (r: Self)
        ensures
            match command {
                MemoryCommands::Serve => r is Serve,
                MemoryCommands::Document { memory_type } => r == (MemoryCommand::Document {
                    memory_type,
                }),
                MemoryCommands::Reindex { dry_run, verbose } => r == (MemoryCommand::Reindex {
                    dry_run,
                    verbose,
                }),
            },
    {
        match command {
            MemoryCommands::Serve => MemoryCommand::Serve,
            MemoryCommands::Document { memory_type } => MemoryCommand::Document { memory_type },
            MemoryCommands::Reindex { dry_run, verbose } => MemoryCommand::Reindex {
                dry_run,
                verbose,
            },
        }
    }
}

/// Whether `a` is one of the two spellings of the verbose flag.
pub open spec fn is_verbose_flag(a: Seq<char>) -> bool {
    a == "-v"@ || a == "--verbose"@
}

proof fn lemma_literals_differ()
    ensures
        "--dry-run"@ != "-h"@,
        "--dry-run"@ != "--help"@,
        "--dry-run"@ != "-v"@,
        "--dry-run"@ != "--verbose"@,
        "-v"@ != "-h"@,
        "-v"@ != "--help"@,
        "-v"@ != "--verbose"@,
        "--verbose"@ != "-h"@,
        "--verbose"@ != "--help"@,
        "memory"@ != "-h"@,
        "memory"@ != "--help"@,
        "memory"@ != "help"@,
        "memory"@ != "-V"@,
        "memory"@ != "--version"@,
        "memory"@ != "init"@,
        "memory"@ != "new"@,
        "reindex"@ != "-h"@,
        "reindex"@ != "--help"@,
        "reindex"@ != "help"@,
        "reindex"@ != "serve"@,
        "reindex"@ != "document"@,
{
    reveal_strlit("-h");
    reveal_strlit("--help");
    reveal_strlit("help");
    reveal_strlit("-V");
    reveal_strlit("--version");
    reveal_strlit("init");
    reveal_strlit("new");
    reveal_strlit("memory");
    reveal_strlit("serve");
    reveal_strlit("document");
    reveal_strlit("reindex");
    reveal_strlit("--dry-run");
    reveal_strlit("-v");
    reveal_strlit("--verbose");
    assert("--dry-run"@.len() == 9);
    assert("-h"@.len() == 2);
    assert("--help"@.len() == 6);
    assert("-v"@.len() == 2);
    assert("--verbose"@.len() == 9);
    assert("--dry-run"@[2] != "--verbose"@[2]);
    assert("-v"@[1] != "-h"@[1]);
    assert("memory"@.len() == 6);
    assert("help"@.len() == 4);
    assert("-V"@.len() == 2);
    assert("--version"@.len() == 9);
    assert("init"@.len() == 4);
    assert("new"@.len() == 3);
    assert("memory"@[0] != "--help"@[0]);
    assert("reindex"@.len() == 7);
    assert("serve"@.len() == 5);
    assert("document"@.len() == 8);
}

proof fn lemma_reindex_flags_from(args: Seq<Seq<char>>, i: int, dry_run: bool, verbose: bool)
    requires
        3 <= i <= args.len(),
        forall|j: int|
            3 <= j < args.len() ==> #[trigger] args[j] == "--dry-run"@ || is_verbose_flag(args[j]),
        forall|j: int, k: int|
            3 <= j < k < args.len() ==> !(#[trigger] args[j] == "--dry-run"@ && #[trigger] args[k]
                == "--dry-run"@),
        forall|j: int, k: int|
            3 <= j < k < args.len() ==> !(is_verbose_flag(#[trigger] args[j]) && is_verbose_flag(
                #[trigger] args[k],
            )),
        dry_run == args.subrange(3, i).contains("--dry-run"@),
        verbose == (args.subrange(3, i).contains("-v"@) || args.subrange(3, i).contains(
            "--verbose"@,
        )),
    ensures
        parse_reindex(args, i, dry_run, verbose) == Ok::<CommandView, CliErrorView>(
            CommandView::Memory {
                command: MemoryView::Reindex {
                    dry_run: args.subrange(3, args.len() as int).contains("--dry-run"@),
                    verbose: args.subrange(3, args.len() as int).contains("-v"@) || args.subrange(
                        3,
                        args.len() as int,
                    ).contains("--verbose"@),
                },
            },
        ),
    decreases args.len() - i,
{
    lemma_literals_differ();
    if i == args.len() {
        assert(args.subrange(3, i) =~= args.subrange(3, args.len() as int));
    } else {
        let a = args[i];
        let before = args.subrange(3, i);
        let after = args.subrange(3, i + 1);
        assert(after =~= before.push(a));
        assert(a == "--dry-run"@ || is_verbose_flag(a));
        assert(!is_help_flag(a));
        if a == "--dry-run"@ {
            if dry_run {
                let j = choose|j: int| 0 <= j < before.len() && before[j] == "--dry-run"@;
                assert(args[3 + j] == before[j]);
                assert(false);
            }
            assert(after.contains("--dry-run"@)) by {
                assert(after[before.len() as int] == a);
            }
            assert(after.contains("-v"@) == before.contains("-v"@)) by {
                if after.contains("-v"@) {
                    let j = choose|j: int| 0 <= j < after.len() && after[j] == "-v"@;
                    assert(j < before.len());
                    assert(before[j] == after[j]);
                }
                if before.contains("-v"@) {
                    let j = choose|j: int| 0 <= j < before.len() && before[j] == "-v"@;
                    assert(after[j] == before[j]);
                }
            }
            assert(after.contains("--verbose"@) == before.contains("--verbose"@)) by {
                if after.contains("--verbose"@) {
                    let j = choose|j: int| 0 <= j < after.len() && after[j] == "--verbose"@;
                    assert(j < before.len());
                    assert(before[j] == after[j]);
                }
                if before.contains("--verbose"@) {
                    let j = choose|j: int| 0 <= j < before.len() && before[j] == "--verbose"@;
                    assert(after[j] == before[j]);
                }
            }
            lemma_reindex_flags_from(args, i + 1, true, verbose);
        } else {
            if verbose {
                if before.contains("-v"@) {
                    let j = choose|j: int| 0 <= j < before.len() && before[j] == "-v"@;
                    assert(args[3 + j] == before[j]);
                    assert(is_verbose_flag(args[3 + j]));
                } else {
                    let j = choose|j: int| 0 <= j < before.len() && before[j] == "--verbose"@;
                    assert(args[3 + j] == before[j]);
                    assert(is_verbose_flag(args[3 + j]));
                }
                assert(false);
            }
            assert(after.contains(a)) by {
                assert(after[before.len() as int] == a);
            }
            assert(after.contains("-v"@) || after.contains("--verbose"@));
            assert(after.contains("--dry-run"@) == before.contains("--dry-run"@)) by {
                if after.contains("--dry-run"@) {
                    let j = choose|j: int| 0 <= j < after.len() && after[j] == "--dry-run"@;
                    assert(j < before.len());
                    assert(before[j] == after[j]);
                }
                if before.contains("--dry-run"@) {
                    let j = choose|j: int| 0 <= j < before.len() && before[j] == "--dry-run"@;
                    assert(after[j] == before[j]);
                }
            }
            lemma_reindex_flags_from(args, i + 1, dry_run, true);
        }
    }
}

/// `memory reindex` followed by its flags, each given at most once, is a
/// reindex that is a dry run exactly when `--dry-run` is among them and is
/// verbose exactly when `-v` or `--verbose` is; the two flags do not depend
/// on each other.
pub proof fn law_reindex_flags(args: Seq<Seq<char>>)
    requires
        args.len() >= 3,
        args[1] == "memory"@,
        args[2] == "reindex"@,
        forall|j: int|
            3 <= j < args.len() ==> #[trigger] args[j] == "--dry-run"@ || args[j] == "-v"@ || args[j]
                == "--verbose"@,
        forall|j: int, k: int|
            3 <= j < k < args.len() ==> !(#[trigger] args[j] == "--dry-run"@ && #[trigger] args[k]
                == "--dry-run"@),
        forall|j: int, k: int|
            3 <= j < k < args.len() ==> !((#[trigger] args[j] == "-v"@ || args[j] == "--verbose"@)
                && (#[trigger] args[k] == "-v"@ || args[k] == "--verbose"@)),
    ensures
        parse_command_line(args) == Ok::<CommandView, CliErrorView>(
            CommandView::Memory {
                command: MemoryView::Reindex {
                    dry_run: args.subrange(3, args.len() as int).contains("--dry-run"@),
                    verbose: args.subrange(3, args.len() as int).contains("-v"@) || args.subrange(
                        3,
                        args.len() as int,
                    ).contains("--verbose"@),
                },
            },
        ),
{
    lemma_literals_differ();
    assert(args.subrange(3, 3) =~= Seq::<Seq<char>>::empty());
    assert forall|j: int|
        3 <= j < args.len() implies #[trigger] args[j] == "--dry-run"@ || is_verbose_flag(
            args[j],
        ) by {}
    assert forall|j: int, k: int|
        3 <= j < k < args.len() implies !(is_verbose_flag(#[trigger] args[j]) && is_verbose_flag(
            #[trigger] args[k],
        )) by {}
    lemma_reindex_flags_from(args, 3, false, false);
}

proof fn lemma_more_literals_differ()
    ensures
        "init"@ != "-h"@,
        "init"@ != "--help"@,
        "init"@ != "help"@,
        "init"@ != "-V"@,
        "init"@ != "--version"@,
        "new"@ != "-h"@,
        "new"@ != "--help"@,
        "new"@ != "help"@,
        "new"@ != "-V"@,
        "new"@ != "--version"@,
        "new"@ != "init"@,
        "document"@ != "-h"@,
        "document"@ != "--help"@,
        "document"@ != "help"@,
        "document"@ != "serve"@,
        "-f"@ != "-h"@,
        "-f"@ != "--help"@,
        "--force"@ != "-h"@,
        "--force"@ != "--help"@,
        "-f"@ != "--force"@,
        "--type"@ != "-h"@,
        "--type"@ != "--help"@,
        "-t"@ != "-h"@,
        "-t"@ != "--help"@,
        "-t"@ != "--type"@,
        looks_like_flag("-t"@),
{
    reveal_strlit("-h");
    reveal_strlit("--help");
    reveal_strlit("help");
    reveal_strlit("-V");
    reveal_strlit("--version");
    reveal_strlit("init");
    reveal_strlit("new");
    reveal_strlit("serve");
    reveal_strlit("document");
    reveal_strlit("-f");
    reveal_strlit("--force");
    reveal_strlit("--type");
    reveal_strlit("-t");
    assert("-h"@.len() == 2);
    assert("--help"@.len() == 6);
    assert("help"@.len() == 4);
    assert("-V"@.len() == 2);
    assert("--version"@.len() == 9);
    assert("init"@.len() == 4);
    assert("new"@.len() == 3);
    assert("serve"@.len() == 5);
    assert("document"@.len() == 8);
    assert("-f"@.len() == 2);
    assert("--force"@.len() == 7);
    assert("--type"@.len() == 6);
    assert("-t"@.len() == 2);
    assert("init"@[0] != "help"@[0]);
    assert("-f"@[1] != "-h"@[1]);
    assert("-t"@[1] != "-h"@[1]);
    assert("--type"@[2] != "--help"@[2]);
}

/// `init` is a forced initialization exactly when `-f` or `--force`
/// follows it.
pub proof fn law_init_force(args: Seq<Seq<char>>)
    requires
        2 <= args.len() <= 3,
        args[1] == "init"@,
        args.len() == 3 ==> (args[2] == "-f"@ || args[2] == "--force"@),
    ensures
        parse_command_line(args) == Ok::<CommandView, CliErrorView>(
            CommandView::Init { force: args.len() == 3 },
        ),
{
    lemma_more_literals_differ();
    lemma_literals_differ();
    assert(parse_init(args, 3, true) == Ok::<CommandView, CliErrorView>(
        CommandView::Init { force: true },
    ));
    if args.len() == 3 {
        assert(!is_help_flag(args[2]));
        assert(parse_init(args, 2, false) == parse_init(args, 3, true));
    } else {
        assert(parse_init(args, 2, false) == Ok::<CommandView, CliErrorView>(
            CommandView::Init { force: false },
        ));
    }
}

/// `new` followed by a name that is not an option creates a feature of
/// exactly that name.
pub proof fn law_new_takes_the_name(program: Seq<char>, name: Seq<char>)
    requires
        !looks_like_flag(name),
    ensures
        parse_command_line(seq![program, "new"@, name]) == Ok::<CommandView, CliErrorView>(
            CommandView::New { name },
        ),
{
    lemma_more_literals_differ();
    reveal_strlit("--");
    let args = seq![program, "new"@, name];
    assert(args[1] == "new"@);
    assert(args[2] == name);
    lemma_literals_differ();
    if name == "--"@ {
        assert("--"@.len() == 2);
        assert(looks_like_flag(name));
    }
    if name == "-h"@ || name == "--help"@ {
        reveal_strlit("-h");
        reveal_strlit("--help");
        assert(name[0] == '-' && name.len() >= 2);
        assert(looks_like_flag(name));
    }
    assert(!is_help_flag(name));
    assert(parse_new(args, 3, Some(name), false) == Ok::<CommandView, CliErrorView>(
        CommandView::New { name },
    ));
    assert(parse_new(args, 2, None, false) == parse_new(args, 3, Some(name), false));
}

/// `memory document` writes the documents of the type that `--type` or
/// `-t` names, and of every type without one.
pub proof fn law_document_type(program: Seq<char>, t: Seq<char>)
    requires
        !looks_like_flag(t),
    ensures
        parse_command_line(seq![program, "memory"@, "document"@]) == Ok::<CommandView, CliErrorView>(
            CommandView::Memory { command: MemoryView::Document { memory_type: None } },
        ),
        parse_command_line(seq![program, "memory"@, "document"@, "--type"@, t]) == Ok::<
            CommandView,
            CliErrorView,
        >(CommandView::Memory { command: MemoryView::Document { memory_type: Some(t) } }),
        parse_command_line(seq![program, "memory"@, "document"@, "-t"@, t]) == Ok::<
            CommandView,
            CliErrorView,
        >(CommandView::Memory { command: MemoryView::Document { memory_type: Some(t) } }),
{
    lemma_literals_differ();
    lemma_more_literals_differ();
    let a = seq![program, "memory"@, "document"@];
    assert(a[1] == "memory"@ && a[2] == "document"@);
    let b = seq![program, "memory"@, "document"@, "--type"@, t];
    assert(b[1] == "memory"@ && b[2] == "document"@ && b[3] == "--type"@ && b[4] == t);
    let c = seq![program, "memory"@, "document"@, "-t"@, t];
    assert(c[1] == "memory"@ && c[2] == "document"@ && c[3] == "-t"@ && c[4] == t);
    assert(parse_document(b, 5, Some(t)) == Ok::<CommandView, CliErrorView>(
        CommandView::Memory { command: MemoryView::Document { memory_type: Some(t) } },
    ));
    assert(parse_document(b, 3, None) == parse_document(b, 5, Some(t)));
    assert(parse_memory(b, 2) == parse_document(b, 3, None));
    assert(parse_document(c, 5, Some(t)) == Ok::<CommandView, CliErrorView>(
        CommandView::Memory { command: MemoryView::Document { memory_type: Some(t) } },
    ));
    assert(parse_document(c, 3, None) == parse_document(c, 5, Some(t)));
    assert(parse_memory(c, 2) == parse_document(c, 3, None));
}

proof fn lemma_completion_step(program: Seq<char>, name: Seq<char>, shell: Shell)
    requires
        shell_named(name) == Some(shell),
        !looks_like_flag(name),
    ensures
        parse_command_line(seq![program, "completion"@, name]) == Ok::<CommandView, CliErrorView>(
            CommandView::Completion { shell },
        ),
{
    reveal_strlit("-h");
    reveal_strlit("--help");
    reveal_strlit("help");
    reveal_strlit("-V");
    reveal_strlit("--version");
    reveal_strlit("init");
    reveal_strlit("new");
    reveal_strlit("memory");
    reveal_strlit("completion");
    reveal_strlit("--");
    assert("completion"@.len() == 10);
    assert("-h"@.len() == 2);
    assert("--help"@.len() == 6);
    assert("help"@.len() == 4);
    assert("-V"@.len() == 2);
    assert("--version"@.len() == 9);
    assert("init"@.len() == 4);
    assert("new"@.len() == 3);
    assert("memory"@.len() == 6);
    let args = seq![program, "completion"@, name];
    assert(args[1] == "completion"@ && args[2] == name);
    if name == "--"@ || name == "-h"@ || name == "--help"@ {
        assert(name[0] == '-' && name.len() >= 2);
    }
    assert(parse_completion(args, 3, Some(shell), false) == Ok::<CommandView, CliErrorView>(
        CommandView::Completion { shell },
    ));
}

/// `completion` followed by `bash`, `zsh`, `fish`, `power-shell` or
/// `elvish` generates the completions of that shell.
pub proof fn law_completion_shells(program: Seq<char>)
    ensures
        parse_command_line(seq![program, "completion"@, "bash"@]) == Ok::<CommandView, CliErrorView>(
            CommandView::Completion { shell: Shell::Bash },
        ),
        parse_command_line(seq![program, "completion"@, "zsh"@]) == Ok::<CommandView, CliErrorView>(
            CommandView::Completion { shell: Shell::Zsh },
        ),
        parse_command_line(seq![program, "completion"@, "fish"@]) == Ok::<CommandView, CliErrorView>(
            CommandView::Completion { shell: Shell::Fish },
        ),
        parse_command_line(seq![program, "completion"@, "power-shell"@]) == Ok::<
            CommandView,
            CliErrorView,
        >(CommandView::Completion { shell: Shell::PowerShell }),
        parse_command_line(seq![program, "completion"@, "elvish"@]) == Ok::<CommandView, CliErrorView>(
            CommandView::Completion { shell: Shell::Elvish },
        ),
{
    reveal_strlit("bash");
    reveal_strlit("zsh");
    reveal_strlit("fish");
    reveal_strlit("power-shell");
    reveal_strlit("elvish");
    assert("bash"@.len() == 4 && "zsh"@.len() == 3 && "fish"@.len() == 4);
    assert("power-shell"@.len() == 11 && "elvish"@.len() == 6);
    assert("bash"@[0] != "fish"@[0]);
    lemma_completion_step(program, "bash"@, Shell::Bash);
    lemma_completion_step(program, "zsh"@, Shell::Zsh);
    lemma_completion_step(program, "fish"@, Shell::Fish);
    lemma_completion_step(program, "power-shell"@, Shell::PowerShell);
    lemma_completion_step(program, "elvish"@, Shell::Elvish);
}

} // verus!
