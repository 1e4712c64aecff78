//! The project use cases: initializing a project, creating and completing
//! features.

use vstd::prelude::*;
use vstd::string::StringExecFns;
use crate::clock::today_utc_date;
use crate::config::ProjectConfig;
use crate::error::ApplicationError;
use crate::naming::{is_date_text, is_valid_feature_name, valid_feature_name};
use crate::memory_repository::MemoryRepository;
use crate::repository::ProjectRepository;
use crate::config::texts;
use crate::text::{append_str, push_char};

verus! {

/// What `initialize_project` decides from the answer of `project_exists`: a failed
/// check fails with its error, an existing project without `force` fails with
/// `ProjectAlreadyExists`, and everything else goes on.
pub fn initialization_gate(exists: Result<bool, ApplicationError>, force: bool) -> (r: Result<
    (),
    ApplicationError,
>)
    ensures
        exists matches Err(e) ==> r == Err::<(), ApplicationError>(e),
        exists == Ok::<bool, ApplicationError>(true) && !force ==> r == Err::<
            (),
            ApplicationError,
        >(ApplicationError::ProjectAlreadyExists),
        exists == Ok::<bool, ApplicationError>(false) || (exists is Ok && force) ==> r is Ok,
{
    match exists {
        Err(e) => Err(e),
        Ok(true) if !force => Err(ApplicationError::ProjectAlreadyExists),
        Ok(_) => Ok(()),
    }
}

/// Initializes a project: checks whether it exists (an existing project is
/// only initialized again with `force`), creates the structure, writes the
/// default configuration and updates the ignore file, stopping at the first
/// error. The repository decides each outcome.
pub fn initialize_project<R: ProjectRepository>(repository: &R, force: bool) -> (r: Result<
    (),
    ApplicationError,
>) {
    let existing = repository.project_exists();
    initialization_gate(existing, force)?;
    repository.initialize()?;
    let config = ProjectConfig::default_for_new_project();
    repository.save_config(&config)?;
    repository.update_gitignore()?;
    Ok(())
}

/// Marks each named specification complete, in order, stopping at the first
/// error. The repository decides each outcome.
pub fn complete_features<R: ProjectRepository>(project_repo: &R, spec_names: &[String]) -> (r:
    Result<(), ApplicationError>)
    ensures
        spec_names@.len() == 0 ==> r is Ok,
{
    let mut i: usize = 0;
    while i < spec_names.len()
        invariant
            i <= spec_names@.len(),
        decreases spec_names.len() - i,
    {
        project_repo.mark_spec_complete(spec_names[i].as_str())?;
        i = i + 1;
    }
    Ok(())
}

/// The path of a feature's specification directory relative to the project
/// root: `.kiro/specs/<date>-<name>`.
pub open spec fn feature_path_for(date: Seq<char>, name: Seq<char>) -> Seq<char> {
    ".kiro/specs/"@ + date + seq!['-'] + name
}

/// Builds `.kiro/specs/<date>-<name>`.
pub fn feature_spec_path(date: &str, name: &str) -> (r: String)
    ensures
        r@ == feature_path_for(date@, name@),
{
    let mut r = String::from_str(".kiro/specs/");
    append_str(&mut r, date);
    push_char(&mut r, '-');
    append_str(&mut r, name);
    r
}

/// What creating a feature answers once the repository has answered: its
/// error, or the path `.kiro/specs/<date>-<name>`.
pub fn feature_creation_result(created: Result<(), ApplicationError>, date: &str, name: &str) -> (r:
    Result<String, ApplicationError>)
    ensures
        created matches Err(e) ==> r == Err::<String, ApplicationError>(e),
        created is Ok ==> (r matches Ok(p) && p@ == feature_path_for(date@, name@)),
{
    match created {
        Err(e) => Err(e),
        Ok(()) => Ok(feature_spec_path(date, name)),
    }
}

/// Creates a feature: a name that is not non-empty kebab case fails with
/// `InvalidFeatureName` before the repository is asked; otherwise the
/// repository creates it, its error is passed on, and on success the path
/// `.kiro/specs/<today>-<name>` is returned, today written `YYYY-MM-DD`.
pub fn create_feature<R: ProjectRepository>(repository: &R, name: &str) -> (r: Result<
    String,
    ApplicationError,
>)
    ensures
        !is_valid_feature_name(name@) ==> (r matches Err(ApplicationError::InvalidFeatureName(n))
            && n@ == name@),
        r matches Ok(p) ==> exists|d: Seq<char>| is_date_text(d) && p@ == feature_path_for(d, name@),
{
    if !valid_feature_name(name) {
        return Err(ApplicationError::InvalidFeatureName(String::from_str(name)));
    }
    let created = repository.create_feature(name);
    let date = today_utc_date();
    let r = feature_creation_result(created, date.as_str(), name);
    if let Ok(p) = &r {
        assert(p@ == feature_path_for(date@, name@));
    }
    r
}

/// What a database reindex did.
#[derive(Debug, Clone, Copy, PartialEq, Eq)]
pub struct ReindexStats {
    pub deleted_entries: usize,
    pub index_rebuilt: bool,
    pub database_optimized: bool,
}

impl Default for ReindexStats {
    /// Nothing removed, nothing rebuilt, nothing optimized.
    fn default() -> (r: Self)
        ensures
            r.deleted_entries == 0,
            !r.index_rebuilt,
            !r.database_optimized,
    {
        ReindexStats { deleted_entries: 0, index_rebuilt: false, database_optimized: false }
    }
}

/// The memory types a document is generated for: the one asked for, which
/// must be configured (else `InvalidMemoryType`), or every configured type
/// in order.
pub fn document_types(config: &ProjectConfig, memory_type: Option<&str>) -> (r: Result<
    Vec<String>,
    ApplicationError,
>)
    ensures
        memory_type matches Some(t) ==> (config.types().contains(t@) <==> r is Ok),
        memory_type matches Some(t) ==> (!config.types().contains(t@) ==> (r matches Err(
            ApplicationError::InvalidMemoryType(n),
        ) && n@ == t@)),
        memory_type matches Some(t) ==> (config.types().contains(t@) ==> (r matches Ok(v) && texts(
            v@,
        ) == seq![t@])),
        memory_type is None ==> (r matches Ok(v) && texts(v@) == config.types()),
{
    match memory_type {
        Some(t) => {
            if config.validate_memory_type(t) {
                let mut v: Vec<String> = Vec::new();
                v.push(String::from_str(t));
                assert(texts(v@) =~= seq![t@]);
                Ok(v)
            } else {
                Err(ApplicationError::InvalidMemoryType(String::from_str(t)))
            }
        },
        None => {
            let mut v: Vec<String> = Vec::new();
            let mut i: usize = 0;
            while i < config.memory_types.len()
                invariant
                    i <= config.memory_types@.len(),
                    texts(v@) == config.types().take(i as int),
                decreases config.memory_types.len() - i,
            {
                let ghost before = v@;
                let t = config.memory_types[i].clone();
                v.push(t);
                assert(texts(v@) =~= texts(before).push(config.types()[i as int]));
                assert(config.types().take(i + 1) =~= config.types().take(i as int).push(
                    config.types()[i as int],
                ));
                i = i + 1;
            }
            assert(config.types().take(config.memory_types@.len() as int) =~= config.types());
            Ok(v)
        },
    }
}

/// Writes the memory documents: loads the configuration and goes on as
/// `generate_documents_for` does. The repositories decide each outcome.
pub fn generate_document<M: MemoryRepository, P: ProjectRepository<Memory = M::Memory>>(
    memory_repo: &mut M,
    project_repo: &P,
    memory_type: Option<&str>,
) -> (r: Result<String, ApplicationError>)
    ensures
        r matches Ok(p) ==> p@ == ".kiro/memory"@,
{
    let config = project_repo.load_config()?;
    generate_documents_for(&config, memory_repo, project_repo, memory_type)
}

/// Writes the memory documents of a configuration: for each type that
/// `document_types` gives, reads its memories and saves its document,
/// stopping at the first error; an unconfigured type fails before any
/// repository is asked, and with no type to write nothing can fail. The
/// documents go to `.kiro/memory`, which is returned.
pub fn generate_documents_for<M: MemoryRepository, P: ProjectRepository<Memory = M::Memory>>(
    config: &ProjectConfig,
    memory_repo: &mut M,
    project_repo: &P,
    memory_type: Option<&str>,
) -> (r: Result<String, ApplicationError>)
    ensures
        memory_type matches Some(t) ==> (!config.types().contains(t@) ==> (r matches Err(
            ApplicationError::InvalidMemoryType(n),
        ) && n@ == t@)),
        r matches Ok(p) ==> p@ == ".kiro/memory"@,
        memory_type is None && config.types().len() == 0 ==> r is Ok,
{
    let types = document_types(config, memory_type)?;
    assert(memory_type is None ==> types@.len() == config.types().len());
    let mut i: usize = 0;
    while i < types.len()
        invariant
            i <= types@.len(),
            memory_type matches Some(t) ==> config.types().contains(t@),
            memory_type is None ==> types@.len() == config.types().len(),
        decreases types.len() - i,
    {
        let memories = memory_repo.find_by_type(types[i].as_str())?;
        project_repo.save_document(types[i].as_str(), memories.as_slice())?;
        i = i + 1;
    }
    Ok(String::from_str(".kiro/memory"))
}

/// The statistics of a completed reindex that removed `deleted_entries`
/// memories: the index was rebuilt and the database optimized.
pub fn reindex_stats(deleted_entries: usize) -> (s: ReindexStats)
    ensures
        s == (ReindexStats { deleted_entries, index_rebuilt: true, database_optimized: true }),
{
    let mut stats = ReindexStats::default();
    stats.deleted_entries = deleted_entries;
    stats.index_rebuilt = true;
    stats.database_optimized = true;
    stats
}

/// Reindexes the memory database: removes the memories marked deleted,
/// rebuilds the full-text index and compacts the database, stopping at the
/// first error. On success the statistics are those `reindex_stats` builds
/// from the number of memories the removal reported.
pub fn reindex_memories<R: MemoryRepository>(repository: &mut R) -> (r: Result<
    ReindexStats,
    ApplicationError,
>)
    ensures
        r matches Ok(s) ==> s.index_rebuilt && s.database_optimized,
{
    let deleted = repository.cleanup_deleted()?;
    repository.rebuild_fts_index()?;
    repository.vacuum()?;
    Ok(reindex_stats(deleted))
}

} // verus!
