//! What the file-based project repository writes and where: the ignore-file
//! entries for the memory database, the templates of a new feature, and the
//! locations of specifications, the archive and memory documents.

use vstd::prelude::*;
use vstd::string::StringExecFns;
use crate::error::ApplicationError;
use crate::naming::{dir_name_for, feature_dir_name};
use crate::paths::{join, join_path, memory_db_rel, memory_rel, PathManager};
use crate::config::texts;
use crate::tag_list::{sort_names, sort_texts};
use crate::text::{append_str, chars_of, contains_chars, contains_text, occurs_at};

verus! {

/// The comment line that introduces the database entries of the ignore file.
pub open spec fn gitignore_header() -> Seq<char> {
    "\n# Hail-Mary database\n"@
}

/// The entries added to the ignore file: the database and its write-ahead
/// and shared-memory companions.
pub open spec fn gitignore_block() -> Seq<char> {
    gitignore_header() + memory_db_rel() + "\n"@ + memory_rel() + "/*.sqlite3-*\n"@
}

/// The ignore file after the update: unchanged when it already names the
/// database, otherwise with the database entries appended.
pub open spec fn updated_gitignore(content: Seq<char>) -> Seq<char> {
    if contains_text(content, memory_db_rel()) {
        content
    } else {
        content + gitignore_block()
    }
}

/// The first part of the requirements template, before the feature name.
pub open spec fn requirements_head() -> Seq<char> {
    "# Requirements\n\n## Overview\n[Feature description for "@
}

/// The rest of the requirements template, after the feature name.
pub open spec fn requirements_tail() -> Seq<char> {
    "]\n\n## User Stories\n- As a [user type], I want to [action] so that [benefit]\n\n## Acceptance Criteria\n- [ ] Criterion 1\n- [ ] Criterion 2\n\n## Technical Requirements\n- Database changes\n- API endpoints\n- UI components\n"@
}

/// The first part of the design template, before the feature name.
pub open spec fn design_head() -> Seq<char> {
    "# Design\n\n## Architecture\n[Architecture overview for "@
}

/// The rest of the design template, after the feature name.
pub open spec fn design_tail() -> Seq<char> {
    "]\n\n## Components\n[Component descriptions]\n\n## Data Flow\n[Data flow diagrams]\n"@
}

/// The tasks template.
pub open spec fn tasks_text() -> Seq<char> {
    "# Tasks\n\n## Implementation Tasks\n- [ ] Task 1\n- [ ] Task 2\n- [ ] Task 3\n\n## Testing Tasks\n- [ ] Unit tests\n- [ ] Integration tests\n- [ ] E2E tests\n"@
}

/// The file-based project repository: a project located by a `PathManager`.
pub struct ProjectRepository {
    path_manager: PathManager,
}

/// The specification directories as listed: names sorted in reverse order
/// of strings, so that later dates come first, none of them archived.
pub open spec fn newest_first(names: Seq<Seq<char>>) -> Seq<(Seq<char>, bool)> {
    sort_texts(names).reverse().map_values(|n: Seq<char>| (n, false))
}

impl ProjectRepository {
    /// Lists specification directory names (distinct, as a directory holds
    /// them) newest first, each marked as not archived.
    pub fn spec_directories(&self, names: Vec<String>) -> (r: Vec<(String, bool)>)
        ensures
            r@.map_values(|e: (String, bool)| (e.0@, e.1)) == newest_first(texts(names@)),
    {
        let sorted = sort_names(names);
        let ghost sv = texts(sorted@);
        let mut r: Vec<(String, bool)> = Vec::new();
        let mut rest = sorted;
        while rest.len() > 0
            invariant
                sv.len() == rest@.len() + r@.len(),
                texts(rest@) == sv.take(rest@.len() as int),
                r@.map_values(|e: (String, bool)| (e.0@, e.1)) == sv.skip(rest@.len() as int).reverse().map_values(
                    |n: Seq<char>| (n, false),
                ),
            decreases rest.len(),
        {
            let ghost k = rest@.len() as int;
            let ghost before_rest = rest@;
            let ghost before_r = r@;
            let name = rest.pop().unwrap();
            assert(name@ == sv[k - 1]) by {
                assert(texts(before_rest)[k - 1] == sv.take(k)[k - 1]);
            }
            assert(texts(rest@) =~= sv.take(k - 1)) by {
                assert forall|q: int| 0 <= q < k - 1 implies #[trigger] texts(rest@)[q] == sv.take(k - 1)[q] by {
                    assert(rest@[q] == before_rest[q]);
                    assert(texts(before_rest)[q] == sv.take(k)[q]);
                }
            }
            r.push((name, false));
            assert(sv.skip(k - 1).reverse() =~= sv.skip(k).reverse().push(sv[k - 1]));
            assert(r@.map_values(|e: (String, bool)| (e.0@, e.1)) =~= before_r.map_values(
                |e: (String, bool)| (e.0@, e.1),
            ).push((sv[k - 1], false)));
            assert(sv.skip(k - 1).reverse().map_values(|n: Seq<char>| (n, false)) =~= sv.skip(k).reverse().map_values(
                |n: Seq<char>| (n, false),
            ).push((sv[k - 1], false)));
        }
        assert(sv.skip(0) =~= sv);
        r
    }

    /// The locations this repository works with.
    pub closed spec fn paths(&self) -> PathManager {
        self.path_manager
    }

    /// A repository for the project that `path_manager` locates.
    pub fn new(path_manager: PathManager) -> (r: Self)
        ensures
            r.paths() == path_manager,
    {
        ProjectRepository { path_manager }
    }

    /// The locations this repository works with.
    pub fn path_manager(&self) -> (r: &PathManager)
        ensures
            *r == self.paths(),
    {
        &self.path_manager
    }

    /// The ignore file with the memory database entries added, unless it
    /// already names the database.
    pub fn gitignore_with_database_entries(&self, content: &str) -> (r: String)
        ensures
            r@ == updated_gitignore(content@),
    {
        let db = self.path_manager.memory_db_path(false);
        let content_chars = chars_of(content);
        let db_chars = chars_of(db.as_str());
        let mut r = String::from_str(content);
        if !contains_chars(content_chars.as_slice(), db_chars.as_slice()) {
            append_str(&mut r, "\n# Hail-Mary database\n");
            append_str(&mut r, db.as_str());
            append_str(&mut r, "\n");
            let dir = self.path_manager.memory_dir(false);
            append_str(&mut r, dir.as_str());
            append_str(&mut r, "/*.sqlite3-*\n");
            assert(r@ =~= content@ + gitignore_block());
        }
        r
    }

    /// The directory of the feature `name` created on `date`, under the
    /// specifications directory.
    pub fn feature_dir(&self, date: &str, name: &str) -> (r: String)
        ensures
            r@ == join_path(self.paths().spec_specs_dir(true), dir_name_for(date@, name@)),
    {
        let specs = self.path_manager.specs_dir(true);
        let dir = feature_dir_name(date, name);
        join(specs.as_str(), dir.as_str())
    }

    /// The requirements template of the feature `name`.
    pub fn requirements_template(name: &str) -> (r: String)
        ensures
            r@ == requirements_head() + name@ + requirements_tail(),
    {
        let mut r = String::from_str("# Requirements\n\n## Overview\n[Feature description for ");
        append_str(&mut r, name);
        append_str(
            &mut r,
            "]\n\n## User Stories\n- As a [user type], I want to [action] so that [benefit]\n\n## Acceptance Criteria\n- [ ] Criterion 1\n- [ ] Criterion 2\n\n## Technical Requirements\n- Database changes\n- API endpoints\n- UI components\n",
        );
        r
    }

    /// The design template of the feature `name`.
    pub fn design_template(name: &str) -> (r: String)
        ensures
            r@ == design_head() + name@ + design_tail(),
    {
        let mut r = String::from_str("# Design\n\n## Architecture\n[Architecture overview for ");
        append_str(&mut r, name);
        append_str(
            &mut r,
            "]\n\n## Components\n[Component descriptions]\n\n## Data Flow\n[Data flow diagrams]\n",
        );
        r
    }

    /// The tasks template.
    pub fn tasks_template() -> (r: String)
        ensures
            r@ == tasks_text(),
    {
        String::from_str(
            "# Tasks\n\n## Implementation Tasks\n- [ ] Task 1\n- [ ] Task 2\n- [ ] Task 3\n\n## Testing Tasks\n- [ ] Unit tests\n- [ ] Integration tests\n- [ ] E2E tests\n",
        )
    }

    /// The document of the memory type `memory_type`: `<type>.md` in the memory directory.
    pub fn document_path(&self, memory_type: &str) -> (r: String)
        ensures
            r@ == join_path(self.paths().spec_memory_dir(true), memory_type@ + ".md"@),
    {
        let dir = self.path_manager.memory_dir(true);
        let mut file = String::from_str(memory_type);
        append_str(&mut file, ".md");
        join(dir.as_str(), file.as_str())
    }

    /// The specification directory `name`.
    pub fn spec_path(&self, name: &str) -> (r: String)
        ensures
            r@ == join_path(self.paths().spec_specs_dir(true), name@),
    {
        let specs = self.path_manager.specs_dir(true);
        join(specs.as_str(), name)
    }

    /// Where the specification `name` goes when it is archived.
    pub fn archived_spec_path(&self, name: &str) -> (r: String)
        ensures
            r@ == join_path(self.paths().spec_archive_dir(true), name@),
    {
        let archive = self.path_manager.archive_dir(true);
        join(archive.as_str(), name)
    }

    /// Whether a specification can be archived, from what its source path is:
    /// a missing one fails with `SpecNotFound`, one that is not a directory
    /// with `InvalidSpecDirectory`.
    pub fn check_spec_source(name: &str, exists: bool, is_dir: bool) -> (r: Result<
        (),
        ApplicationError,
    >)
        ensures
            !exists ==> (r matches Err(ApplicationError::SpecNotFound(n)) && n@ == name@),
            exists && !is_dir ==> (r matches Err(ApplicationError::InvalidSpecDirectory(n)) && n@
                == name@),
            exists && is_dir ==> r is Ok,
    {
        if !exists {
            Err(ApplicationError::SpecNotFound(String::from_str(name)))
        } else if !is_dir {
            Err(ApplicationError::InvalidSpecDirectory(String::from_str(name)))
        } else {
            Ok(())
        }
    }

    /// Whether the archive can take the specification `name`: it fails with
    /// `ArchiveAlreadyExists` when the archive already holds that name.
    pub fn check_archive_target(name: &str, exists: bool) -> (r: Result<(), ApplicationError>)
        ensures
            exists ==> (r matches Err(ApplicationError::ArchiveAlreadyExists(n)) && n@ == name@),
            !exists ==> r is Ok,
    {
        if exists {
            Err(ApplicationError::ArchiveAlreadyExists(String::from_str(name)))
        } else {
            Ok(())
        }
    }
}

/// Law: updating the ignore file a second time changes nothing, so the
/// database entries are never added twice.
pub proof fn law_gitignore_update_idempotent(content: Seq<char>)
    ensures
        updated_gitignore(updated_gitignore(content)) == updated_gitignore(content),
        contains_text(updated_gitignore(content), memory_db_rel()),
{
    if !contains_text(content, memory_db_rel()) {
        let u = content + gitignore_block();
        let at: int = (content.len() + gitignore_header().len()) as int;
        assert(u.subrange(at, at + memory_db_rel().len() as int) =~= memory_db_rel());
        assert(occurs_at(u, memory_db_rel(), at));
    }
}

} // verus!
