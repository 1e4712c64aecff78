//! Option values of the memory commands.

use vstd::prelude::*;
use crate::text::str_eq;

verus! {

/// Formats memories can be exported to.
#[derive(Debug, Clone, Copy, PartialEq, Eq, Structural)]
pub enum ExportFormat {
    Json,
    Csv,
}

/// Formats memories can be imported from.
#[derive(Debug, Clone, Copy, PartialEq, Eq, Structural)]
pub enum ImportFormat {
    Json,
    Csv,
}

/// What search results are ordered by.
#[derive(Debug, Clone, Copy, PartialEq, Eq, Structural)]
pub enum SortBy {
    Relevance,
    Created,
    Modified,
    Confidence,
    References,
    Topic,
}

/// The direction of an ordering.
#[derive(Debug, Clone, Copy, PartialEq, Eq, Structural)]
pub enum SortOrder {
    Asc,
    Desc,
}

/// How duplicates are merged.
#[derive(Debug, Clone, Copy, PartialEq, Eq, Structural)]
pub enum MergeStrategy {
    /// Keep the newer memory and merge content.
    Newer,
    /// Keep the older memory and merge content.
    Older,
    /// Keep the memory with higher confidence.
    Confidence,
    /// Keep the memory with more references.
    References,
    /// Decide from several factors.
    Smart,
}

/// The analyses of the embedding space.
#[derive(Debug, Clone, Copy, PartialEq, Eq, Structural)]
pub enum AnalysisType {
    Overview,
    Similarity,
    Density,
    Outliers,
    Vocabulary,
    Temporal,
}

/// The operations on the embedding index.
#[derive(Debug, Clone, Copy, PartialEq, Eq, Structural)]
pub enum IndexOperation {
    Build,
    Update,
    Stats,
    ClearCache,
    Optimize,
    Verify,
}

/// The outcome of an import.
#[derive(Debug, Clone)]
pub struct ImportResult {
    pub created: usize,
    pub updated: usize,
    pub skipped: usize,
    pub errors: Vec<String>,
}

/// The extension `std::path::Path::extension` finds in the path `p`: the
/// text after the last dot of the file name, if the name has a dot that is
/// not its first character.
pub uninterp spec fn path_extension(p: Seq<char>) -> Option<Seq<char>>;

/// Calls `std::path::Path::extension` on `p`. Trusted: the answer is the one
/// `path_extension` names, which depends on the path alone (the extension of
/// a path given as text is text too).
#[verifier::external_body]
fn extension_of(p: &str) -> (r: Option<String>)
    ensures
        r matches Some(e) ==> path_extension(p@) == Some(e@),
        r is None ==> path_extension(p@) is None,
{
    match std::path::Path::new(p).extension() {
        Some(e) => match e.to_str() {
            Some(t) => Some(t.to_string()),
            None => None,
        },
        None => None,
    }
}

/// The import format: the one given, else the one the file's extension
/// names (`json` or `csv`), else JSON with a warning (the second value).
pub fn import_format_for(given: Option<ImportFormat>, input: &str) -> (r: (ImportFormat, bool))
    ensures
        given matches Some(f) ==> r == (f, false),
        given is None ==> r == match path_extension(input@) {
            Some(e) => if e == "json"@ {
                (ImportFormat::Json, false)
            } else if e == "csv"@ {
                (ImportFormat::Csv, false)
            } else {
                (ImportFormat::Json, true)
            },
            None => (ImportFormat::Json, true),
        },
{
    if let Some(f) = given {
        return (f, false);
    }
    match extension_of(input) {
        Some(e) => {
            if str_eq(e.as_str(), "json") {
                (ImportFormat::Json, false)
            } else if str_eq(e.as_str(), "csv") {
                (ImportFormat::Csv, false)
            } else {
                (ImportFormat::Json, true)
            }
        },
        None => (ImportFormat::Json, true),
    }
}

} // verus!
