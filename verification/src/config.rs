//! Project configuration: the memory types a project accepts.

use vstd::prelude::*;
use vstd::string::StringExecFns;

verus! {

/// The format memory documents are written in.
#[derive(Debug, Clone, Copy, PartialEq, Eq)]
pub enum DocumentFormat {
    Markdown,
}

/// The configuration of a project.
#[derive(Debug, Clone)]
pub struct ProjectConfig {
    pub memory_types: Vec<String>,
    pub instructions: String,
    pub document_format: DocumentFormat,
}

/// The memory types of a new project, in order.
pub open spec fn default_memory_types() -> Seq<Seq<char>> {
    seq!["tech"@, "project-tech"@, "domain"@, "workflow"@, "decision"@]
}

/// The texts of a list of strings.
pub open spec fn texts(v: Seq<String>) -> Seq<Seq<char>> {
    v.map_values(|s: String| s@)
}

/// The instructions of a new project.
pub open spec fn default_instructions() -> Seq<char> {
    "Record technical knowledge, project decisions and domain insights as memories."@
}

impl ProjectConfig {
    /// The configured memory types as texts.
    pub open spec fn types(&self) -> Seq<Seq<char>> {
        texts(self.memory_types@)
    }

    /// The configuration a new project starts with: the five default
    /// memory types, the default instructions and Markdown documents.
    pub fn default_for_new_project() -> (c: Self)
        ensures
            c.types() == default_memory_types(),
            c.instructions@ == default_instructions(),
            c.document_format == DocumentFormat::Markdown,
    {
        let mut memory_types: Vec<String> = Vec::new();
        memory_types.push(String::from_str("tech"));
        memory_types.push(String::from_str("project-tech"));
        memory_types.push(String::from_str("domain"));
        memory_types.push(String::from_str("workflow"));
        memory_types.push(String::from_str("decision"));
        let c = ProjectConfig {
            memory_types,
            instructions: String::from_str(
                "Record technical knowledge, project decisions and domain insights as memories.",
            ),
            document_format: DocumentFormat::Markdown,
        };
        assert(c.types() =~= default_memory_types());
        c
    }

    /// Whether `memory_type` is one of the configured memory types
    /// (compared exactly, case included).
    pub fn validate_memory_type(&self, memory_type: &str) -> (r: bool)
        ensures
            r == self.types().contains(memory_type@),
    {
        let mut i: usize = 0;
        while i < self.memory_types.len()
            invariant
                i <= self.memory_types@.len(),
                forall|j: int| 0 <= j < i ==> self.memory_types@[j]@ != memory_type@,
            decreases self.memory_types.len() - i,
        {
            if crate::text::str_eq(self.memory_types[i].as_str(), memory_type) {
                assert(self.types()[i as int] == memory_type@);
                return true;
            }
            i = i + 1;
        }
        assert forall|j: int| 0 <= j < self.types().len() implies self.types()[j]
            != memory_type@ by {
            assert(self.memory_types@[j]@ != memory_type@);
        }
        false
    }
}

} // verus!
