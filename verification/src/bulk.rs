//! The decisions shared by the bulk operations on memories (delete, update,
//! tag rename and cleanup): when to preview, back up, ask and act; and the
//! updates a bulk update applies.
//!
//! The caller carries out each step (reading the memories, writing the
//! backup, asking on the terminal, changing the database) and reports back
//! how the operation stands.

use vstd::prelude::*;
use vstd::string::StringExecFns;
use crate::cluster::{lowercase, to_lowercase};
use crate::config::texts;
use crate::export::{join_strings, join_with, part_if};
use crate::text::{append_str, chars_of, string_from_chars, trim, trimmed};

verus! {

/// The safety options of a bulk operation.
#[derive(Debug, Clone, Copy, PartialEq, Eq, Structural)]
pub struct SafetyOptions {
    /// Show what would change, and change nothing.
    pub dry_run: bool,
    /// Do not ask before changing.
    pub yes: bool,
    /// Write a backup before changing.
    pub backup: bool,
    /// Print nothing, and so ask nothing.
    pub quiet: bool,
}

/// How far a bulk operation has come.
#[derive(Debug, Clone, Copy, PartialEq, Eq, Structural)]
pub struct BulkProgress {
    /// How many memories (or tag usages) the operation would change.
    pub targets: usize,
    /// The backup has been written.
    pub backed_up: bool,
    /// The user has agreed to go on.
    pub confirmed: bool,
}

/// What a bulk operation does next.
#[derive(Debug, Clone, Copy, PartialEq, Eq, Structural)]
pub enum BulkStep {
    /// Report that nothing matches, and stop.
    NothingToDo,
    /// Show what would change, and stop.
    Preview,
    /// Write the backup.
    Backup,
    /// Ask the user whether to go on.
    Confirm,
    /// Make the change.
    Perform,
}

/// The step that follows: nothing when nothing matches; a preview on a dry
/// run; then the backup when one is asked for; then the question, unless
/// `yes` or `quiet` is set; then the change.
pub open spec fn step_for(o: SafetyOptions, p: BulkProgress) -> BulkStep {
    if p.targets == 0 {
        BulkStep::NothingToDo
    } else if o.dry_run {
        BulkStep::Preview
    } else if o.backup && !p.backed_up {
        BulkStep::Backup
    } else if !o.yes && !o.quiet && !p.confirmed {
        BulkStep::Confirm
    } else {
        BulkStep::Perform
    }
}

/// The step that follows (see `step_for`).
pub fn next_step(o: SafetyOptions, p: BulkProgress) -> (s: BulkStep)
    ensures
        s == step_for(o, p),
{
    if p.targets == 0 {
        BulkStep::NothingToDo
    } else if o.dry_run {
        BulkStep::Preview
    } else if o.backup && !p.backed_up {
        BulkStep::Backup
    } else if !o.yes && !o.quiet && !p.confirmed {
        BulkStep::Confirm
    } else {
        BulkStep::Perform
    }
}

/// An answer agrees when, trimmed and lowercased, it starts with `y`.
pub open spec fn agrees(answer: Seq<char>) -> bool {
    let a = lowercase(trim(answer));
    a.len() > 0 && a[0] == 'y'
}

/// Whether an answer to the question agrees (see `agrees`).
pub fn answer_agrees(answer: &str) -> (r: bool)
    ensures
        r == agrees(answer@),
{
    let cs = chars_of(answer);
    let t = trimmed(cs.as_slice());
    let ts = string_from_chars(t.as_slice());
    let lower = to_lowercase(ts.as_str());
    let lc = chars_of(lower.as_str());
    lc.len() > 0 && lc[0] == 'y'
}

/// A dry run changes nothing: it stops at the preview, or earlier.
pub proof fn law_dry_run_changes_nothing(o: SafetyOptions, p: BulkProgress)
    requires
        o.dry_run,
    ensures
        step_for(o, p) == BulkStep::NothingToDo || step_for(o, p) == BulkStep::Preview,
{
}

/// A change is made only on something to change, outside a dry run, after
/// the backup when one was asked for, and after the user agreed unless
/// `yes` or `quiet` was set.
pub proof fn law_change_after_safeguards(o: SafetyOptions, p: BulkProgress)
    requires
        step_for(o, p) == BulkStep::Perform,
    ensures
        p.targets > 0,
        !o.dry_run,
        o.backup ==> p.backed_up,
        o.yes || o.quiet || p.confirmed,
{
}

/// Following the steps (writing the backup, the user agreeing) leads to
/// the change in at most three steps when something matches outside a dry
/// run.
pub proof fn law_steps_lead_to_change(o: SafetyOptions, targets: usize)
    requires
        targets > 0,
        !o.dry_run,
    ensures
        ({
            let p0 = BulkProgress { targets, backed_up: false, confirmed: false };
            let p1 = if step_for(o, p0) == BulkStep::Backup {
                BulkProgress { backed_up: true, ..p0 }
            } else {
                p0
            };
            let p2 = if step_for(o, p1) == BulkStep::Confirm {
                BulkProgress { confirmed: true, ..p1 }
            } else {
                p1
            };
            step_for(o, p2) == BulkStep::Perform
        }),
{
}

/// The updates a bulk update applies to each memory. The confidence is
/// kept as already written with two decimals.
#[derive(Debug, Clone)]
pub struct UpdateOperations {
    pub add_tags: Option<Vec<String>>,
    pub remove_tags: Option<Vec<String>>,
    pub set_confidence: Option<String>,
    pub set_type: Option<String>,
    pub set_source: Option<String>,
}

/// Some update is asked for.
pub open spec fn any_update(u: UpdateOperations) -> bool {
    u.add_tags is Some || u.remove_tags is Some || u.set_confidence is Some || u.set_type is Some
        || u.set_source is Some
}

/// The lines that describe the updates, in a fixed order.
pub open spec fn update_lines(u: UpdateOperations) -> Seq<Seq<char>> {
    part_if(
        u.add_tags is Some,
        "Add tags: "@ + join_with(texts(u.add_tags->0@), ", "@),
    ) + part_if(
        u.remove_tags is Some,
        "Remove tags: "@ + join_with(texts(u.remove_tags->0@), ", "@),
    ) + part_if(u.set_confidence is Some, "Set confidence: "@ + u.set_confidence->0@)
        + part_if(u.set_type is Some, "Set type: "@ + u.set_type->0@) + part_if(
        u.set_source is Some,
        "Set source: "@ + u.set_source->0@,
    )
}

/// Pushes a line made of two texts.
fn push_line(lines: &mut Vec<String>, a: &str, b: &str)
    ensures
        texts(final(lines)@) == texts(old(lines)@).push(a@ + b@),
{
    let mut l = String::from_str(a);
    append_str(&mut l, b);
    let ghost before = lines@;
    lines.push(l);
    assert(texts(lines@) =~= texts(before).push(a@ + b@));
}

impl UpdateOperations {
    /// Whether some update is asked for.
    pub fn has_operations(&self) -> (r: bool)
        ensures
            r == any_update(*self),
    {
        self.add_tags.is_some() || self.remove_tags.is_some() || self.set_confidence.is_some()
            || self.set_type.is_some() || self.set_source.is_some()
    }

    /// The lines that describe the updates (see `update_lines`).
    pub fn describe(&self) -> (r: Vec<String>)
        ensures
            texts(r@) == update_lines(*self),
    {
        let ghost u = *self;
        let mut lines: Vec<String> = Vec::new();
        let ghost l0 = texts(lines@);
        if let Some(tags) = &self.add_tags {
            let j = join_strings(tags, ", ");
            push_line(&mut lines, "Add tags: ", j.as_str());
        }
        let ghost l1 = texts(lines@);
        assert(l1 =~= l0 + part_if(u.add_tags is Some, "Add tags: "@ + join_with(texts(u.add_tags->0@), ", "@)));
        if let Some(tags) = &self.remove_tags {
            let j = join_strings(tags, ", ");
            push_line(&mut lines, "Remove tags: ", j.as_str());
        }
        let ghost l2 = texts(lines@);
        assert(l2 =~= l1 + part_if(u.remove_tags is Some, "Remove tags: "@ + join_with(texts(u.remove_tags->0@), ", "@)));
        if let Some(c) = &self.set_confidence {
            push_line(&mut lines, "Set confidence: ", c.as_str());
        }
        let ghost l3 = texts(lines@);
        assert(l3 =~= l2 + part_if(u.set_confidence is Some, "Set confidence: "@ + u.set_confidence->0@));
        if let Some(t) = &self.set_type {
            push_line(&mut lines, "Set type: ", t.as_str());
        }
        let ghost l4 = texts(lines@);
        assert(l4 =~= l3 + part_if(u.set_type is Some, "Set type: "@ + u.set_type->0@));
        if let Some(s) = &self.set_source {
            push_line(&mut lines, "Set source: ", s.as_str());
        }
        assert(texts(lines@) =~= l4 + part_if(u.set_source is Some, "Set source: "@ + u.set_source->0@));
        assert(l0 =~= Seq::<Seq<char>>::empty());
        assert(texts(lines@) =~= update_lines(u));
        lines
    }
}

} // verus!
