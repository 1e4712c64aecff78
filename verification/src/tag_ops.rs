//! The choice among the bulk tag operations, and the renames that merging
//! tags performs.

use vstd::prelude::*;
use crate::config::texts;
use crate::text::str_eq;

verus! {

/// One bulk tag operation.
#[derive(Debug, Clone, Copy, PartialEq, Eq, Structural)]
pub enum TagOperation {
    List,
    Rename,
    Merge,
    CleanupUnused,
    Normalize,
    FindSimilar,
    Analytics,
}

/// Why no operation could be chosen.
#[derive(Debug, Clone, Copy, PartialEq, Eq, Structural)]
pub enum TagOperationError {
    /// None of the operations was asked for.
    NoOperation,
    /// More than one operation was asked for.
    MultipleOperations,
}

/// One for a flag that is set.
pub open spec fn flag(b: bool) -> nat {
    if b {
        1
    } else {
        0
    }
}

/// How many operations are asked for.
pub open spec fn operations_asked(
    list: bool,
    rename: bool,
    merge: bool,
    cleanup_unused: bool,
    normalize: bool,
    find_similar: bool,
    analytics: bool,
) -> nat {
    flag(list) + flag(rename) + flag(merge) + flag(cleanup_unused) + flag(normalize) + flag(
        find_similar,
    ) + flag(analytics)
}

/// The one operation asked for; asking for none or for several is an error.
pub open spec fn select_operation(
    list: bool,
    rename: bool,
    merge: bool,
    cleanup_unused: bool,
    normalize: bool,
    find_similar: bool,
    analytics: bool,
) -> Result<TagOperation, TagOperationError> {
    let n = operations_asked(list, rename, merge, cleanup_unused, normalize, find_similar, analytics);
    if n == 0 {
        Err(TagOperationError::NoOperation)
    } else if n > 1 {
        Err(TagOperationError::MultipleOperations)
    } else if list {
        Ok(TagOperation::List)
    } else if rename {
        Ok(TagOperation::Rename)
    } else if merge {
        Ok(TagOperation::Merge)
    } else if cleanup_unused {
        Ok(TagOperation::CleanupUnused)
    } else if normalize {
        Ok(TagOperation::Normalize)
    } else if find_similar {
        Ok(TagOperation::FindSimilar)
    } else {
        Ok(TagOperation::Analytics)
    }
}

/// The one operation asked for (see `select_operation`).
pub fn select_tag_operation(
    list: bool,
    rename: bool,
    merge: bool,
    cleanup_unused: bool,
    normalize: bool,
    find_similar: bool,
    analytics: bool,
) -> (r: Result<TagOperation, TagOperationError>)
    ensures
        r == select_operation(list, rename, merge, cleanup_unused, normalize, find_similar, analytics),
{
    let flags = [list, rename, merge, cleanup_unused, normalize, find_similar, analytics];
    let mut count: usize = 0;
    let mut i: usize = 0;
    while i < 7
        invariant
            i <= 7,
            flags@ == seq![list, rename, merge, cleanup_unused, normalize, find_similar, analytics],
            count == flags_set(flags@.take(i as int)),
            count <= i,
        decreases 7 - i,
    {
        assert(flags@.take(i + 1).drop_last() =~= flags@.take(i as int));
        if flags[i] {
            count = count + 1;
        }
        i = i + 1;
    }
    proof {
        assert(flags@.take(7) =~= flags@);
        reveal_with_fuel(flags_set, 8);
        assert(flags@.drop_last() =~= seq![list, rename, merge, cleanup_unused, normalize, find_similar]);
        assert(flags@.drop_last().drop_last() =~= seq![list, rename, merge, cleanup_unused, normalize]);
        assert(flags@.drop_last().drop_last().drop_last() =~= seq![list, rename, merge, cleanup_unused]);
        assert(flags@.drop_last().drop_last().drop_last().drop_last() =~= seq![list, rename, merge]);
        assert(flags@.drop_last().drop_last().drop_last().drop_last().drop_last() =~= seq![list, rename]);
        assert(flags@.drop_last().drop_last().drop_last().drop_last().drop_last().drop_last() =~= seq![list]);
    }
    if count == 0 {
        Err(TagOperationError::NoOperation)
    } else if count > 1 {
        Err(TagOperationError::MultipleOperations)
    } else if list {
        Ok(TagOperation::List)
    } else if rename {
        Ok(TagOperation::Rename)
    } else if merge {
        Ok(TagOperation::Merge)
    } else if cleanup_unused {
        Ok(TagOperation::CleanupUnused)
    } else if normalize {
        Ok(TagOperation::Normalize)
    } else if find_similar {
        Ok(TagOperation::FindSimilar)
    } else {
        Ok(TagOperation::Analytics)
    }
}

/// How many of the flags are set.
pub open spec fn flags_set(s: Seq<bool>) -> nat
    decreases s.len(),
{
    if s.len() == 0 {
        0
    } else {
        flags_set(s.drop_last()) + flag(s.last())
    }
}

/// Merging needs a target and at least one tag to merge into it.
#[derive(Debug, Clone, Copy, PartialEq, Eq, Structural)]
pub enum MergeError {
    TooFewTags,
}

/// The tags merged into the first one, in order, leaving out those equal to it.
pub open spec fn merge_sources(tags: Seq<Seq<char>>) -> Seq<Seq<char>> {
    tags.drop_first().filter(|t: Seq<char>| t != tags[0])
}

/// The renames that merging `tags` into its first tag performs: each later
/// tag that differs from the first, in order. Fewer than two tags is an
/// error.
pub fn merge_renames(tags: &Vec<String>) -> (r: Result<Vec<String>, MergeError>)
    ensures
        tags@.len() < 2 <==> r is Err,
        r matches Ok(v) ==> texts(v@) == merge_sources(texts(tags@)),
{
    if tags.len() < 2 {
        return Err(MergeError::TooFewTags);
    }
    let ghost all = texts(tags@);
    let ghost keep = |t: Seq<char>| t != all[0];
    let mut out: Vec<String> = Vec::new();
    let mut i: usize = 1;
    while i < tags.len()
        invariant
            all == texts(tags@),
            tags@.len() >= 2,
            1 <= i <= tags@.len(),
            keep == (|t: Seq<char>| t != all[0]),
            texts(out@) == all.drop_first().take(i - 1).filter(keep),
        decreases tags.len() - i,
    {
        assert(all.drop_first().take(i as int) =~= all.drop_first().take(i - 1).push(all[i as int]));
        proof {
            all.drop_first().take(i - 1).lemma_filter_push(all[i as int], keep);
        }
        assert(all[i as int] == tags@[i as int]@);
        assert(all[0] == tags@[0]@);
        if !str_eq(tags[i].as_str(), tags[0].as_str()) {
            let ghost before = out@;
            out.push(tags[i].clone());
            assert(texts(out@) =~= texts(before).push(all[i as int]));
        }
        i = i + 1;
    }
    assert(all.drop_first().take(tags@.len() - 1) =~= all.drop_first());
    Ok(out)
}

} // verus!
