//! Merging two duplicate memories into one: which of them is kept as the
//! base, and how their content, tags, examples, counts and dates combine.

use vstd::prelude::*;
use crate::config::texts;
use crate::options::MergeStrategy;
use crate::text::{append_str, chars_of, contains_chars, contains_text, occurs_at, str_eq};

verus! {

/// What a merge reads and writes of a memory.
#[derive(Debug, Clone)]
pub struct MergeCandidate {
    pub content: String,
    pub tags: Vec<String>,
    pub examples: Vec<String>,
    pub reference_count: u32,
    /// When the memory was created, as a Unix timestamp.
    pub created_at: i64,
    /// When the memory was last read, as a Unix timestamp.
    pub last_accessed: Option<i64>,
}

/// Whether the second memory is kept as the base. The strategies that
/// compare confidence scores (`Confidence`, `Smart`) go by
/// `second_scores_higher`, the outcome of that comparison.
pub open spec fn second_is_kept(
    strategy: MergeStrategy,
    first: MergeCandidate,
    second: MergeCandidate,
    second_scores_higher: bool,
) -> bool {
    match strategy {
        MergeStrategy::Newer => second.created_at > first.created_at,
        MergeStrategy::Older => first.created_at > second.created_at,
        MergeStrategy::References => second.reference_count > first.reference_count,
        MergeStrategy::Confidence => second_scores_higher,
        MergeStrategy::Smart => second_scores_higher,
    }
}

/// Which memory is kept as the base: 0 for the first, 1 for the second.
pub fn keep_index(
    strategy: MergeStrategy,
    first: &MergeCandidate,
    second: &MergeCandidate,
    second_scores_higher: bool,
) -> (r: usize)
    ensures
        r == (if second_is_kept(strategy, *first, *second, second_scores_higher) {
            1usize
        } else {
            0usize
        }),
{
    let keep_second = match strategy {
        MergeStrategy::Newer => second.created_at > first.created_at,
        MergeStrategy::Older => first.created_at > second.created_at,
        MergeStrategy::References => second.reference_count > first.reference_count,
        MergeStrategy::Confidence => second_scores_higher,
        MergeStrategy::Smart => second_scores_higher,
    };
    if keep_second {
        1
    } else {
        0
    }
}

/// `base` followed by the texts of `extra` that are not in it yet, each
/// added at most once, in order.
pub open spec fn union_append(base: Seq<Seq<char>>, extra: Seq<Seq<char>>) -> Seq<Seq<char>>
    decreases extra.len(),
{
    if extra.len() == 0 {
        base
    } else {
        let u = union_append(base, extra.drop_last());
        if u.contains(extra.last()) {
            u
        } else {
            u.push(extra.last())
        }
    }
}

/// The text that joins merged content.
pub open spec fn merge_separator() -> Seq<char> {
    "\n\n## Merged Content:\n"@
}

/// The merged content: the base's, with the other's appended after a
/// separator unless either already contains the other.
pub open spec fn merged_content(base: Seq<char>, other: Seq<char>) -> Seq<char> {
    if !contains_text(base, other) && !contains_text(other, base) {
        base + merge_separator() + other
    } else {
        base
    }
}

/// The creation time of a merge: the second's when it is earlier.
pub open spec fn earlier_creation(base: i64, other: i64) -> i64 {
    if other < base {
        other
    } else {
        base
    }
}

/// The later of two optional read times, the second counting only when present.
pub open spec fn later_access(base: Option<i64>, other: Option<i64>) -> Option<i64> {
    match other {
        Some(b) => match base {
            Some(a) => if b > a {
                Some(b)
            } else {
                Some(a)
            },
            None => Some(b),
        },
        None => base,
    }
}

/// Merges `second` into the kept memory (`second` itself when
/// `keep_second`, else `first`): the content of `second` is appended unless
/// one contains the other, its new tags and examples are added, the
/// reference counts add up, the earlier creation time and the later read
/// time are kept. The reference counts must add up to a `u32`.
pub fn merge_into(first: &MergeCandidate, second: &MergeCandidate, keep_second: bool) -> (r:
    MergeCandidate)
    requires
        first.reference_count + second.reference_count <= u32::MAX,
    ensures
        ({
            let base = if keep_second {
                *second
            } else {
                *first
            };
            &&& r.content@ == merged_content(base.content@, second.content@)
            &&& texts(r.tags@) == union_append(texts(base.tags@), texts(second.tags@))
            &&& texts(r.examples@) == union_append(texts(base.examples@), texts(second.examples@))
            &&& r.reference_count == first.reference_count + second.reference_count
            &&& r.created_at == earlier_creation(base.created_at, second.created_at)
            &&& r.last_accessed == later_access(base.last_accessed, second.last_accessed)
        }),
{
    let base = if keep_second {
        second
    } else {
        first
    };
    let bc = chars_of(base.content.as_str());
    let sc = chars_of(second.content.as_str());
    let mut content = base.content.clone();
    if !contains_chars(bc.as_slice(), sc.as_slice()) && !contains_chars(sc.as_slice(), bc.as_slice()) {
        append_str(&mut content, "\n\n## Merged Content:\n");
        append_str(&mut content, second.content.as_str());
    }
    let tags = union_with(&base.tags, &second.tags);
    let examples = union_with(&base.examples, &second.examples);
    let created_at = if second.created_at < base.created_at {
        second.created_at
    } else {
        base.created_at
    };
    let last_accessed = match second.last_accessed {
        Some(b) => match base.last_accessed {
            Some(a) => if b > a {
                Some(b)
            } else {
                Some(a)
            },
            None => Some(b),
        },
        None => base.last_accessed,
    };
    MergeCandidate {
        content,
        tags,
        examples,
        reference_count: first.reference_count + second.reference_count,
        created_at,
        last_accessed,
    }
}

/// Whether `s` holds the text `t`.
fn holds_text(s: &Vec<String>, t: &str) -> (r: bool)
    ensures
        r == texts(s@).contains(t@),
{
    let mut i: usize = 0;
    while i < s.len()
        invariant
            i <= s@.len(),
            forall|j: int| 0 <= j < i ==> s@[j]@ != t@,
        decreases s.len() - i,
    {
        if str_eq(s[i].as_str(), t) {
            assert(texts(s@)[i as int] == t@);
            return true;
        }
        i = i + 1;
    }
    assert forall|j: int| 0 <= j < texts(s@).len() implies texts(s@)[j] != t@ by {
        assert(s@[j]@ != t@);
    }
    false
}

/// `base` followed by the strings of `extra` not in it yet (see `union_append`).
pub fn union_with(base: &Vec<String>, extra: &Vec<String>) -> (r: Vec<String>)
    ensures
        texts(r@) == union_append(texts(base@), texts(extra@)),
{
    let mut r = base.clone();
    assert(texts(r@) =~= texts(base@)) by {
        assert forall|j: int| 0 <= j < r@.len() implies r@[j]@ == base@[j]@ by {}
    }
    let mut i: usize = 0;
    assert(texts(extra@).take(0) =~= Seq::<Seq<char>>::empty());
    while i < extra.len()
        invariant
            i <= extra@.len(),
            texts(r@) == union_append(texts(base@), texts(extra@).take(i as int)),
        decreases extra.len() - i,
    {
        let ghost before = r@;
        let ghost e = texts(extra@);
        assert(e.take(i + 1).drop_last() =~= e.take(i as int));
        assert(e.take(i + 1).last() == extra@[i as int]@);
        if !holds_text(&r, extra[i].as_str()) {
            r.push(extra[i].clone());
            assert(texts(r@) =~= texts(before).push(extra@[i as int]@));
        }
        i = i + 1;
    }
    assert(texts(extra@).take(extra@.len() as int) =~= texts(extra@));
    r
}

/// Every tag of either memory is among the union, and the base's come
/// first, in their order.
pub proof fn law_union_keeps_all(base: Seq<Seq<char>>, extra: Seq<Seq<char>>)
    ensures
        union_append(base, extra).take(base.len() as int) == base,
        base.len() <= union_append(base, extra).len(),
        forall|t: Seq<char>| #[trigger] base.contains(t) ==> union_append(base, extra).contains(t),
        forall|t: Seq<char>| #[trigger] extra.contains(t) ==> union_append(base, extra).contains(t),
    decreases extra.len(),
{
    if extra.len() == 0 {
        assert(base.take(base.len() as int) =~= base);
    } else {
        let d = extra.drop_last();
        law_union_keeps_all(base, d);
        let u = union_append(base, d);
        if !u.contains(extra.last()) {
            assert(u.push(extra.last()).take(base.len() as int) =~= u.take(base.len() as int));
            assert forall|t: Seq<char>| u.contains(t) implies #[trigger] u.push(extra.last()).contains(t) by {
                let k = choose|k: int| 0 <= k < u.len() && u[k] == t;
                assert(u.push(extra.last())[k] == t);
            }
            assert(u.push(extra.last())[u.len() as int] == extra.last());
        }
        assert forall|t: Seq<char>| #[trigger] extra.contains(t) implies union_append(base, extra).contains(t) by {
            let k = choose|k: int| 0 <= k < extra.len() && extra[k] == t;
            if k < extra.len() - 1 {
                assert(d[k] == t);
                assert(d.contains(t));
            }
        }
    }
}

/// The merged memory was last read at the latest of the two read times:
/// it has a read time exactly when one of the two has, that time is one of
/// theirs, and it is no earlier than either.
pub proof fn law_merge_keeps_latest_read(base: Option<i64>, other: Option<i64>)
    ensures
        later_access(base, other) is None <==> (base is None && other is None),
        later_access(base, other) matches Some(t) ==> (base == Some(t) || other == Some(t)),
        base matches Some(a) ==> (later_access(base, other) matches Some(t) && t >= a),
        other matches Some(b) ==> (later_access(base, other) matches Some(t) && t >= b),
{
}

/// The merged memory was created at the earlier of the two creation times:
/// one of them, and no later than either.
pub proof fn law_merge_keeps_earliest_creation(base: i64, other: i64)
    ensures
        earlier_creation(base, other) <= base,
        earlier_creation(base, other) <= other,
        earlier_creation(base, other) == base || earlier_creation(base, other) == other,
{
}

/// The merged content starts with the kept memory's content, and holds the
/// other memory's content as well unless that content already holds the
/// kept one's (when it is the longer version, the kept content stays as it
/// is).
pub proof fn law_merged_content_keeps_both(base: Seq<char>, other: Seq<char>)
    ensures
        occurs_at(merged_content(base, other), base, 0),
        contains_text(base, other) || !contains_text(other, base) ==> contains_text(
            merged_content(base, other),
            other,
        ),
{
    let m = merged_content(base, other);
    if !contains_text(base, other) && !contains_text(other, base) {
        let k: int = (base.len() + merge_separator().len()) as int;
        assert(m.subrange(0, base.len() as int) =~= base);
        assert(m.subrange(k, k + other.len() as int) =~= other);
        assert(occurs_at(m, other, k));
    } else {
        assert(m.subrange(0, base.len() as int) =~= base);
    }
}

} // verus!
