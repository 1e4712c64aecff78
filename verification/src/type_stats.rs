//! The memories grouped by type: per type, how many there are, how they
//! are read, tagged and how long their content is.

use vstd::prelude::*;
use crate::memory_stats::{count_where, in_scope, MemoryRecord};
use crate::analytics::SummaryCommand;
use crate::tag_list::{first_tags, sort_by_order, sort_tags, tag_views, TagOrder};
use crate::text::str_eq;

verus! {

/// Records in scope of type `t`.
pub open spec fn of_type_p(inc: bool, t: Seq<char>) -> spec_fn(MemoryRecord) -> bool {
    |r: MemoryRecord| in_scope(r, inc) && r.memory_type@ == t
}

/// Records in scope of type `t` never read.
pub open spec fn unread_of_type_p(inc: bool, t: Seq<char>) -> spec_fn(MemoryRecord) -> bool {
    |r: MemoryRecord| in_scope(r, inc) && r.memory_type@ == t && r.reference_count == 0
}

/// Records in scope of type `t` with tags.
pub open spec fn tagged_of_type_p(inc: bool, t: Seq<char>) -> spec_fn(MemoryRecord) -> bool {
    |r: MemoryRecord| in_scope(r, inc) && r.memory_type@ == t && r.tag_count > 0
}

/// The reference counts of the records satisfying `p`, added up.
pub open spec fn references_where(s: Seq<MemoryRecord>, p: spec_fn(MemoryRecord) -> bool) -> nat
    decreases s.len(),
{
    if s.len() == 0 {
        0
    } else {
        references_where(s.drop_last(), p) + if p(s.last()) {
            s.last().reference_count as nat
        } else {
            0nat
        }
    }
}

/// The content lengths of the records satisfying `p`, added up.
pub open spec fn content_where(s: Seq<MemoryRecord>, p: spec_fn(MemoryRecord) -> bool) -> nat
    decreases s.len(),
{
    if s.len() == 0 {
        0
    } else {
        content_where(s.drop_last(), p) + if p(s.last()) {
            s.last().content_len as nat
        } else {
            0nat
        }
    }
}

/// The position of the first record in scope of type `t`, or -1 when there
/// is none.
pub open spec fn first_of_type(s: Seq<MemoryRecord>, inc: bool, t: Seq<char>) -> int
    decreases s.len(),
{
    if s.len() == 0 {
        -1
    } else {
        let f = first_of_type(s.drop_last(), inc, t);
        if f >= 0 {
            f
        } else if of_type_p(inc, t)(s.last()) {
            s.len() - 1
        } else {
            -1
        }
    }
}

/// The memories in scope of one type, and what the analyses count of them.
#[derive(Debug)]
pub struct TypeGroup {
    pub memory_type: String,
    /// How many there are.
    pub count: usize,
    /// Their reference counts added up.
    pub total_references: u128,
    /// How many were never read.
    pub never_accessed: usize,
    /// How many carry tags.
    pub tagged: usize,
    /// Their content lengths added up.
    pub total_content: u128,
    /// The shortest content length.
    pub min_content: usize,
    /// The longest content length.
    pub max_content: usize,
}

/// `g` holds the counts of the records in scope of its type.
#[verifier::opaque]
pub open spec fn group_describes(s: Seq<MemoryRecord>, inc: bool, g: TypeGroup) -> bool {
    let t = g.memory_type@;
    &&& g.count == count_where(s, of_type_p(inc, t))
    &&& g.total_references == references_where(s, of_type_p(inc, t))
    &&& g.never_accessed == count_where(s, unread_of_type_p(inc, t))
    &&& g.tagged == count_where(s, tagged_of_type_p(inc, t))
    &&& g.total_content == content_where(s, of_type_p(inc, t))
    &&& exists|k: int|
        0 <= k < s.len() && of_type_p(inc, t)(s[k]) && s[k].content_len == g.min_content
    &&& exists|k: int|
        0 <= k < s.len() && of_type_p(inc, t)(s[k]) && s[k].content_len == g.max_content
    &&& forall|k: int|
        0 <= k < s.len() && of_type_p(inc, t)(#[trigger] s[k]) ==> g.min_content
            <= s[k].content_len <= g.max_content
}

/// The groups of `s`: one per type in scope, each with its counts, in the
/// order in which the types first appear.
#[verifier::opaque]
pub open spec fn groups_of(s: Seq<MemoryRecord>, inc: bool, g: Seq<TypeGroup>) -> bool {
    &&& forall|i: int| 0 <= i < g.len() ==> group_describes(s, inc, #[trigger] g[i])
    &&& forall|i: int, j: int|
        0 <= i < j < g.len() ==> (#[trigger] g[i]).memory_type@ != (#[trigger] g[j]).memory_type@
    &&& forall|k: int|
        0 <= k < s.len() && in_scope(#[trigger] s[k], inc) ==> exists|i: int|
            0 <= i < g.len() && (#[trigger] g[i]).memory_type@ == s[k].memory_type@
    &&& forall|i: int, j: int|
        0 <= i < j < g.len() ==> first_of_type(s, inc, (#[trigger] g[i]).memory_type@)
            < first_of_type(s, inc, (#[trigger] g[j]).memory_type@)
}

proof fn lemma_first_of_type_range(s: Seq<MemoryRecord>, inc: bool, t: Seq<char>)
    ensures
        -1 <= first_of_type(s, inc, t) < s.len(),
        first_of_type(s, inc, t) >= 0 ==> of_type_p(inc, t)(s[first_of_type(s, inc, t)]),
        first_of_type(s, inc, t) == -1 <==> forall|k: int|
            0 <= k < s.len() ==> !of_type_p(inc, t)(#[trigger] s[k]),
    decreases s.len(),
{
    if s.len() > 0 {
        let d = s.drop_last();
        lemma_first_of_type_range(d, inc, t);
        if first_of_type(d, inc, t) >= 0 {
            assert(s[first_of_type(d, inc, t)] == d[first_of_type(d, inc, t)]);
            let k = first_of_type(d, inc, t);
            assert(of_type_p(inc, t)(s[k]));
        } else {
            assert forall|k: int| 0 <= k < s.len() - 1 implies s[k] == d[k] by {}
        }
    }
}

/// Extending the records by one that is not of the group's type keeps the
/// group's counts.
proof fn lemma_describes_other(s: Seq<MemoryRecord>, inc: bool, g: TypeGroup, x: MemoryRecord)
    requires
        group_describes(s, inc, g),
        !of_type_p(inc, g.memory_type@)(x),
    ensures
        group_describes(s.push(x), inc, g),
{
    reveal(group_describes);
    let t = g.memory_type@;
    let s2 = s.push(x);
    assert(s2.drop_last() =~= s);
    let k1 = choose|k: int| 0 <= k < s.len() && of_type_p(inc, t)(s[k]) && s[k].content_len == g.min_content;
    let k2 = choose|k: int| 0 <= k < s.len() && of_type_p(inc, t)(s[k]) && s[k].content_len == g.max_content;
    assert(s2[k1] == s[k1] && s2[k2] == s[k2]);
    assert forall|k: int| 0 <= k < s2.len() && of_type_p(inc, t)(#[trigger] s2[k]) implies g.min_content
        <= s2[k].content_len <= g.max_content by {
        assert(s2[k] == s[k]);
    }
}

/// Extending the records by one of the group's type, with the counts
/// bumped by it.
proof fn lemma_describes_same(s: Seq<MemoryRecord>, inc: bool, g: TypeGroup, x: MemoryRecord, h: TypeGroup)
    requires
        group_describes(s, inc, g),
        of_type_p(inc, g.memory_type@)(x),
        h.memory_type@ == g.memory_type@,
        h.count == g.count + 1,
        h.total_references == g.total_references + x.reference_count,
        h.never_accessed == g.never_accessed + if x.reference_count == 0 {
            1int
        } else {
            0int
        },
        h.tagged == g.tagged + if x.tag_count > 0 {
            1int
        } else {
            0int
        },
        h.total_content == g.total_content + x.content_len,
        h.min_content == if x.content_len < g.min_content {
            x.content_len
        } else {
            g.min_content
        },
        h.max_content == if x.content_len > g.max_content {
            x.content_len
        } else {
            g.max_content
        },
    ensures
        group_describes(s.push(x), inc, h),
{
    reveal(group_describes);
    let t = g.memory_type@;
    let s2 = s.push(x);
    assert(s2.drop_last() =~= s);
    let n = s.len() as int;
    let k1 = choose|k: int| 0 <= k < s.len() && of_type_p(inc, t)(s[k]) && s[k].content_len == g.min_content;
    let k2 = choose|k: int| 0 <= k < s.len() && of_type_p(inc, t)(s[k]) && s[k].content_len == g.max_content;
    assert(s2[k1] == s[k1] && s2[k2] == s[k2] && s2[n] == x);
    if x.content_len < g.min_content {
        assert(of_type_p(inc, t)(s2[n]) && s2[n].content_len == h.min_content);
    } else {
        assert(of_type_p(inc, t)(s2[k1]) && s2[k1].content_len == h.min_content);
    }
    if x.content_len > g.max_content {
        assert(of_type_p(inc, t)(s2[n]) && s2[n].content_len == h.max_content);
    } else {
        assert(of_type_p(inc, t)(s2[k2]) && s2[k2].content_len == h.max_content);
    }
    assert forall|k: int| 0 <= k < s2.len() && of_type_p(inc, t)(#[trigger] s2[k]) implies h.min_content
        <= s2[k].content_len <= h.max_content by {
        if k < n {
            assert(s2[k] == s[k]);
        }
    }
}

/// Extending the records by the first one of a new type, with a group made
/// of it alone.
proof fn lemma_describes_new(s: Seq<MemoryRecord>, inc: bool, x: MemoryRecord, h: TypeGroup)
    requires
        in_scope(x, inc),
        h.memory_type@ == x.memory_type@,
        forall|k: int| 0 <= k < s.len() ==> !of_type_p(inc, x.memory_type@)(#[trigger] s[k]),
        h.count == 1,
        h.total_references == x.reference_count,
        h.never_accessed == if x.reference_count == 0 {
            1int
        } else {
            0int
        },
        h.tagged == if x.tag_count > 0 {
            1int
        } else {
            0int
        },
        h.total_content == x.content_len,
        h.min_content == x.content_len,
        h.max_content == x.content_len,
    ensures
        group_describes(s.push(x), inc, h),
{
    reveal(group_describes);
    let t = x.memory_type@;
    let s2 = s.push(x);
    assert(s2.drop_last() =~= s);
    lemma_none_of_type(s, inc, t);
    let n = s.len() as int;
    assert(s2[n] == x);
    assert forall|k: int| 0 <= k < s2.len() && of_type_p(inc, t)(#[trigger] s2[k]) implies h.min_content
        <= s2[k].content_len <= h.max_content by {
        if k < n {
            assert(s2[k] == s[k]);
        }
    }
}

proof fn lemma_none_of_type(s: Seq<MemoryRecord>, inc: bool, t: Seq<char>)
    requires
        forall|k: int| 0 <= k < s.len() ==> !of_type_p(inc, t)(#[trigger] s[k]),
    ensures
        count_where(s, of_type_p(inc, t)) == 0,
        count_where(s, unread_of_type_p(inc, t)) == 0,
        count_where(s, tagged_of_type_p(inc, t)) == 0,
        references_where(s, of_type_p(inc, t)) == 0,
        content_where(s, of_type_p(inc, t)) == 0,
    decreases s.len(),
{
    if s.len() > 0 {
        let d = s.drop_last();
        assert forall|k: int| 0 <= k < d.len() implies !of_type_p(inc, t)(#[trigger] d[k]) by {
            assert(d[k] == s[k]);
        }
        lemma_none_of_type(d, inc, t);
        assert(!of_type_p(inc, t)(s[s.len() - 1]));
    }
}

/// `h` is `g` with the record `x` added.
pub open spec fn bumped(g: TypeGroup, x: MemoryRecord, h: TypeGroup) -> bool {
    &&& h.memory_type@ == g.memory_type@
    &&& h.count == g.count + 1
    &&& h.total_references == g.total_references + x.reference_count
    &&& h.never_accessed == g.never_accessed + if x.reference_count == 0 {
        1int
    } else {
        0int
    }
    &&& h.tagged == g.tagged + if x.tag_count > 0 {
        1int
    } else {
        0int
    }
    &&& h.total_content == g.total_content + x.content_len
    &&& h.min_content == if x.content_len < g.min_content {
        x.content_len
    } else {
        g.min_content
    }
    &&& h.max_content == if x.content_len > g.max_content {
        x.content_len
    } else {
        g.max_content
    }
}

/// `h` is the group of the record `x` alone.
pub open spec fn single(x: MemoryRecord, h: TypeGroup) -> bool {
    &&& h.memory_type@ == x.memory_type@
    &&& h.count == 1
    &&& h.total_references == x.reference_count
    &&& h.never_accessed == if x.reference_count == 0 {
        1int
    } else {
        0int
    }
    &&& h.tagged == if x.tag_count > 0 {
        1int
    } else {
        0int
    }
    &&& h.total_content == x.content_len
    &&& h.min_content == x.content_len
    &&& h.max_content == x.content_len
}

/// A record out of scope changes no group.
proof fn lemma_step_skip(t: Seq<MemoryRecord>, inc: bool, g: Seq<TypeGroup>, x: MemoryRecord)
    requires
        groups_of(t, inc, g),
        !in_scope(x, inc),
    ensures
        groups_of(t.push(x), inc, g),
{
    reveal(groups_of);
    let t2 = t.push(x);
    assert(t2.drop_last() =~= t);
    assert forall|q: int| 0 <= q < g.len() implies group_describes(t2, inc, #[trigger] g[q]) by {
        lemma_describes_other(t, inc, g[q], x);
    }
    assert forall|q: int| 0 <= q < g.len() implies first_of_type(t2, inc, (#[trigger] g[q]).memory_type@)
        == first_of_type(t, inc, g[q].memory_type@) by {
        lemma_group_seen(t, inc, g[q]);
    }
    assert forall|k: int| 0 <= k < t2.len() && in_scope(#[trigger] t2[k], inc) implies exists|q: int|
        0 <= q < g.len() && (#[trigger] g[q]).memory_type@ == t2[k].memory_type@ by {
        assert(t2[k] == t[k]);
    }
}

/// A record of a type that has a group bumps that group alone.
proof fn lemma_step_same(
    t: Seq<MemoryRecord>,
    inc: bool,
    g: Seq<TypeGroup>,
    x: MemoryRecord,
    idx: int,
    h: TypeGroup,
)
    requires
        groups_of(t, inc, g),
        in_scope(x, inc),
        0 <= idx < g.len(),
        g[idx].memory_type@ == x.memory_type@,
        bumped(g[idx], x, h),
    ensures
        groups_of(t.push(x), inc, g.update(idx, h)),
{
    reveal(groups_of);
    let t2 = t.push(x);
    let g2 = g.update(idx, h);
    assert(t2.drop_last() =~= t);
    lemma_describes_same(t, inc, g[idx], x, h);
    assert forall|q: int| 0 <= q < g2.len() implies group_describes(t2, inc, #[trigger] g2[q]) by {
        if q != idx {
            lemma_describes_other(t, inc, g[q], x);
        }
    }
    assert forall|q: int| 0 <= q < g2.len() implies first_of_type(t2, inc, (#[trigger] g2[q]).memory_type@)
        == first_of_type(t, inc, g[q].memory_type@) by {
        lemma_group_seen(t, inc, g[q]);
    }
    assert forall|k: int| 0 <= k < t2.len() && in_scope(#[trigger] t2[k], inc) implies exists|q: int|
        0 <= q < g2.len() && (#[trigger] g2[q]).memory_type@ == t2[k].memory_type@ by {
        if k < t.len() {
            assert(t2[k] == t[k]);
            let q = choose|q: int| 0 <= q < g.len() && (#[trigger] g[q]).memory_type@ == t[k].memory_type@;
            assert(g2[q].memory_type@ == g[q].memory_type@);
        } else {
            assert(g2[idx].memory_type@ == t2[k].memory_type@);
        }
    }
    assert forall|a: int, b: int| 0 <= a < b < g2.len() implies (#[trigger] g2[a]).memory_type@
        != (#[trigger] g2[b]).memory_type@ by {
        assert(g2[a].memory_type@ == g[a].memory_type@);
        assert(g2[b].memory_type@ == g[b].memory_type@);
    }
    assert forall|a: int, b: int| 0 <= a < b < g2.len() implies first_of_type(t2, inc, (#[trigger] g2[a]).memory_type@)
        < first_of_type(t2, inc, (#[trigger] g2[b]).memory_type@) by {
        assert(g2[a].memory_type@ == g[a].memory_type@);
        assert(g2[b].memory_type@ == g[b].memory_type@);
    }
}

/// A record of a type without a group starts a new group at the end.
proof fn lemma_step_new(t: Seq<MemoryRecord>, inc: bool, g: Seq<TypeGroup>, x: MemoryRecord, h: TypeGroup)
    requires
        groups_of(t, inc, g),
        in_scope(x, inc),
        forall|q: int| 0 <= q < g.len() ==> (#[trigger] g[q]).memory_type@ != x.memory_type@,
        single(x, h),
    ensures
        groups_of(t.push(x), inc, g.push(h)),
{
    reveal(groups_of);
    let t2 = t.push(x);
    let g2 = g.push(h);
    let n = g.len() as int;
    assert(t2.drop_last() =~= t);
    assert forall|k: int| 0 <= k < t.len() implies !of_type_p(inc, x.memory_type@)(#[trigger] t[k]) by {
        if of_type_p(inc, x.memory_type@)(t[k]) {
            let q = choose|q: int| 0 <= q < g.len() && (#[trigger] g[q]).memory_type@ == t[k].memory_type@;
        }
    }
    lemma_describes_new(t, inc, x, h);
    lemma_first_of_type_range(t, inc, x.memory_type@);
    assert(first_of_type(t2, inc, h.memory_type@) == t.len());
    assert forall|q: int| 0 <= q < g2.len() implies group_describes(t2, inc, #[trigger] g2[q]) by {
        if q < n {
            lemma_describes_other(t, inc, g[q], x);
        }
    }
    assert forall|q: int| 0 <= q < n implies first_of_type(t2, inc, (#[trigger] g2[q]).memory_type@)
        == first_of_type(t, inc, g[q].memory_type@) && first_of_type(t, inc, g[q].memory_type@) < t.len() by {
        lemma_group_seen(t, inc, g[q]);
        lemma_first_of_type_range(t, inc, g[q].memory_type@);
    }
    assert forall|k: int| 0 <= k < t2.len() && in_scope(#[trigger] t2[k], inc) implies exists|q: int|
        0 <= q < g2.len() && (#[trigger] g2[q]).memory_type@ == t2[k].memory_type@ by {
        if k < t.len() {
            assert(t2[k] == t[k]);
            let q = choose|q: int| 0 <= q < g.len() && (#[trigger] g[q]).memory_type@ == t[k].memory_type@;
            assert(g2[q] == g[q]);
        } else {
            assert(g2[n] == h);
        }
    }
    assert forall|a: int, b: int| 0 <= a < b < g2.len() implies first_of_type(t2, inc, (#[trigger] g2[a]).memory_type@)
        < first_of_type(t2, inc, (#[trigger] g2[b]).memory_type@) by {
        if b < n {
            assert(g2[a] == g[a] && g2[b] == g[b]);
        } else {
            assert(g2[a] == g[a]);
        }
    }
    assert forall|a: int, b: int| 0 <= a < b < g2.len() implies (#[trigger] g2[a]).memory_type@
        != (#[trigger] g2[b]).memory_type@ by {
        if b < n {
            assert(g2[a] == g[a] && g2[b] == g[b]);
        } else {
            assert(g2[a] == g[a]);
        }
    }
}

/// Groups the memories in scope by type, in the order in which the types
/// first appear, with each type's counts.
pub fn type_groups(records: &Vec<MemoryRecord>, include_deleted: bool) -> (r: Vec<TypeGroup>)
    ensures
        groups_of(records@, include_deleted, r@),
{
    let ghost s = records@;
    let ghost inc = include_deleted;
    let mut groups: Vec<TypeGroup> = Vec::new();
    let mut i: usize = 0;
    assert(s.take(0) =~= Seq::<MemoryRecord>::empty());
    proof {
        reveal(groups_of);
    }
    while i < records.len()
        invariant
            s == records@,
            inc == include_deleted,
            i <= s.len(),
            groups_of(s.take(i as int), inc, groups@),
            forall|q: int|
                0 <= q < groups@.len() ==> (#[trigger] groups@[q]).count <= i
                    && groups@[q].never_accessed <= i && groups@[q].tagged <= i
                    && groups@[q].total_references <= i * 0xffff_ffff
                    && groups@[q].total_content <= i * 0xffff_ffff_ffff_ffff,
        decreases records.len() - i,
    {
        let ghost t = s.take(i as int);
        let ghost old_groups = groups@;
        let r = &records[i];
        assert(s.take(i + 1) =~= t.push(*r));
        proof {
            lemma_usize_bound(i);
        }
        if include_deleted || !r.deleted {
            let mut idx: usize = 0;
            let mut found = false;
            while idx < groups.len()
                invariant_except_break
                    !found,
                invariant
                    groups@ == old_groups,
                    idx <= groups@.len(),
                    forall|q: int| 0 <= q < idx ==> (#[trigger] groups@[q]).memory_type@ != r.memory_type@,
                ensures
                    groups@ == old_groups,
                    idx <= groups@.len(),
                    found ==> idx < groups@.len() && groups@[idx as int].memory_type@ == r.memory_type@,
                    !found ==> forall|q: int|
                        0 <= q < groups@.len() ==> (#[trigger] groups@[q]).memory_type@ != r.memory_type@,
                decreases groups.len() - idx,
            {
                if str_eq(groups[idx].memory_type.as_str(), r.memory_type.as_str()) {
                    found = true;
                    break;
                }
                idx = idx + 1;
            }
            if found {
                let g = groups.remove(idx);
                let h = TypeGroup {
                    memory_type: g.memory_type,
                    count: g.count + 1,
                    total_references: g.total_references + r.reference_count as u128,
                    never_accessed: if r.reference_count == 0 {
                        g.never_accessed + 1
                    } else {
                        g.never_accessed
                    },
                    tagged: if r.tag_count > 0 {
                        g.tagged + 1
                    } else {
                        g.tagged
                    },
                    total_content: g.total_content + r.content_len as u128,
                    min_content: if r.content_len < g.min_content {
                        r.content_len
                    } else {
                        g.min_content
                    },
                    max_content: if r.content_len > g.max_content {
                        r.content_len
                    } else {
                        g.max_content
                    },
                };
                groups.insert(idx, h);
                proof {
                    assert(groups@ =~= old_groups.update(idx as int, h));
                    lemma_step_same(t, inc, old_groups, *r, idx as int, h);
                }
            } else {
                let h = TypeGroup {
                    memory_type: r.memory_type.clone(),
                    count: 1,
                    total_references: r.reference_count as u128,
                    never_accessed: if r.reference_count == 0 {
                        1
                    } else {
                        0
                    },
                    tagged: if r.tag_count > 0 {
                        1
                    } else {
                        0
                    },
                    total_content: r.content_len as u128,
                    min_content: r.content_len,
                    max_content: r.content_len,
                };
                groups.push(h);
                proof {
                    lemma_step_new(t, inc, old_groups, *r, h);
                }
            }
        } else {
            proof {
                lemma_step_skip(t, inc, old_groups, *r);
            }
        }
        i = i + 1;
    }
    assert(s.take(s.len() as int) =~= s);
    groups
}

/// A described group has a first position in the records.
proof fn lemma_group_seen(s: Seq<MemoryRecord>, inc: bool, g: TypeGroup)
    requires
        group_describes(s, inc, g),
    ensures
        first_of_type(s, inc, g.memory_type@) >= 0,
{
    reveal(group_describes);
    lemma_first_of_type_range(s, inc, g.memory_type@);
    let k = choose|k: int| 0 <= k < s.len() && of_type_p(inc, g.memory_type@)(s[k]) && s[k].content_len == g.min_content;
}

proof fn lemma_usize_bound(i: usize)
    ensures
        i < 0x1_0000_0000_0000_0000,
{
}

impl TypeGroup {
    /// The references per memory of the group, rounded down.
    pub fn average_references(&self) -> (r: u128)
        requires
            self.count > 0,
        ensures
            r as int == (self.total_references as int) / (self.count as int),
    {
        self.total_references / (self.count as u128)
    }
}

/// The types of the groups with their counts.
pub open spec fn group_counts(g: Seq<TypeGroup>) -> Seq<(Seq<char>, usize)> {
    g.map_values(|x: TypeGroup| (x.memory_type@, x.count))
}

impl SummaryCommand {
    /// The most frequent types: the groups' types with their counts, most
    /// frequent first (types as frequent keep their order), at most
    /// `top_count` of them.
    pub fn type_distribution(&self, groups: &Vec<TypeGroup>) -> (r: Vec<(String, usize)>)
        ensures
            tag_views(r@) == first_tags(
                sort_tags(TagOrder::ByUsage, group_counts(groups@)),
                Some(self.top_count),
            ),
    {
        let mut pairs: Vec<(String, usize)> = Vec::new();
        let mut i: usize = 0;
        while i < groups.len()
            invariant
                i <= groups@.len(),
                tag_views(pairs@) == group_counts(groups@).take(i as int),
            decreases groups.len() - i,
        {
            let ghost before = pairs@;
            let name = groups[i].memory_type.clone();
            pairs.push((name, groups[i].count));
            assert(tag_views(pairs@) =~= tag_views(before).push(
                (groups@[i as int].memory_type@, groups@[i as int].count),
            ));
            assert(group_counts(groups@).take(i + 1) =~= group_counts(groups@).take(i as int).push(
                group_counts(groups@)[i as int],
            ));
            i = i + 1;
        }
        assert(group_counts(groups@).take(groups@.len() as int) =~= group_counts(groups@));
        let mut sorted = sort_by_order(pairs, TagOrder::ByUsage);
        if self.top_count < sorted.len() {
            let ghost before = sorted@;
            sorted.truncate(self.top_count);
            assert(tag_views(sorted@) =~= tag_views(before).take(self.top_count as int));
        }
        sorted
    }
}

} // verus!
