//! The counts behind the usage and content analytics of the memory database.
//!
//! Each analysis works on the memories in scope (the deleted ones only when
//! they are asked for) and counts how many fall in each class; rankings are
//! given as positions in the list of records.

use vstd::prelude::*;
use crate::analytics::{MemoryCommand, SummaryCommand, UsageCommand};

verus! {

/// What the analytics read of one memory.
#[derive(Debug, Clone)]
pub struct MemoryRecord {
    pub title: String,
    pub memory_type: String,
    pub reference_count: u32,
    /// The length of the content in bytes.
    pub content_len: usize,
    pub tag_count: usize,
    pub example_count: usize,
    /// When the memory was created, as a Unix timestamp.
    pub created_at: i64,
    /// When the memory was last read, as a Unix timestamp.
    pub last_accessed: Option<i64>,
    pub deleted: bool,
}

/// Whether a memory takes part in an analysis.
pub open spec fn in_scope(r: MemoryRecord, include_deleted: bool) -> bool {
    include_deleted || !r.deleted
}

/// How many records satisfy `p`.
pub open spec fn count_where(s: Seq<MemoryRecord>, p: spec_fn(MemoryRecord) -> bool) -> nat
    decreases s.len(),
{
    if s.len() == 0 {
        0
    } else {
        count_where(s.drop_last(), p) + if p(s.last()) {
            1nat
        } else {
            0nat
        }
    }
}

/// The reference counts of the records in scope, added up.
pub open spec fn total_references(s: Seq<MemoryRecord>, include_deleted: bool) -> nat
    decreases s.len(),
{
    if s.len() == 0 {
        0
    } else {
        total_references(s.drop_last(), include_deleted) + if in_scope(s.last(), include_deleted) {
            s.last().reference_count as nat
        } else {
            0nat
        }
    }
}

/// The content lengths of the records in scope, added up.
pub open spec fn total_content(s: Seq<MemoryRecord>, include_deleted: bool) -> nat
    decreases s.len(),
{
    if s.len() == 0 {
        0
    } else {
        total_content(s.drop_last(), include_deleted) + if in_scope(s.last(), include_deleted) {
            s.last().content_len as nat
        } else {
            0nat
        }
    }
}

/// Records in scope.
pub open spec fn scope_p(inc: bool) -> spec_fn(MemoryRecord) -> bool {
    |r: MemoryRecord| in_scope(r, inc)
}

/// Records in scope whose reference count lies in `lo..=hi`.
pub open spec fn refs_between_p(inc: bool, lo: nat, hi: nat) -> spec_fn(MemoryRecord) -> bool {
    |r: MemoryRecord| in_scope(r, inc) && lo <= r.reference_count && r.reference_count <= hi
}

/// Records in scope with a reference count above `lo`.
pub open spec fn refs_above_p(inc: bool, lo: nat) -> spec_fn(MemoryRecord) -> bool {
    |r: MemoryRecord| in_scope(r, inc) && r.reference_count > lo
}

/// Records in scope last read after `after` and at or before `upto`, where
/// a memory never read counts as read at time zero.
pub open spec fn read_between_p(inc: bool, after: int, upto: Option<int>) -> spec_fn(
    MemoryRecord,
) -> bool {
    |r: MemoryRecord|
        in_scope(r, inc) && ({
            let t = match r.last_accessed {
                Some(t) => t as int,
                None => 0,
            };
            t > after && match upto {
                Some(u) => t <= u,
                None => true,
            }
        })
}

/// Records in scope that were read at or before `upto`.
pub open spec fn read_stale_p(inc: bool, upto: int) -> spec_fn(MemoryRecord) -> bool {
    |r: MemoryRecord| in_scope(r, inc) && (r.last_accessed matches Some(t) && t <= upto)
}

/// Records in scope that were never read.
pub open spec fn never_read_p(inc: bool) -> spec_fn(MemoryRecord) -> bool {
    |r: MemoryRecord| in_scope(r, inc) && r.last_accessed is None
}

/// Records in scope that carry tags.
pub open spec fn tagged_p(inc: bool) -> spec_fn(MemoryRecord) -> bool {
    |r: MemoryRecord| in_scope(r, inc) && r.tag_count > 0
}

/// Records in scope that carry examples.
pub open spec fn with_examples_p(inc: bool) -> spec_fn(MemoryRecord) -> bool {
    |r: MemoryRecord| in_scope(r, inc) && r.example_count > 0
}

proof fn lemma_count_step(s: Seq<MemoryRecord>, i: int, p: spec_fn(MemoryRecord) -> bool)
    requires
        0 <= i < s.len(),
    ensures
        count_where(s.take(i + 1), p) == count_where(s.take(i), p) + if p(s[i]) {
            1nat
        } else {
            0nat
        },
{
    assert(s.take(i + 1).drop_last() =~= s.take(i));
}

proof fn lemma_count_le(s: Seq<MemoryRecord>, p: spec_fn(MemoryRecord) -> bool)
    ensures
        count_where(s, p) <= s.len(),
    decreases s.len(),
{
    if s.len() > 0 {
        lemma_count_le(s.drop_last(), p);
    }
}

proof fn lemma_count_split(s: Seq<MemoryRecord>, p: spec_fn(MemoryRecord) -> bool, q: spec_fn(MemoryRecord) -> bool, r: spec_fn(MemoryRecord) -> bool)
    requires
        forall|x: MemoryRecord| #[trigger] p(x) == (q(x) || r(x)),
        forall|x: MemoryRecord| !(#[trigger] q(x) && r(x)),
    ensures
        count_where(s, p) == count_where(s, q) + count_where(s, r),
    decreases s.len(),
{
    if s.len() > 0 {
        lemma_count_split(s.drop_last(), p, q, r);
    }
}

/// The access counts of the usage analysis.
#[derive(Debug, Clone, Copy, PartialEq, Eq)]
pub struct AccessSummary {
    pub total: usize,
    pub never_accessed: usize,
    pub accessed: usize,
    pub total_references: u128,
}

/// The access frequency classes.
#[derive(Debug, Clone, Copy, PartialEq, Eq)]
pub struct FrequencyBuckets {
    /// Never read (0 references).
    pub never: usize,
    /// Rarely read (1 to 5 references).
    pub rarely: usize,
    /// Moderately read (6 to 20 references).
    pub moderately: usize,
    /// Heavily read (more than 20 references).
    pub heavily: usize,
}

/// The reference count distribution.
#[derive(Debug, Clone, Copy, PartialEq, Eq)]
pub struct ReferenceSummary {
    pub total_references: u128,
    /// The smallest reference count in scope, 0 when none is.
    pub min_references: u32,
    /// The largest reference count in scope, 0 when none is.
    pub max_references: u32,
    /// Read exactly once.
    pub single: usize,
    /// Read 2 to 10 times.
    pub multiple: usize,
    /// Read more than 10 times.
    pub frequent: usize,
}

/// The recency classes relative to a moment `now`.
#[derive(Debug, Clone, Copy, PartialEq, Eq)]
pub struct RecencyBuckets {
    /// Read in the last day.
    pub last_day: usize,
    /// Read in the last week but not the last day.
    pub last_week: usize,
    /// Read in the last thirty days but not the last week.
    pub last_month: usize,
    /// Read, but not in the last thirty days.
    pub stale: usize,
    /// Never read.
    pub never: usize,
    /// The position of the record read most recently (the first such one).
    pub most_recent: Option<usize>,
    /// The position of the record read least recently (the last such one).
    pub least_recent: Option<usize>,
}

/// The content quality counts.
#[derive(Debug, Clone, Copy, PartialEq, Eq)]
pub struct ContentQuality {
    pub total: usize,
    pub tagged: usize,
    pub with_examples: usize,
    pub total_content: u128,
    /// The shortest content length in scope, 0 when none is.
    pub min_content: usize,
    /// The longest content length in scope, 0 when none is.
    pub max_content: usize,
    /// The position of the shortest record (the first such one).
    pub shortest: Option<usize>,
    /// The position of the longest record (the last such one).
    pub longest: Option<usize>,
}

/// The number of seconds in a day.
pub open spec fn day() -> int {
    86400
}

impl UsageCommand {
    /// The access counts: memories in scope, how many were never read
    /// (0 references), how many were, and the references added up.
    pub fn basic_access(&self, records: &Vec<MemoryRecord>, include_deleted: bool) -> (r:
        AccessSummary)
        ensures
            r.total == count_where(records@, scope_p(include_deleted)),
            r.never_accessed == count_where(records@, refs_between_p(include_deleted, 0, 0)),
            r.accessed == r.total - r.never_accessed,
            r.total_references == total_references(records@, include_deleted),
    {
        let ghost s = records@;
        let mut total: usize = 0;
        let mut never: usize = 0;
        let mut refs: u128 = 0;
        let mut i: usize = 0;
        while i < records.len()
            invariant
                s == records@,
                i <= s.len(),
                total == count_where(s.take(i as int), scope_p(include_deleted)),
                never == count_where(s.take(i as int), refs_between_p(include_deleted, 0, 0)),
                never <= total <= i,
                refs == total_references(s.take(i as int), include_deleted),
                refs <= i * 0xffff_ffff,
            decreases records.len() - i,
        {
            proof {
                lemma_count_step(s, i as int, scope_p(include_deleted));
                lemma_count_step(s, i as int, refs_between_p(include_deleted, 0, 0));
                assert(s.take(i + 1).drop_last() =~= s.take(i as int));
            }
            let r = &records[i];
            if include_deleted || !r.deleted {
                total = total + 1;
                if r.reference_count == 0 {
                    never = never + 1;
                }
                refs = refs + r.reference_count as u128;
            }
            i = i + 1;
        }
        assert(s.take(s.len() as int) =~= s);
        AccessSummary { total, never_accessed: never, accessed: total - never, total_references: refs }
    }

    /// The access frequency classes of the memories in scope.
    pub fn access_frequency(&self, records: &Vec<MemoryRecord>, include_deleted: bool) -> (r:
        FrequencyBuckets)
        ensures
            r.never == count_where(records@, refs_between_p(include_deleted, 0, 0)),
            r.rarely == count_where(records@, refs_between_p(include_deleted, 1, 5)),
            r.moderately == count_where(records@, refs_between_p(include_deleted, 6, 20)),
            r.heavily == count_where(records@, refs_above_p(include_deleted, 20)),
    {
        let ghost s = records@;
        let mut b = FrequencyBuckets { never: 0, rarely: 0, moderately: 0, heavily: 0 };
        let mut i: usize = 0;
        while i < records.len()
            invariant
                s == records@,
                i <= s.len(),
                b.never == count_where(s.take(i as int), refs_between_p(include_deleted, 0, 0)),
                b.rarely == count_where(s.take(i as int), refs_between_p(include_deleted, 1, 5)),
                b.moderately == count_where(s.take(i as int), refs_between_p(include_deleted, 6, 20)),
                b.heavily == count_where(s.take(i as int), refs_above_p(include_deleted, 20)),
                b.never + b.rarely + b.moderately + b.heavily <= i,
            decreases records.len() - i,
        {
            proof {
                lemma_count_step(s, i as int, refs_between_p(include_deleted, 0, 0));
                lemma_count_step(s, i as int, refs_between_p(include_deleted, 1, 5));
                lemma_count_step(s, i as int, refs_between_p(include_deleted, 6, 20));
                lemma_count_step(s, i as int, refs_above_p(include_deleted, 20));
            }
            let r = &records[i];
            if include_deleted || !r.deleted {
                let c = r.reference_count;
                if c == 0 {
                    b.never = b.never + 1;
                } else if c <= 5 {
                    b.rarely = b.rarely + 1;
                } else if c <= 20 {
                    b.moderately = b.moderately + 1;
                } else {
                    b.heavily = b.heavily + 1;
                }
            }
            i = i + 1;
        }
        assert(s.take(s.len() as int) =~= s);
        b
    }

    /// The reference count distribution of the memories in scope.
    pub fn reference_distribution(&self, records: &Vec<MemoryRecord>, include_deleted: bool) -> (r:
        ReferenceSummary)
        ensures
            r.total_references == total_references(records@, include_deleted),
            r.single == count_where(records@, refs_between_p(include_deleted, 1, 1)),
            r.multiple == count_where(records@, refs_between_p(include_deleted, 2, 10)),
            r.frequent == count_where(records@, refs_above_p(include_deleted, 10)),
            count_where(records@, scope_p(include_deleted)) == 0 ==> r.min_references == 0
                && r.max_references == 0,
            count_where(records@, scope_p(include_deleted)) > 0 ==> {
                &&& exists|i: int|
                    0 <= i < records@.len() && in_scope(records@[i], include_deleted)
                        && records@[i].reference_count == r.min_references
                &&& exists|i: int|
                    0 <= i < records@.len() && in_scope(records@[i], include_deleted)
                        && records@[i].reference_count == r.max_references
                &&& forall|i: int|
                    0 <= i < records@.len() && in_scope(records@[i], include_deleted) ==> r.min_references
                        <= #[trigger] records@[i].reference_count <= r.max_references
            },
    {
        let ghost s = records@;
        let mut refs: u128 = 0;
        let mut single: usize = 0;
        let mut multiple: usize = 0;
        let mut frequent: usize = 0;
        let mut seen: usize = 0;
        let mut lo: u32 = 0;
        let mut hi: u32 = 0;
        let mut i: usize = 0;
        while i < records.len()
            invariant
                s == records@,
                i <= s.len(),
                refs == total_references(s.take(i as int), include_deleted),
                refs <= i * 0xffff_ffff,
                single == count_where(s.take(i as int), refs_between_p(include_deleted, 1, 1)),
                multiple == count_where(s.take(i as int), refs_between_p(include_deleted, 2, 10)),
                frequent == count_where(s.take(i as int), refs_above_p(include_deleted, 10)),
                single + multiple + frequent <= i,
                seen == count_where(s.take(i as int), scope_p(include_deleted)),
                seen <= i,
                seen == 0 ==> lo == 0 && hi == 0,
                seen == 0 ==> forall|j: int| 0 <= j < i ==> !in_scope(#[trigger] s[j], include_deleted),
                seen > 0 ==> {
                    &&& exists|j: int|
                        0 <= j < i && in_scope(s[j], include_deleted) && s[j].reference_count == lo
                    &&& exists|j: int|
                        0 <= j < i && in_scope(s[j], include_deleted) && s[j].reference_count == hi
                    &&& forall|j: int|
                        0 <= j < i && in_scope(s[j], include_deleted) ==> lo
                            <= #[trigger] s[j].reference_count <= hi
                },
            decreases records.len() - i,
        {
            proof {
                lemma_count_step(s, i as int, refs_between_p(include_deleted, 1, 1));
                lemma_count_step(s, i as int, refs_between_p(include_deleted, 2, 10));
                lemma_count_step(s, i as int, refs_above_p(include_deleted, 10));
                lemma_count_step(s, i as int, scope_p(include_deleted));
                assert(s.take(i + 1).drop_last() =~= s.take(i as int));
            }
            let r = &records[i];
            if include_deleted || !r.deleted {
                let c = r.reference_count;
                refs = refs + c as u128;
                if c == 1 {
                    single = single + 1;
                } else if c >= 2 && c <= 10 {
                    multiple = multiple + 1;
                } else if c > 10 {
                    frequent = frequent + 1;
                }
                if seen == 0 {
                    lo = c;
                    hi = c;
                } else {
                    if c < lo {
                        lo = c;
                    }
                    if c > hi {
                        hi = c;
                    }
                }
                seen = seen + 1;
                assert(in_scope(s[i as int], include_deleted) && s[i as int].reference_count == c);
            }
            i = i + 1;
        }
        assert(s.take(s.len() as int) =~= s);
        ReferenceSummary {
            total_references: refs,
            min_references: lo,
            max_references: hi,
            single,
            multiple,
            frequent,
        }
    }
}

/// Whether record `i` ranks before record `j` among the most read: more
/// references, or as many and an earlier position.
pub open spec fn ranks_before(s: Seq<MemoryRecord>, i: int, j: int) -> bool {
    s[i].reference_count > s[j].reference_count || (s[i].reference_count
        == s[j].reference_count && i < j)
}

/// When a record was last read; a record never read counts as read at time zero.
pub open spec fn read_time(r: MemoryRecord) -> int {
    match r.last_accessed {
        Some(t) => t as int,
        None => 0,
    }
}

/// Records in scope that were read at some time.
pub open spec fn was_read(s: Seq<MemoryRecord>, j: int, inc: bool) -> bool {
    0 <= j < s.len() && in_scope(s[j], inc) && s[j].last_accessed is Some
}

impl UsageCommand {
    /// The recency classes relative to `now` (a day is 86400 seconds, a week
    /// seven days, a month thirty), and the records read most and least
    /// recently.
    pub fn recency(&self, records: &Vec<MemoryRecord>, include_deleted: bool, now: i64) -> (r:
        RecencyBuckets)
        requires
            now >= i64::MIN + 30 * 86400,
        ensures
            r.last_day == count_where(records@, read_between_p(include_deleted, now - day(), None)),
            r.last_week == count_where(
                records@,
                read_between_p(include_deleted, now - 7 * day(), Some(now - day())),
            ),
            r.last_month == count_where(
                records@,
                read_between_p(include_deleted, now - 30 * day(), Some(now - 7 * day())),
            ),
            r.stale == count_where(records@, read_stale_p(include_deleted, now - 30 * day())),
            r.never == count_where(records@, never_read_p(include_deleted)),
            r.most_recent is None ==> forall|j: int| !was_read(records@, j, include_deleted),
            r.most_recent matches Some(m) ==> {
                &&& was_read(records@, m as int, include_deleted)
                &&& forall|j: int|
                    was_read(records@, j, include_deleted) ==> read_time(#[trigger] records@[j])
                        <= read_time(records@[m as int])
                &&& forall|j: int|
                    0 <= j < m && was_read(records@, j, include_deleted) ==> read_time(
                        #[trigger] records@[j],
                    ) < read_time(records@[m as int])
            },
            r.least_recent is None <==> r.most_recent is None,
            r.least_recent matches Some(l) ==> {
                &&& was_read(records@, l as int, include_deleted)
                &&& forall|j: int|
                    was_read(records@, j, include_deleted) ==> read_time(#[trigger] records@[j])
                        >= read_time(records@[l as int])
                &&& forall|j: int|
                    l < j && was_read(records@, j, include_deleted) ==> read_time(
                        #[trigger] records@[j],
                    ) > read_time(records@[l as int])
            },
    {
        let ghost s = records@;
        let day_ago = now - 86400;
        let week_ago = now - 7 * 86400;
        let month_ago = now - 30 * 86400;
        let mut b = RecencyBuckets {
            last_day: 0,
            last_week: 0,
            last_month: 0,
            stale: 0,
            never: 0,
            most_recent: None,
            least_recent: None,
        };
        let mut i: usize = 0;
        while i < records.len()
            invariant
                s == records@,
                i <= s.len(),
                day_ago == now - day(),
                week_ago == now - 7 * day(),
                month_ago == now - 30 * day(),
                b.last_day == count_where(s.take(i as int), read_between_p(include_deleted, now - day(), None)),
                b.last_week == count_where(
                    s.take(i as int),
                    read_between_p(include_deleted, now - 7 * day(), Some(now - day())),
                ),
                b.last_month == count_where(
                    s.take(i as int),
                    read_between_p(include_deleted, now - 30 * day(), Some(now - 7 * day())),
                ),
                b.stale == count_where(s.take(i as int), read_stale_p(include_deleted, now - 30 * day())),
                b.never == count_where(s.take(i as int), never_read_p(include_deleted)),
                b.last_day <= i && b.last_week <= i && b.last_month <= i && b.stale <= i && b.never <= i,
                b.most_recent is None ==> forall|j: int| 0 <= j < i ==> !was_read(s, j, include_deleted),
                b.most_recent matches Some(m) ==> {
                    &&& m < i && was_read(s, m as int, include_deleted)
                    &&& forall|j: int|
                        0 <= j < i && was_read(s, j, include_deleted) ==> read_time(#[trigger] s[j])
                            <= read_time(s[m as int])
                    &&& forall|j: int|
                        0 <= j < m && was_read(s, j, include_deleted) ==> read_time(#[trigger] s[j])
                            < read_time(s[m as int])
                },
                b.least_recent is None <==> b.most_recent is None,
                b.least_recent matches Some(l) ==> {
                    &&& l < i && was_read(s, l as int, include_deleted)
                    &&& forall|j: int|
                        0 <= j < i && was_read(s, j, include_deleted) ==> read_time(#[trigger] s[j])
                            >= read_time(s[l as int])
                    &&& forall|j: int|
                        l < j < i && was_read(s, j, include_deleted) ==> read_time(#[trigger] s[j])
                            > read_time(s[l as int])
                },
            decreases records.len() - i,
        {
            proof {
                lemma_count_step(s, i as int, read_between_p(include_deleted, now - day(), None));
                lemma_count_step(
                    s,
                    i as int,
                    read_between_p(include_deleted, now - 7 * day(), Some(now - day())),
                );
                lemma_count_step(
                    s,
                    i as int,
                    read_between_p(include_deleted, now - 30 * day(), Some(now - 7 * day())),
                );
                lemma_count_step(s, i as int, read_stale_p(include_deleted, now - 30 * day()));
                lemma_count_step(s, i as int, never_read_p(include_deleted));
            }
            let r = &records[i];
            if include_deleted || !r.deleted {
                let t: i64 = match r.last_accessed {
                    Some(t) => t,
                    None => 0,
                };
                if t > day_ago {
                    b.last_day = b.last_day + 1;
                } else if t > week_ago {
                    b.last_week = b.last_week + 1;
                } else if t > month_ago {
                    b.last_month = b.last_month + 1;
                }
                match r.last_accessed {
                    None => {
                        b.never = b.never + 1;
                    },
                    Some(t) => {
                        if t <= month_ago {
                            b.stale = b.stale + 1;
                        }
                        match b.most_recent {
                            None => {
                                b.most_recent = Some(i);
                                b.least_recent = Some(i);
                            },
                            Some(m) => {
                                let tm = match records[m].last_accessed {
                                    Some(x) => x,
                                    None => 0,
                                };
                                if t > tm {
                                    b.most_recent = Some(i);
                                }
                                match b.least_recent {
                                    Some(l) => {
                                        let tl = match records[l].last_accessed {
                                            Some(x) => x,
                                            None => 0,
                                        };
                                        if t <= tl {
                                            b.least_recent = Some(i);
                                        }
                                    },
                                    None => {},
                                }
                            },
                        }
                    },
                }
            }
            i = i + 1;
        }
        assert(s.take(s.len() as int) =~= s);
        b
    }

    /// The positions of the most read memories in scope, most references
    /// first and earlier positions first among equals; at most `top_count`
    /// of them and never more than five.
    pub fn top_referenced(&self, records: &Vec<MemoryRecord>, include_deleted: bool) -> (r: Vec<
        usize,
    >)
        ensures
            r@.len() <= self.top_count,
            r@.len() <= 5,
            forall|a: int|
                0 <= a < r@.len() ==> #[trigger] r@[a] < records@.len() && in_scope(
                    records@[r@[a] as int],
                    include_deleted,
                ),
            forall|a: int, b: int|
                0 <= a < b < r@.len() ==> ranks_before(records@, #[trigger] r@[a] as int, #[trigger] r@[b] as int),
            forall|j: int|
                0 <= j < records@.len() && in_scope(records@[j], include_deleted) && !r@.contains(
                    j as usize,
                ) ==> forall|a: int| 0 <= a < r@.len() ==> ranks_before(records@, #[trigger] r@[a] as int, j),
            r@.len() == self.top_count || r@.len() == 5 || forall|j: int|
                0 <= j < records@.len() && in_scope(records@[j], include_deleted) ==> r@.contains(
                    j as usize,
                ),
    {
        let ghost s = records@;
        let k: usize = if self.top_count < 5 {
            self.top_count
        } else {
            5
        };
        let n = records.len();
        let mut chosen: Vec<bool> = Vec::new();
        let mut q: usize = 0;
        while q < n
            invariant
                q <= n,
                chosen@.len() == q,
                forall|j: int| 0 <= j < q ==> !chosen@[j],
            decreases n - q,
        {
            chosen.push(false);
            q = q + 1;
        }
        let mut r: Vec<usize> = Vec::new();
        let mut done = false;
        while r.len() < k && !done
            invariant
                s == records@,
                n == s.len(),
                k <= 5,
                k <= self.top_count,
                r@.len() <= k,
                chosen@.len() == n,
                forall|a: int| 0 <= a < r@.len() ==> #[trigger] r@[a] < n && in_scope(s[r@[a] as int], include_deleted),
                forall|j: int| 0 <= j < n ==> (#[trigger] chosen@[j] <==> r@.contains(j as usize)),
                forall|a: int, b: int|
                    0 <= a < b < r@.len() ==> ranks_before(s, #[trigger] r@[a] as int, #[trigger] r@[b] as int),
                forall|j: int|
                    0 <= j < n && in_scope(s[j], include_deleted) && !chosen@[j] ==> forall|a: int|
                        0 <= a < r@.len() ==> ranks_before(s, #[trigger] r@[a] as int, j),
                done ==> forall|j: int| 0 <= j < n && in_scope(s[j], include_deleted) ==> chosen@[j],
            decreases k - r@.len(), if done { 0int } else { 1int },
        {
            let mut best: Option<usize> = None;
            let mut j: usize = 0;
            while j < n
                invariant
                    s == records@,
                    n == s.len(),
                    chosen@.len() == n,
                    j <= n,
                    best matches Some(x) ==> x < j && in_scope(s[x as int], include_deleted) && !chosen@[x as int],
                    best is None ==> forall|y: int| 0 <= y < j && in_scope(s[y], include_deleted) ==> chosen@[y],
                    best matches Some(x) ==> forall|y: int|
                        0 <= y < j && y != x && in_scope(s[y], include_deleted) && !chosen@[y] ==> ranks_before(s, x as int, y),
                decreases n - j,
            {
                if (include_deleted || !records[j].deleted) && !chosen[j] {
                    match best {
                        None => {
                            best = Some(j);
                        },
                        Some(x) => {
                            if records[j].reference_count > records[x].reference_count {
                                best = Some(j);
                            }
                        },
                    }
                }
                j = j + 1;
            }
            match best {
                None => {
                    done = true;
                },
                Some(x) => {
                    let ghost old_r = r@;
                    r.push(x);
                    chosen.set(x, true);
                    assert forall|y: int| 0 <= y < n implies (#[trigger] chosen@[y] <==> r@.contains(y as usize)) by {
                        if y == x as int {
                            assert(r@[old_r.len() as int] == x);
                        } else {
                            assert(old_r.contains(y as usize) ==> r@.contains(y as usize)) by {
                                if old_r.contains(y as usize) {
                                    let a = choose|a: int| 0 <= a < old_r.len() && old_r[a] == y as usize;
                                    assert(r@[a] == y as usize);
                                }
                            }
                            assert(r@.contains(y as usize) ==> old_r.contains(y as usize)) by {
                                if r@.contains(y as usize) {
                                    let a = choose|a: int| 0 <= a < r@.len() && r@[a] == y as usize;
                                    assert(a < old_r.len());
                                    assert(old_r[a] == y as usize);
                                }
                            }
                        }
                    }
                },
            }
        }
        proof {
            if done {
                assert forall|j: int| 0 <= j < s.len() && in_scope(s[j], include_deleted) implies r@.contains(j as usize) by {
                    assert(chosen@[j]);
                }
            }
            assert forall|j: int|
                0 <= j < s.len() && in_scope(s[j], include_deleted) && !r@.contains(j as usize) implies forall|a: int|
                    0 <= a < r@.len() ==> ranks_before(s, #[trigger] r@[a] as int, j) by {
                assert(!chosen@[j]);
            }
        }
        r
    }
}

impl MemoryCommand {
    /// The content quality counts of the memories in scope: how many there
    /// are, how many carry tags or examples, the content lengths added up,
    /// the shortest and longest content and where they are (the first of
    /// the shortest, the last of the longest).
    pub fn content_quality(&self, records: &Vec<MemoryRecord>, include_deleted: bool) -> (r:
        ContentQuality)
        ensures
            r.total == count_where(records@, scope_p(include_deleted)),
            r.tagged == count_where(records@, tagged_p(include_deleted)),
            r.with_examples == count_where(records@, with_examples_p(include_deleted)),
            r.total_content == total_content(records@, include_deleted),
            r.shortest is None <==> r.total == 0,
            r.longest is None <==> r.total == 0,
            r.total == 0 ==> r.min_content == 0 && r.max_content == 0,
            r.shortest matches Some(m) ==> {
                &&& m < records@.len() && in_scope(records@[m as int], include_deleted)
                &&& r.min_content == records@[m as int].content_len
                &&& forall|j: int|
                    0 <= j < records@.len() && in_scope(records@[j], include_deleted) ==> r.min_content
                        <= #[trigger] records@[j].content_len
                &&& forall|j: int|
                    0 <= j < m && in_scope(records@[j], include_deleted) ==> r.min_content
                        < #[trigger] records@[j].content_len
            },
            r.longest matches Some(m) ==> {
                &&& m < records@.len() && in_scope(records@[m as int], include_deleted)
                &&& r.max_content == records@[m as int].content_len
                &&& forall|j: int|
                    0 <= j < records@.len() && in_scope(records@[j], include_deleted) ==> r.max_content
                        >= #[trigger] records@[j].content_len
                &&& forall|j: int|
                    m < j < records@.len() && in_scope(records@[j], include_deleted) ==> r.max_content
                        > #[trigger] records@[j].content_len
            },
    {
        let ghost s = records@;
        let mut q = ContentQuality {
            total: 0,
            tagged: 0,
            with_examples: 0,
            total_content: 0,
            min_content: 0,
            max_content: 0,
            shortest: None,
            longest: None,
        };
        let mut i: usize = 0;
        while i < records.len()
            invariant
                s == records@,
                i <= s.len(),
                q.total == count_where(s.take(i as int), scope_p(include_deleted)),
                q.tagged == count_where(s.take(i as int), tagged_p(include_deleted)),
                q.with_examples == count_where(s.take(i as int), with_examples_p(include_deleted)),
                q.total <= i,
                q.tagged <= i,
                q.with_examples <= i,
                q.total_content == total_content(s.take(i as int), include_deleted),
                q.total_content <= i * (usize::MAX as int),
                q.shortest is None <==> q.total == 0,
                q.longest is None <==> q.total == 0,
                q.total == 0 ==> q.min_content == 0 && q.max_content == 0,
                q.total == 0 ==> forall|j: int| 0 <= j < i ==> !in_scope(#[trigger] s[j], include_deleted),
                q.shortest matches Some(m) ==> {
                    &&& m < i && in_scope(s[m as int], include_deleted)
                    &&& q.min_content == s[m as int].content_len
                    &&& forall|j: int|
                        0 <= j < i && in_scope(s[j], include_deleted) ==> q.min_content
                            <= #[trigger] s[j].content_len
                    &&& forall|j: int|
                        0 <= j < m && in_scope(s[j], include_deleted) ==> q.min_content
                            < #[trigger] s[j].content_len
                },
                q.longest matches Some(m) ==> {
                    &&& m < i && in_scope(s[m as int], include_deleted)
                    &&& q.max_content == s[m as int].content_len
                    &&& forall|j: int|
                        0 <= j < i && in_scope(s[j], include_deleted) ==> q.max_content
                            >= #[trigger] s[j].content_len
                    &&& forall|j: int|
                        m < j < i && in_scope(s[j], include_deleted) ==> q.max_content
                            > #[trigger] s[j].content_len
                },
            decreases records.len() - i,
        {
            proof {
                lemma_count_step(s, i as int, scope_p(include_deleted));
                lemma_count_step(s, i as int, tagged_p(include_deleted));
                lemma_count_step(s, i as int, with_examples_p(include_deleted));
                assert(s.take(i + 1).drop_last() =~= s.take(i as int));
            }
            let r = &records[i];
            if include_deleted || !r.deleted {
                let len = r.content_len;
                if q.total == 0 {
                    q.min_content = len;
                    q.max_content = len;
                    q.shortest = Some(i);
                    q.longest = Some(i);
                } else {
                    if len < q.min_content {
                        q.min_content = len;
                        q.shortest = Some(i);
                    }
                    if len >= q.max_content {
                        q.max_content = len;
                        q.longest = Some(i);
                    }
                }
                q.total = q.total + 1;
                if r.tag_count > 0 {
                    q.tagged = q.tagged + 1;
                }
                if r.example_count > 0 {
                    q.with_examples = q.with_examples + 1;
                }
                q.total_content = q.total_content + len as u128;
            }
            i = i + 1;
        }
        assert(s.take(s.len() as int) =~= s);
        q
    }
}

/// The core counts of the summary.
#[derive(Debug, Clone, Copy, PartialEq, Eq)]
pub struct CoreStatistics {
    /// Memories in scope.
    pub total: usize,
    /// Memories not deleted.
    pub active: usize,
    /// Memories deleted.
    pub deleted: usize,
    /// The reference counts of the memories in scope, added up.
    pub total_references: u128,
    /// Whole days since the oldest memory in scope was created (the
    /// difference in seconds divided by a day, rounded toward zero), or
    /// `None` when no memory is in scope.
    pub age_days: Option<i64>,
}

/// Deleted records.
pub open spec fn deleted_p() -> spec_fn(MemoryRecord) -> bool {
    |r: MemoryRecord| r.deleted
}

/// Records in scope created after `t`.
pub open spec fn created_after_p(inc: bool, t: int) -> spec_fn(MemoryRecord) -> bool {
    |r: MemoryRecord| in_scope(r, inc) && r.created_at > t
}

/// Records in scope read after `t` (a record never read counts as read at
/// time zero).
pub open spec fn read_after_p(inc: bool, t: int) -> spec_fn(MemoryRecord) -> bool {
    |r: MemoryRecord| in_scope(r, inc) && read_time(r) > t
}

/// Records in scope with no references.
pub open spec fn never_read_in_scope_p(inc: bool) -> spec_fn(MemoryRecord) -> bool {
    |r: MemoryRecord| in_scope(r, inc) && r.reference_count == 0
}

/// Records in scope without tags.
pub open spec fn untagged_p(inc: bool) -> spec_fn(MemoryRecord) -> bool {
    |r: MemoryRecord| in_scope(r, inc) && r.tag_count == 0
}

/// Integer division that rounds toward zero, as Rust divides.
pub open spec fn div_toward_zero(a: int, b: int) -> int {
    if a >= 0 {
        a / b
    } else {
        -((-a) / b)
    }
}

/// The oldest creation time among the records in scope is `t`.
pub open spec fn is_oldest_creation(s: Seq<MemoryRecord>, inc: bool, t: i64) -> bool {
    &&& exists|k: int| 0 <= k < s.len() && in_scope(s[k], inc) && s[k].created_at == t
    &&& forall|k: int| 0 <= k < s.len() && in_scope(#[trigger] s[k], inc) ==> t <= s[k].created_at
}

/// The most read record in scope is at position `j`: no record in scope
/// has more references, and none after it as many.
pub open spec fn is_last_most_read(s: Seq<MemoryRecord>, inc: bool, j: int) -> bool {
    &&& 0 <= j < s.len()
    &&& in_scope(s[j], inc)
    &&& forall|k: int|
        0 <= k < s.len() && in_scope(#[trigger] s[k], inc) ==> s[k].reference_count <= s[j].reference_count
    &&& forall|k: int|
        j < k < s.len() && in_scope(#[trigger] s[k], inc) ==> s[k].reference_count < s[j].reference_count
}

/// The quality counts of the summary.
#[derive(Debug, Clone, Copy, PartialEq, Eq)]
pub struct QualityCounts {
    /// Memories in scope without tags.
    pub untagged: usize,
    /// Memories in scope never read.
    pub never_accessed: usize,
}

/// The recent activity of the summary.
#[derive(Debug, Clone, Copy, PartialEq, Eq)]
pub struct RecentActivity {
    /// Memories in scope created in the last seven days.
    pub created_last_week: usize,
    /// Memories in scope read in the last seven days.
    pub accessed_last_week: usize,
    /// The position of the most read memory in scope (the last of several
    /// equally read), or `None` when no memory is in scope.
    pub most_accessed: Option<usize>,
}

impl SummaryCommand {
    /// The core counts relative to the moment `now`. Each difference between
    /// `now` and a creation time in scope must fit an `i64`.
    pub fn core_statistics(&self, records: &Vec<MemoryRecord>, include_deleted: bool, now: i64) -> (r:
        CoreStatistics)
        requires
            forall|k: int|
                0 <= k < records@.len() && in_scope(#[trigger] records@[k], include_deleted) ==> i64::MIN
                    <= now - records@[k].created_at <= i64::MAX,
        ensures
            r.total == count_where(records@, scope_p(include_deleted)),
            r.deleted == count_where(records@, deleted_p()),
            r.active == records@.len() - r.deleted,
            r.total_references == total_references(records@, include_deleted),
            r.age_days is None <==> r.total == 0,
            r.age_days matches Some(d) ==> exists|t: i64|
                is_oldest_creation(records@, include_deleted, t) && d == div_toward_zero(
                    now - t,
                    day(),
                ),
    {
        let ghost s = records@;
        let mut total: usize = 0;
        let mut deleted: usize = 0;
        let mut refs: u128 = 0;
        let mut oldest: Option<i64> = None;
        let mut i: usize = 0;
        while i < records.len()
            invariant
                s == records@,
                i <= s.len(),
                total == count_where(s.take(i as int), scope_p(include_deleted)),
                deleted == count_where(s.take(i as int), deleted_p()),
                total <= i,
                deleted <= i,
                refs == total_references(s.take(i as int), include_deleted),
                refs <= i * 0xffff_ffff,
                oldest is None <==> total == 0,
                oldest is None ==> forall|k: int| 0 <= k < i ==> !in_scope(#[trigger] s[k], include_deleted),
                oldest matches Some(t) ==> is_oldest_creation(s.take(i as int), include_deleted, t),
            decreases records.len() - i,
        {
            proof {
                lemma_count_step(s, i as int, scope_p(include_deleted));
                lemma_count_step(s, i as int, deleted_p());
                assert(s.take(i + 1).drop_last() =~= s.take(i as int));
            }
            let r = &records[i];
            if r.deleted {
                deleted = deleted + 1;
            }
            if include_deleted || !r.deleted {
                total = total + 1;
                refs = refs + r.reference_count as u128;
                match oldest {
                    None => {
                        oldest = Some(r.created_at);
                        assert(s.take(i + 1)[i as int] == s[i as int]);
                    },
                    Some(t) => {
                        if r.created_at < t {
                            oldest = Some(r.created_at);
                            assert(s.take(i + 1)[i as int] == s[i as int]);
                        } else {
                            let ghost k = choose|k: int|
                                0 <= k < i && in_scope(s.take(i as int)[k], include_deleted)
                                    && s.take(i as int)[k].created_at == t;
                            assert(s.take(i + 1)[k] == s.take(i as int)[k]);
                        }
                    },
                }
            } else {
                if let Some(t) = oldest {
                    let ghost k = choose|k: int|
                        0 <= k < i && in_scope(s.take(i as int)[k], include_deleted)
                            && s.take(i as int)[k].created_at == t;
                    assert(s.take(i + 1)[k] == s.take(i as int)[k]);
                }
            }
            if let Some(t) = oldest {
                assert forall|k: int|
                    0 <= k < i + 1 && in_scope(#[trigger] s.take(i + 1)[k], include_deleted) implies t
                    <= s.take(i + 1)[k].created_at by {
                    assert(s.take(i + 1)[k] == s[k]);
                    if k < i {
                        assert(s.take(i as int)[k] == s[k]);
                    }
                }
            }
            i = i + 1;
        }
        assert(s.take(s.len() as int) =~= s);
        proof {
            lemma_count_le(s, deleted_p());
        }
        let age_days = match oldest {
            None => None,
            Some(t) => {
                let d = now - t;
                let q = if d >= 0 {
                    d / 86400
                } else {
                    let m: i64 = d / 86400;
                    m
                };
                Some(q)
            },
        };
        CoreStatistics {
            total,
            active: records.len() - deleted,
            deleted,
            total_references: refs,
            age_days,
        }
    }

    /// The quality counts: memories in scope without tags and never read.
    pub fn quality_counts(&self, records: &Vec<MemoryRecord>, include_deleted: bool) -> (r:
        QualityCounts)
        ensures
            r.untagged == count_where(records@, untagged_p(include_deleted)),
            r.never_accessed == count_where(records@, never_read_in_scope_p(include_deleted)),
    {
        let ghost s = records@;
        let mut untagged: usize = 0;
        let mut never: usize = 0;
        let mut i: usize = 0;
        while i < records.len()
            invariant
                s == records@,
                i <= s.len(),
                untagged == count_where(s.take(i as int), untagged_p(include_deleted)),
                never == count_where(s.take(i as int), never_read_in_scope_p(include_deleted)),
                untagged <= i,
                never <= i,
            decreases records.len() - i,
        {
            proof {
                lemma_count_step(s, i as int, untagged_p(include_deleted));
                lemma_count_step(s, i as int, never_read_in_scope_p(include_deleted));
            }
            let r = &records[i];
            if include_deleted || !r.deleted {
                if r.tag_count == 0 {
                    untagged = untagged + 1;
                }
                if r.reference_count == 0 {
                    never = never + 1;
                }
            }
            i = i + 1;
        }
        assert(s.take(s.len() as int) =~= s);
        QualityCounts { untagged, never_accessed: never }
    }

    /// The activity of the last seven days before `now`, and the most read
    /// memory.
    pub fn recent_activity(&self, records: &Vec<MemoryRecord>, include_deleted: bool, now: i64) -> (r:
        RecentActivity)
        requires
            now >= i64::MIN + 7 * 86400,
        ensures
            r.created_last_week == count_where(records@, created_after_p(include_deleted, now - 7 * day())),
            r.accessed_last_week == count_where(records@, read_after_p(include_deleted, now - 7 * day())),
            r.most_accessed is None <==> count_where(records@, scope_p(include_deleted)) == 0,
            r.most_accessed matches Some(j) ==> is_last_most_read(records@, include_deleted, j as int),
    {
        let ghost s = records@;
        let week_ago = now - 7 * 86400;
        let mut created: usize = 0;
        let mut accessed: usize = 0;
        let mut in_scope_count: usize = 0;
        let mut best: Option<usize> = None;
        let mut i: usize = 0;
        while i < records.len()
            invariant
                s == records@,
                i <= s.len(),
                week_ago == now - 7 * day(),
                created == count_where(s.take(i as int), created_after_p(include_deleted, week_ago as int)),
                accessed == count_where(s.take(i as int), read_after_p(include_deleted, week_ago as int)),
                in_scope_count == count_where(s.take(i as int), scope_p(include_deleted)),
                created <= i,
                accessed <= i,
                in_scope_count <= i,
                best is None <==> in_scope_count == 0,
                best matches Some(j) ==> is_last_most_read(s.take(i as int), include_deleted, j as int),
            decreases records.len() - i,
        {
            proof {
                lemma_count_step(s, i as int, created_after_p(include_deleted, week_ago as int));
                lemma_count_step(s, i as int, read_after_p(include_deleted, week_ago as int));
                lemma_count_step(s, i as int, scope_p(include_deleted));
                assert(s.take(i + 1).drop_last() =~= s.take(i as int));
            }
            let r = &records[i];
            if include_deleted || !r.deleted {
                in_scope_count = in_scope_count + 1;
                if r.created_at > week_ago {
                    created = created + 1;
                }
                let read = match r.last_accessed {
                    Some(t) => t,
                    None => 0,
                };
                if read > week_ago {
                    accessed = accessed + 1;
                }
                let ghost old_best = best;
                match best {
                    None => {
                        best = Some(i);
                    },
                    Some(j) => {
                        if r.reference_count >= records[j].reference_count {
                            best = Some(i);
                        }
                    },
                }
                proof {
                    let t = s.take(i + 1);
                    assert forall|k: int| 0 <= k < i implies t[k] == s.take(i as int)[k] by {}
                    if let Some(j) = best {
                        if old_best is None {
                            assert(count_where(s.take(i as int), scope_p(include_deleted)) == 0);
                            lemma_none_in_scope(s.take(i as int), include_deleted);
                        }
                    }
                }
            }
            i = i + 1;
        }
        assert(s.take(s.len() as int) =~= s);
        RecentActivity { created_last_week: created, accessed_last_week: accessed, most_accessed: best }
    }
}

proof fn lemma_none_in_scope(s: Seq<MemoryRecord>, inc: bool)
    requires
        count_where(s, scope_p(inc)) == 0,
    ensures
        forall|k: int| 0 <= k < s.len() ==> !in_scope(#[trigger] s[k], inc),
    decreases s.len(),
{
    if s.len() > 0 {
        lemma_none_in_scope(s.drop_last(), inc);
        assert forall|k: int| 0 <= k < s.len() implies !in_scope(#[trigger] s[k], inc) by {
            if k < s.len() - 1 {
                assert(s[k] == s.drop_last()[k]);
            }
        }
    }
}

} // verus!
