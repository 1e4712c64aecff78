//! The order of search results: by relevance, creation, last change,
//! confidence, references or topic, descending or ascending, keeping the
//! found order among results that compare equal.

use vstd::prelude::*;
use crate::config::texts;
use crate::options::{SortBy, SortOrder};
use crate::text::str_eq;
use crate::tag_list::{lemma_text_before_asymmetric, lemma_text_before_connected, text_before, text_precedes};

verus! {

/// What the ordering reads of a search result.
#[derive(Debug, Clone)]
pub struct SortRecord {
    pub topic: String,
    /// When the memory was created, as a Unix timestamp.
    pub created_at: i64,
    /// When the memory was last read, as a Unix timestamp.
    pub last_accessed: Option<i64>,
    pub reference_count: u32,
    /// The place of the memory's confidence among the results: equal
    /// confidences have equal ranks, and a higher confidence a higher rank.
    pub confidence_rank: u64,
}

/// When a memory last changed: its last access, else its creation.
pub open spec fn modified_at(r: SortRecord) -> i64 {
    match r.last_accessed {
        Some(t) => t,
        None => r.created_at,
    }
}

/// `a` comes strictly before `b` in the descending order of `by`; by topic
/// the descending order lists topics from the smallest.
pub open spec fn descending_before(by: SortBy, a: SortRecord, b: SortRecord) -> bool {
    match by {
        SortBy::Relevance => a.reference_count > b.reference_count || (a.reference_count
            == b.reference_count && a.confidence_rank > b.confidence_rank),
        SortBy::Created => a.created_at > b.created_at,
        SortBy::Modified => modified_at(a) > modified_at(b),
        SortBy::Confidence => a.confidence_rank > b.confidence_rank,
        SortBy::References => a.reference_count > b.reference_count,
        SortBy::Topic => text_before(a.topic@, b.topic@),
    }
}

/// `a` comes strictly before `b`: the ascending order is the descending
/// one reversed.
pub open spec fn record_before(by: SortBy, order: SortOrder, a: SortRecord, b: SortRecord) -> bool {
    match order {
        SortOrder::Desc => descending_before(by, a, b),
        SortOrder::Asc => descending_before(by, b, a),
    }
}

/// Inserts `x` into `s` after every record that it does not come strictly
/// before.
pub open spec fn insert_record(by: SortBy, order: SortOrder, s: Seq<SortRecord>, x: SortRecord) -> Seq<
    SortRecord,
>
    decreases s.len(),
{
    if s.len() > 0 && record_before(by, order, x, s.last()) {
        insert_record(by, order, s.drop_last(), x).push(s.last())
    } else {
        s.push(x)
    }
}

/// Where `insert_record` puts `x`.
pub open spec fn record_slot(by: SortBy, order: SortOrder, s: Seq<SortRecord>, x: SortRecord) -> int
    decreases s.len(),
{
    if s.len() > 0 && record_before(by, order, x, s.last()) {
        record_slot(by, order, s.drop_last(), x)
    } else {
        s.len() as int
    }
}

/// The stable sort of `s`: each record is inserted in turn.
pub open spec fn sort_records(by: SortBy, order: SortOrder, s: Seq<SortRecord>) -> Seq<SortRecord>
    decreases s.len(),
{
    if s.len() == 0 {
        s
    } else {
        insert_record(by, order, sort_records(by, order, s.drop_last()), s.last())
    }
}

/// No record comes strictly before an earlier one.
pub open spec fn records_ordered(by: SortBy, order: SortOrder, s: Seq<SortRecord>) -> bool {
    forall|i: int, j: int|
        0 <= i < j < s.len() ==> !record_before(by, order, #[trigger] s[j], #[trigger] s[i])
}

proof fn lemma_before_asymmetric(by: SortBy, order: SortOrder, a: SortRecord, b: SortRecord)
    ensures
        record_before(by, order, a, b) ==> !record_before(by, order, b, a),
{
    lemma_text_before_asymmetric(a.topic@, b.topic@);
    lemma_text_before_asymmetric(b.topic@, a.topic@);
}

proof fn lemma_before_connected(
    by: SortBy,
    order: SortOrder,
    a: SortRecord,
    b: SortRecord,
    c: SortRecord,
)
    ensures
        record_before(by, order, a, c) ==> record_before(by, order, a, b) || record_before(
            by,
            order,
            b,
            c,
        ),
{
    lemma_text_before_connected(a.topic@, b.topic@, c.topic@);
    lemma_text_before_connected(c.topic@, b.topic@, a.topic@);
}

proof fn lemma_insert_record_at(by: SortBy, order: SortOrder, s: Seq<SortRecord>, x: SortRecord)
    ensures
        0 <= record_slot(by, order, s, x) <= s.len(),
        insert_record(by, order, s, x) == s.insert(record_slot(by, order, s, x), x),
        forall|k: int|
            record_slot(by, order, s, x) <= k < s.len() ==> record_before(by, order, x, #[trigger] s[k]),
        record_slot(by, order, s, x) == 0 || !record_before(
            by,
            order,
            x,
            s[record_slot(by, order, s, x) - 1],
        ),
    decreases s.len(),
{
    if s.len() > 0 && record_before(by, order, x, s.last()) {
        let t = s.drop_last();
        lemma_insert_record_at(by, order, t, x);
        let p = record_slot(by, order, t, x);
        assert(t.insert(p, x).push(s.last()) =~= s.insert(p, x));
        assert forall|k: int| p <= k < s.len() implies record_before(by, order, x, #[trigger] s[k]) by {
            if k < t.len() {
                assert(s[k] == t[k]);
            }
        }
        if p > 0 {
            assert(s[p - 1] == t[p - 1]);
        }
    } else {
        assert(s.push(x) =~= s.insert(s.len() as int, x));
    }
}

proof fn lemma_record_slot_unique(
    by: SortBy,
    order: SortOrder,
    s: Seq<SortRecord>,
    x: SortRecord,
    j: int,
)
    requires
        0 <= j <= s.len(),
        forall|k: int| j <= k < s.len() ==> record_before(by, order, x, #[trigger] s[k]),
        j == 0 || !record_before(by, order, x, s[j - 1]),
    ensures
        record_slot(by, order, s, x) == j,
    decreases s.len(),
{
    if s.len() > j {
        let t = s.drop_last();
        assert(record_before(by, order, x, s[s.len() - 1]));
        assert forall|k: int| j <= k < t.len() implies record_before(by, order, x, #[trigger] t[k]) by {
            assert(t[k] == s[k]);
        }
        if j > 0 {
            assert(t[j - 1] == s[j - 1]);
        }
        lemma_record_slot_unique(by, order, t, x, j);
    }
}

proof fn lemma_insert_record_ordered(by: SortBy, order: SortOrder, s: Seq<SortRecord>, x: SortRecord)
    requires
        records_ordered(by, order, s),
    ensures
        records_ordered(by, order, insert_record(by, order, s, x)),
{
    lemma_insert_record_at(by, order, s, x);
    let p = record_slot(by, order, s, x);
    let r = s.insert(p, x);
    s.insert_ensures(p, x);
    assert forall|i: int, j: int| 0 <= i < j < r.len() implies !record_before(
        by,
        order,
        #[trigger] r[j],
        #[trigger] r[i],
    ) by {
        if j < p {
            assert(r[i] == s[i] && r[j] == s[j]);
        } else if j == p {
            assert(r[i] == s[i]);
            assert(!record_before(by, order, x, s[p - 1]));
            if i < p - 1 {
                assert(!record_before(by, order, s[p - 1], s[i]));
            }
            lemma_before_connected(by, order, x, s[p - 1], s[i]);
        } else if i == p {
            assert(r[j] == s[j - 1]);
            lemma_before_asymmetric(by, order, x, s[j - 1]);
        } else if i < p {
            assert(r[i] == s[i] && r[j] == s[j - 1]);
        } else {
            assert(r[i] == s[i - 1] && r[j] == s[j - 1]);
        }
    }
}

/// Sorted results have no record strictly before an earlier one.
pub proof fn law_sort_records_ordered(by: SortBy, order: SortOrder, s: Seq<SortRecord>)
    ensures
        records_ordered(by, order, sort_records(by, order, s)),
    decreases s.len(),
{
    if s.len() > 0 {
        law_sort_records_ordered(by, order, s.drop_last());
        lemma_insert_record_ordered(by, order, sort_records(by, order, s.drop_last()), s.last());
    }
}

/// Sorting keeps exactly the results it was given, as many times each.
pub proof fn law_sort_records_permutes(by: SortBy, order: SortOrder, s: Seq<SortRecord>)
    ensures
        sort_records(by, order, s).to_multiset() =~= s.to_multiset(),
    decreases s.len(),
{
    broadcast use vstd::seq_lib::group_to_multiset_ensures;

    if s.len() > 0 {
        let t = sort_records(by, order, s.drop_last());
        law_sort_records_permutes(by, order, s.drop_last());
        lemma_insert_record_at(by, order, t, s.last());
        let p = record_slot(by, order, t, s.last());
        vstd::seq_lib::lemma_multiset_commutative(t.take(p).push(s.last()), t.skip(p));
        vstd::seq_lib::lemma_multiset_commutative(t.take(p), t.skip(p));
        assert(t.take(p) + t.skip(p) =~= t);
        assert(t.insert(p, s.last()) =~= t.take(p).push(s.last()) + t.skip(p));
        assert(s.drop_last().push(s.last()) =~= s);
    }
}

/// The records that neither come before `y` nor after it.
pub open spec fn tied_with_record(by: SortBy, order: SortOrder, y: SortRecord) -> spec_fn(SortRecord) -> bool {
    |t: SortRecord| !record_before(by, order, t, y) && !record_before(by, order, y, t)
}

/// Sorting is stable: results that compare equal to any given one come out
/// in the order they were found.
pub proof fn law_sort_records_stable(by: SortBy, order: SortOrder, s: Seq<SortRecord>, y: SortRecord)
    ensures
        sort_records(by, order, s).filter(tied_with_record(by, order, y)) == s.filter(
            tied_with_record(by, order, y),
        ),
    decreases s.len(),
{
    broadcast use Seq::lemma_filter_push;

    if s.len() > 0 {
        let f = tied_with_record(by, order, y);
        let x = s.last();
        let t = sort_records(by, order, s.drop_last());
        law_sort_records_stable(by, order, s.drop_last(), y);
        lemma_insert_record_at(by, order, t, x);
        let p = record_slot(by, order, t, x);
        let front = t.take(p);
        let back = t.skip(p);
        assert(t =~= front + back);
        assert(t.insert(p, x) =~= front.push(x) + back);
        Seq::filter_distributes_over_add(front.push(x), back, f);
        Seq::filter_distributes_over_add(front, back, f);
        if f(x) {
            assert(back.filter(f) =~= Seq::<SortRecord>::empty()) by {
                assert forall|k: int| 0 <= k < back.len() implies !f(#[trigger] back[k]) by {
                    assert(back[k] == t[p + k]);
                    assert(record_before(by, order, x, t[p + k]));
                    lemma_before_connected(by, order, x, y, back[k]);
                    lemma_before_connected(by, order, back[k], x, y);
                    lemma_before_connected(by, order, y, back[k], x);
                }
                if back.filter(f).len() > 0 {
                    back.lemma_filter_contains_rev(f, back.filter(f)[0]);
                    back.lemma_filter_pred(f, 0);
                }
            }
        }
        assert(s.drop_last().push(x) =~= s);
    }
}

/// Whether `a` comes strictly before `b` (see `record_before`).
fn precedes(by: SortBy, order: SortOrder, a: &SortRecord, b: &SortRecord) -> (r: bool)
    ensures
        r == record_before(by, order, *a, *b),
{
    let (x, y) = match order {
        SortOrder::Desc => (a, b),
        SortOrder::Asc => (b, a),
    };
    match by {
        SortBy::Relevance => x.reference_count > y.reference_count || (x.reference_count
            == y.reference_count && x.confidence_rank > y.confidence_rank),
        SortBy::Created => x.created_at > y.created_at,
        SortBy::Modified => {
            let mx = match x.last_accessed {
                Some(t) => t,
                None => x.created_at,
            };
            let my = match y.last_accessed {
                Some(t) => t,
                None => y.created_at,
            };
            mx > my
        },
        SortBy::Confidence => x.confidence_rank > y.confidence_rank,
        SortBy::References => x.reference_count > y.reference_count,
        SortBy::Topic => text_precedes(x.topic.as_str(), y.topic.as_str()),
    }
}

/// Sorts search results stably in the asked order (see `sort_records`).
pub fn sort_results(records: Vec<SortRecord>, by: SortBy, order: SortOrder) -> (r: Vec<SortRecord>)
    ensures
        r@ == sort_records(by, order, records@),
{
    let ghost k = records@;
    let mut rest = records;
    let m = rest.len();
    let mut out: Vec<SortRecord> = Vec::new();
    let mut d: usize = 0;
    assert(k.take(0) =~= Seq::<SortRecord>::empty());
    assert(k.skip(0) =~= k);
    while d < m
        invariant
            m == k.len(),
            d <= m,
            rest@ == k.skip(d as int),
            out@ == sort_records(by, order, k.take(d as int)),
        decreases m - d,
    {
        let ghost before_rest = rest@;
        let x = rest.remove(0);
        assert(x == k[d as int]);
        assert(rest@ =~= k.skip(d + 1));
        let ghost s = out@;
        let mut j: usize = out.len();
        loop
            invariant
                s == out@,
                j <= out@.len(),
                forall|q: int| j <= q < s.len() ==> record_before(by, order, x, #[trigger] s[q]),
            ensures
                j <= out@.len(),
                forall|q: int| j <= q < s.len() ==> record_before(by, order, x, #[trigger] s[q]),
                j == 0 || !record_before(by, order, x, s[j - 1]),
            decreases j,
        {
            if j == 0 {
                break;
            }
            if !precedes(by, order, &x, &out[j - 1]) {
                break;
            }
            j = j - 1;
        }
        proof {
            lemma_record_slot_unique(by, order, s, x, j as int);
            lemma_insert_record_at(by, order, s, x);
            assert(k.take(d + 1).drop_last() =~= k.take(d as int));
            assert(k.take(d + 1).last() == x);
        }
        out.insert(j, x);
        d = d + 1;
    }
    assert(k.take(m as int) =~= k);
    out
}

/// The keyword result at `i` joins the semantic results: its id is not
/// among theirs, nor among the keyword results before it.
pub open spec fn joins(semantic: Seq<Seq<char>>, keyword: Seq<Seq<char>>, i: int) -> bool {
    !semantic.contains(keyword[i]) && !keyword.take(i).contains(keyword[i])
}

/// The positions of the keyword results that join, in order.
pub open spec fn joining(semantic: Seq<Seq<char>>, keyword: Seq<Seq<char>>, n: int) -> Seq<usize>
    decreases n,
{
    if n <= 0 {
        Seq::empty()
    } else if joins(semantic, keyword, n - 1) {
        joining(semantic, keyword, n - 1).push((n - 1) as usize)
    } else {
        joining(semantic, keyword, n - 1)
    }
}

/// Whether `w` is the id of one of the first `n` results.
fn among(ids: &Vec<String>, n: usize, w: &str) -> (r: bool)
    requires
        n <= ids@.len(),
    ensures
        r == texts(ids@).take(n as int).contains(w@),
{
    let mut k: usize = 0;
    while k < n
        invariant
            k <= n <= ids@.len(),
            forall|q: int| 0 <= q < k ==> ids@[q]@ != w@,
        decreases n - k,
    {
        if str_eq(ids[k].as_str(), w) {
            assert(texts(ids@).take(n as int)[k as int] == w@);
            return true;
        }
        k = k + 1;
    }
    assert forall|q: int| 0 <= q < n implies texts(ids@).take(n as int)[q] != w@ by {
        assert(texts(ids@).take(n as int)[q] == ids@[q]@);
    }
    false
}

/// In a search that combines semantic and keyword results, the semantic
/// results come first; then, by their ids, the keyword results that are
/// not among them, each once. Gives the positions of those keyword
/// results.
pub fn keyword_additions(semantic: &Vec<String>, keyword: &Vec<String>) -> (r: Vec<usize>)
    ensures
        r@ == joining(texts(semantic@), texts(keyword@), keyword@.len() as int),
{
    let ghost sv = texts(semantic@);
    let ghost kv = texts(keyword@);
    let mut r: Vec<usize> = Vec::new();
    let mut i: usize = 0;
    while i < keyword.len()
        invariant
            i <= keyword@.len(),
            sv == texts(semantic@),
            kv == texts(keyword@),
            r@ == joining(sv, kv, i as int),
        decreases keyword.len() - i,
    {
        let in_semantic = among(semantic, semantic.len(), keyword[i].as_str());
        assert(texts(semantic@).take(semantic@.len() as int) =~= sv);
        let seen = among(keyword, i, keyword[i].as_str());
        assert(kv[i as int] == keyword@[i as int]@);
        if !in_semantic && !seen {
            r.push(i);
        }
        i = i + 1;
    }
    r
}

} // verus!
