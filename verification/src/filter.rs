//! Filtering memories by type, tags, age, deletion and a regular-expression
//! query. (The confidence threshold compares floating-point scores and is
//! applied by the caller.)

use vstd::prelude::*;
use vstd::string::StringExecFns;
use crate::clock::now_timestamp;
use crate::distribution::{count_texts, is_distribution};
use crate::tag_list::tag_views;
use crate::cluster::{lowercase, to_lowercase};
use crate::config::texts;
use crate::export::{join_strings, join_with, part_if, signed_decimal, signed_decimal_text};
use crate::pattern::{pattern_finds, regex_compiles, regex_finds, CompiledPattern};
use crate::text::{append_str, chars_of, contains_chars, contains_text, str_eq};

verus! {

/// What a filter reads of a memory.
#[derive(Debug, Clone)]
pub struct FilterRecord {
    pub memory_type: String,
    pub title: String,
    pub content: String,
    pub tags: Vec<String>,
    pub reference_count: u32,
    /// When the memory was created, as a Unix timestamp.
    pub created_at: i64,
    pub deleted: bool,
}

/// The filter criteria other than the confidence threshold.
#[derive(Debug, Clone)]
pub struct FilterCriteria {
    /// Keep memories of this type.
    pub memory_type: Option<String>,
    /// Keep memories that have, for each of these tags, a tag containing
    /// it (compared in lowercase).
    pub tags: Option<Vec<String>>,
    /// Keep memories created at most this many days ago.
    pub max_age_days: Option<i64>,
    /// Keep deleted memories too.
    pub include_deleted: bool,
    /// The search query.
    pub query: Option<String>,
    /// Read the query as a regular expression.
    pub regex: bool,
    /// Match the regular expression with case.
    pub case_sensitive: bool,
    /// Search the title only.
    pub title_only: bool,
    /// Search the content only.
    pub content_only: bool,
}

/// Why filter criteria were refused.
#[derive(Debug, Clone, PartialEq, Eq)]
pub enum FilterError {
    /// Both title-only and content-only were asked for.
    ConflictingScopes,
    /// The query is not a regular expression the regex crate compiles; the
    /// crate's message.
    InvalidRegex(String),
}

/// The regular expression a query is searched with: the query itself with
/// case, else the query behind the case-insensitive flag `(?i)`.
pub open spec fn query_pattern(query: Seq<char>, case_sensitive: bool) -> Seq<char> {
    if case_sensitive {
        query
    } else {
        "(?i)"@ + query
    }
}

/// Builds the regular expression of a query (see `query_pattern`).
pub fn regex_pattern(query: &str, case_sensitive: bool) -> (r: String)
    ensures
        r@ == query_pattern(query@, case_sensitive),
{
    if case_sensitive {
        String::from_str(query)
    } else {
        let mut r = String::from_str("(?i)");
        append_str(&mut r, query);
        r
    }
}

/// The query searched as a regular expression, if any.
pub open spec fn regex_query(c: FilterCriteria) -> Option<Seq<char>> {
    match c.query {
        Some(q) => if c.regex {
            Some(query_pattern(q@, c.case_sensitive))
        } else {
            None
        },
        None => None,
    }
}

/// Title-only and content-only are both asked for.
pub open spec fn scopes_conflict(c: FilterCriteria) -> bool {
    c.title_only && c.content_only
}

/// A regular-expression query, if there is one, compiles.
pub open spec fn query_compiles(c: FilterCriteria) -> bool {
    regex_query(c) matches Some(p) ==> regex_compiles(p)
}

/// Some tag of `tags` contains `wanted`, both in lowercase.
pub open spec fn has_tag_like(tags: Seq<Seq<char>>, wanted: Seq<char>) -> bool {
    exists|k: int| 0 <= k < tags.len() && contains_text(lowercase(tags[k]), lowercase(wanted))
}

/// The regular expression `p` matches the record where the criteria say
/// to search: the title, the content, or the title, content and tags.
pub open spec fn record_matches(c: FilterCriteria, p: Seq<char>, r: FilterRecord) -> bool {
    if c.title_only {
        regex_finds(p, r.title@)
    } else if c.content_only {
        regex_finds(p, r.content@)
    } else {
        regex_finds(p, r.title@) || regex_finds(p, r.content@) || exists|k: int|
            0 <= k < r.tags@.len() && regex_finds(p, #[trigger] r.tags@[k]@)
    }
}

/// Whether a record passes the criteria at the moment `now`.
pub open spec fn passes(c: FilterCriteria, r: FilterRecord, now: i64) -> bool {
    &&& (c.memory_type matches Some(t) ==> r.memory_type@ == t@)
    &&& (c.tags matches Some(ts) ==> forall|j: int|
        0 <= j < ts@.len() ==> has_tag_like(texts(r.tags@), #[trigger] ts@[j]@))
    &&& (c.max_age_days matches Some(d) ==> r.created_at >= now - d * 86400)
    &&& (!c.include_deleted ==> !r.deleted)
    &&& (regex_query(c) matches Some(p) ==> record_matches(c, p, r))
}

/// The pass flags of the records at the moment `now`, one per record.
pub open spec fn pass_flags(c: FilterCriteria, rs: Seq<FilterRecord>, now: i64) -> Seq<bool> {
    Seq::new(rs.len(), |i: int| passes(c, rs[i], now))
}

/// The items whose flag is set, in their order.
pub open spec fn flagged<T>(items: Seq<T>, keep: Seq<bool>) -> Seq<T>
    decreases items.len(),
{
    if items.len() == 0 {
        Seq::empty()
    } else {
        (if keep[0] {
            seq![items[0]]
        } else {
            Seq::empty()
        }) + flagged(items.drop_first(), keep.drop_first())
    }
}

/// Keeps the items whose flag is set, in their order.
pub fn retain_flagged<T>(items: Vec<T>, keep: &Vec<bool>) -> (r: Vec<T>)
    requires
        keep@.len() == items@.len(),
    ensures
        r@ == flagged(items@, keep@),
{
    let mut rest = items;
    let mut r: Vec<T> = Vec::new();
    let mut i: usize = 0;
    proof {
        assert(keep@.subrange(0, keep@.len() as int) =~= keep@);
        assert(rest@.subrange(0, rest@.len() as int) =~= rest@);
        assert(Seq::<T>::empty() + flagged(items@, keep@) =~= flagged(items@, keep@));
    }
    while i < keep.len()
        invariant
            i <= keep@.len(),
            keep@.len() == items@.len(),
            rest@ == items@.subrange(i as int, items@.len() as int),
            r@ + flagged(rest@, keep@.subrange(i as int, keep@.len() as int)) == flagged(
                items@,
                keep@,
            ),
        decreases keep.len() - i,
    {
        proof {
            let ks = keep@.subrange(i as int, keep@.len() as int);
            assert(ks.drop_first() =~= keep@.subrange(i + 1, keep@.len() as int));
            assert(rest@.drop_first() =~= items@.subrange(i + 1, items@.len() as int));
        }
        let x = rest.remove(0);
        if keep[i] {
            proof {
                let tail = flagged(rest@, keep@.subrange(i + 1, keep@.len() as int));
                assert(r@.push(x) + tail =~= r@ + (seq![x] + tail));
            }
            r.push(x);
        } else {
            proof {
                let tail = flagged(rest@, keep@.subrange(i + 1, keep@.len() as int));
                assert(Seq::<T>::empty() + tail =~= tail);
            }
        }
        i = i + 1;
    }
    proof {
        assert(rest@.len() == 0);
        assert(r@ + Seq::<T>::empty() =~= r@);
    }
    r
}

/// Criteria that keep every memory that is not deleted.
pub open spec fn no_criteria() -> FilterCriteria {
    FilterCriteria {
        memory_type: None,
        tags: None,
        max_age_days: None,
        include_deleted: false,
        query: None,
        regex: false,
        case_sensitive: false,
        title_only: false,
        content_only: false,
    }
}

impl Default for FilterCriteria {
    fn default() -> (r: Self)
        ensures
            r == no_criteria(),
    {
        FilterCriteria {
            memory_type: None,
            tags: None,
            max_age_days: None,
            include_deleted: false,
            query: None,
            regex: false,
            case_sensitive: false,
            title_only: false,
            content_only: false,
        }
    }
}

impl FilterCriteria {
    /// Criteria that keep every memory that is not deleted.
    pub fn new() -> (r: Self)
        ensures
            r == no_criteria(),
    {
        Self::default()
    }

    /// The same criteria, keeping only memories of `memory_type`.
    pub fn with_type(self, memory_type: String) -> (r: Self)
        ensures
            r == (FilterCriteria { memory_type: Some(memory_type), ..self }),
    {
        FilterCriteria { memory_type: Some(memory_type), ..self }
    }

    /// The same criteria, keeping only memories with a tag like each of
    /// `tags`.
    pub fn with_tags(self, tags: Vec<String>) -> (r: Self)
        ensures
            r == (FilterCriteria { tags: Some(tags), ..self }),
    {
        FilterCriteria { tags: Some(tags), ..self }
    }

    /// The same criteria, keeping only memories at most `days` days old.
    pub fn with_max_age_days(self, days: i64) -> (r: Self)
        ensures
            r == (FilterCriteria { max_age_days: Some(days), ..self }),
    {
        FilterCriteria { max_age_days: Some(days), ..self }
    }

    /// The same criteria, keeping deleted memories too.
    pub fn include_deleted(self) -> (r: Self)
        ensures
            r == (FilterCriteria { include_deleted: true, ..self }),
    {
        FilterCriteria { include_deleted: true, ..self }
    }

    /// The same criteria with a search query.
    pub fn with_query(self, query: String, regex: bool, case_sensitive: bool) -> (r: Self)
        ensures
            r == (FilterCriteria { query: Some(query), regex, case_sensitive, ..self }),
    {
        FilterCriteria { query: Some(query), regex, case_sensitive, ..self }
    }

    /// Checks the criteria: title-only and content-only exclude each other
    /// (checked first), and a regular-expression query must compile.
    pub fn validate(&self) -> (r: Result<(), FilterError>)
        ensures
            scopes_conflict(*self) ==> r == Err::<(), FilterError>(FilterError::ConflictingScopes),
            !scopes_conflict(*self) ==> (r is Ok <==> query_compiles(*self)),
            !scopes_conflict(*self) && !query_compiles(*self) ==> r matches Err(
                FilterError::InvalidRegex(_),
            ),
    {
        if self.title_only && self.content_only {
            return Err(FilterError::ConflictingScopes);
        }
        if let Some(q) = &self.query {
            if self.regex {
                let p = regex_pattern(q.as_str(), self.case_sensitive);
                match CompiledPattern::new(p.as_str()) {
                    Ok(_) => {},
                    Err(m) => {
                        return Err(FilterError::InvalidRegex(m));
                    },
                }
            }
        }
        Ok(())
    }
}

/// Some tag contains `wanted`, both lowercased.
pub open spec fn some_tag_contains(tags: Seq<String>, wanted: Seq<char>) -> bool {
    exists|k: int| 0 <= k < tags.len() && contains_text(lowercase(#[trigger] tags[k]@), lowercase(wanted))
}

/// A record the criteria keep has the asked type, has for each asked tag a
/// tag containing it (in lowercase), was created no earlier than the asked
/// number of days before `now`, is not deleted unless deleted records are
/// asked for, and is matched by the regular-expression query; and each
/// criterion only narrows: without it, or with deleted records included,
/// the record is kept as well.
pub proof fn law_kept_records_meet_each_criterion(c: FilterCriteria, r: FilterRecord, now: i64)
    requires
        passes(c, r, now),
    ensures
        c.memory_type matches Some(t) ==> r.memory_type@ == t@,
        c.tags matches Some(ts) ==> forall|j: int|
            0 <= j < ts@.len() ==> #[trigger] some_tag_contains(r.tags@, ts@[j]@),
        c.max_age_days matches Some(d) ==> r.created_at >= now - d * 86400,
        !c.include_deleted ==> !r.deleted,
        regex_query(c) matches Some(p) ==> record_matches(c, p, r),
        passes(FilterCriteria { memory_type: None, ..c }, r, now),
        passes(FilterCriteria { tags: None, ..c }, r, now),
        passes(FilterCriteria { max_age_days: None, ..c }, r, now),
        passes(FilterCriteria { include_deleted: true, ..c }, r, now),
        passes(FilterCriteria { query: None, ..c }, r, now),
{
    if c.tags is Some {
        let ts = c.tags.unwrap();
        assert forall|j: int| 0 <= j < ts@.len() implies #[trigger] some_tag_contains(
            r.tags@,
            ts@[j]@,
        ) by {
            assert(has_tag_like(texts(r.tags@), ts@[j]@));
            let k = choose|k: int|
                0 <= k < texts(r.tags@).len() && contains_text(
                    lowercase(texts(r.tags@)[k]),
                    lowercase(ts@[j]@),
                );
            assert(texts(r.tags@)[k] == r.tags@[k]@);
        }
    }
}

/// Criteria that pass validation are applied without error.
pub proof fn law_valid_criteria_apply(c: FilterCriteria)
    requires
        !scopes_conflict(c),
        query_compiles(c),
    ensures
        !(regex_query(c) matches Some(p) && !regex_compiles(p)),
{
}

/// Whether some tag contains `wanted`, both in lowercase.
fn tag_like(tags: &Vec<String>, wanted: &str) -> (r: bool)
    ensures
        r == has_tag_like(texts(tags@), wanted@),
{
    let w = to_lowercase(wanted);
    let wc = chars_of(w.as_str());
    let mut k: usize = 0;
    while k < tags.len()
        invariant
            k <= tags@.len(),
            wc@ == lowercase(wanted@),
            forall|j: int| 0 <= j < k ==> !contains_text(lowercase(tags@[j]@), lowercase(wanted@)),
        decreases tags.len() - k,
    {
        let t = to_lowercase(tags[k].as_str());
        let tc = chars_of(t.as_str());
        if contains_chars(tc.as_slice(), wc.as_slice()) {
            assert(texts(tags@)[k as int] == tags@[k as int]@);
            return true;
        }
        k = k + 1;
    }
    assert forall|j: int| 0 <= j < texts(tags@).len() implies !contains_text(
        lowercase(texts(tags@)[j]),
        lowercase(wanted@),
    ) by {
        assert(texts(tags@)[j] == tags@[j]@);
    }
    false
}

/// Whether for each wanted tag some tag contains it, both in lowercase.
fn all_tags_like(tags: &Vec<String>, wanted: &Vec<String>) -> (r: bool)
    ensures
        r == forall|j: int| 0 <= j < wanted@.len() ==> has_tag_like(texts(tags@), #[trigger] wanted@[j]@),
{
    let mut j: usize = 0;
    while j < wanted.len()
        invariant
            j <= wanted@.len(),
            forall|q: int| 0 <= q < j ==> has_tag_like(texts(tags@), #[trigger] wanted@[q]@),
        decreases wanted.len() - j,
    {
        if !tag_like(tags, wanted[j].as_str()) {
            return false;
        }
        j = j + 1;
    }
    true
}

/// Whether the compiled pattern matches the record where the criteria say.
fn matches_record(c: &FilterCriteria, p: &CompiledPattern, r: &FilterRecord) -> (m: bool)
    ensures
        m == record_matches(*c, p@, *r),
{
    if c.title_only {
        pattern_finds(p, r.title.as_str())
    } else if c.content_only {
        pattern_finds(p, r.content.as_str())
    } else {
        if pattern_finds(p, r.title.as_str()) {
            return true;
        }
        if pattern_finds(p, r.content.as_str()) {
            return true;
        }
        let mut k: usize = 0;
        while k < r.tags.len()
            invariant
                k <= r.tags@.len(),
                !c.title_only && !c.content_only,
                !regex_finds(p@, r.title@),
                !regex_finds(p@, r.content@),
                forall|j: int| 0 <= j < k ==> !regex_finds(p@, #[trigger] r.tags@[j]@),
            decreases r.tags.len() - k,
        {
            if pattern_finds(p, r.tags[k].as_str()) {
                assert(regex_finds(p@, r.tags@[k as int]@));
                return true;
            }
            k = k + 1;
        }
        false
    }
}

/// The type part of a description.
pub open spec fn type_part(c: FilterCriteria) -> Seq<Seq<char>> {
    match c.memory_type {
        Some(t) => seq!["type: "@ + t@],
        None => Seq::empty(),
    }
}

/// The tags part of a description.
pub open spec fn tags_part(c: FilterCriteria) -> Seq<Seq<char>> {
    match c.tags {
        Some(ts) => seq!["tags: "@ + join_with(texts(ts@), ", "@)],
        None => Seq::empty(),
    }
}

/// The confidence part of a description.
pub open spec fn confidence_part(confidence: Option<String>) -> Seq<Seq<char>> {
    match confidence {
        Some(x) => seq!["confidence >= "@ + x@],
        None => Seq::empty(),
    }
}

/// The age part of a description.
pub open spec fn age_part(c: FilterCriteria) -> Seq<Seq<char>> {
    match c.max_age_days {
        Some(a) => seq!["age <= "@ + signed_decimal(a as int) + " days"@],
        None => Seq::empty(),
    }
}

/// The query part of a description.
pub open spec fn query_part(c: FilterCriteria) -> Seq<Seq<char>> {
    match c.query {
        Some(q) => seq![
            "query: '"@ + q@ + "' ("@ + (if c.regex {
                "regex"@
            } else {
                "FTS5"@
            }) + ")"@,
        ],
        None => Seq::empty(),
    }
}

/// The parts of the description of filter criteria, given the minimum
/// confidence as already written with two decimals.
pub open spec fn criteria_parts(c: FilterCriteria, confidence: Option<String>) -> Seq<Seq<char>> {
    type_part(c) + tags_part(c) + confidence_part(confidence) + age_part(c) + part_if(
        c.include_deleted,
        "including deleted"@,
    ) + query_part(c)
}

/// The description of filter criteria: its parts joined with `, `, or
/// `no filters` when there are none.
pub open spec fn criteria_description(c: FilterCriteria, confidence: Option<String>) -> Seq<
    char,
> {
    let parts = criteria_parts(c, confidence);
    if parts.len() == 0 {
        "no filters"@
    } else {
        join_with(parts, ", "@)
    }
}

/// Pushes a part built from up to three texts.
fn push_part(parts: &mut Vec<String>, a: &str, b: &str, c: &str)
    ensures
        texts(final(parts)@) == texts(old(parts)@).push(a@ + b@ + c@),
{
    let mut p = String::from_str(a);
    append_str(&mut p, b);
    append_str(&mut p, c);
    let ghost before = parts@;
    parts.push(p);
    assert(texts(parts@) =~= texts(before).push(a@ + b@ + c@));
}

fn add_type_part(parts: &mut Vec<String>, c: &FilterCriteria)
    ensures
        texts(final(parts)@) == texts(old(parts)@) + type_part(*c),
{
    proof {
        reveal_strlit("");
    }
    if let Some(t) = &c.memory_type {
        push_part(parts, "type: ", t.as_str(), "");
    } else {
        assert(texts(parts@) + type_part(*c) =~= texts(parts@));
    }
}

fn add_tags_part(parts: &mut Vec<String>, c: &FilterCriteria)
    ensures
        texts(final(parts)@) == texts(old(parts)@) + tags_part(*c),
{
    proof {
        reveal_strlit("");
    }
    if let Some(ts) = &c.tags {
        let joined = join_strings(ts, ", ");
        push_part(parts, "tags: ", joined.as_str(), "");
    } else {
        assert(texts(parts@) + tags_part(*c) =~= texts(parts@));
    }
}

fn add_confidence_part(parts: &mut Vec<String>, confidence: &Option<String>)
    ensures
        texts(final(parts)@) == texts(old(parts)@) + confidence_part(*confidence),
{
    proof {
        reveal_strlit("");
    }
    if let Some(x) = confidence {
        push_part(parts, "confidence >= ", x.as_str(), "");
    } else {
        assert(texts(parts@) + confidence_part(*confidence) =~= texts(parts@));
    }
}

fn add_age_part(parts: &mut Vec<String>, c: &FilterCriteria)
    ensures
        texts(final(parts)@) == texts(old(parts)@) + age_part(*c),
{
    if let Some(a) = c.max_age_days {
        let n = signed_decimal_text(a);
        push_part(parts, "age <= ", n.as_str(), " days");
    } else {
        assert(texts(parts@) + age_part(*c) =~= texts(parts@));
    }
}

fn add_deleted_part(parts: &mut Vec<String>, c: &FilterCriteria)
    ensures
        texts(final(parts)@) == texts(old(parts)@) + part_if(c.include_deleted, "including deleted"@),
{
    proof {
        reveal_strlit("");
    }
    if c.include_deleted {
        push_part(parts, "including deleted", "", "");
    } else {
        assert(texts(parts@) + part_if(c.include_deleted, "including deleted"@) =~= texts(parts@));
    }
}

fn add_query_part(parts: &mut Vec<String>, c: &FilterCriteria)
    ensures
        texts(final(parts)@) == texts(old(parts)@) + query_part(*c),
{
    if let Some(q) = &c.query {
        let kind = if c.regex {
            "regex"
        } else {
            "FTS5"
        };
        let mut head = String::from_str("query: '");
        append_str(&mut head, q.as_str());
        append_str(&mut head, "' (");
        push_part(parts, head.as_str(), kind, ")");
    } else {
        assert(texts(parts@) + query_part(*c) =~= texts(parts@));
    }
}

/// The engine that applies filter criteria.
pub struct FilterEngine;

impl FilterEngine {
    /// Describes the criteria for people; `min_confidence` is the minimum
    /// confidence, if one is set, already written with two decimals.
    pub fn describe_criteria(criteria: &FilterCriteria, min_confidence: Option<String>) -> (r:
        String)
        ensures
            r@ == criteria_description(*criteria, min_confidence),
    {
        let mut parts: Vec<String> = Vec::new();
        assert(texts(parts@) =~= Seq::<Seq<char>>::empty());
        add_type_part(&mut parts, criteria);
        assert(texts(parts@) =~= type_part(*criteria));
        add_tags_part(&mut parts, criteria);
        add_confidence_part(&mut parts, &min_confidence);
        add_age_part(&mut parts, criteria);
        add_deleted_part(&mut parts, criteria);
        add_query_part(&mut parts, criteria);
        if parts.len() == 0 {
            String::from_str("no filters")
        } else {
            join_strings(&parts, ", ")
        }
    }

    /// Which records pass the criteria at the moment `now`, one flag per
    /// record; a regular-expression query that does not compile is an
    /// error. The age bound in seconds must fit an `i64`.
    pub fn apply_filters_at(criteria: &FilterCriteria, records: &Vec<FilterRecord>, now: i64) -> (r:
        Result<Vec<bool>, FilterError>)
        requires
            criteria.max_age_days matches Some(d) ==> (i64::MIN <= d * 86400 <= i64::MAX
                && i64::MIN <= now - d * 86400 <= i64::MAX),
        ensures
            r is Err <==> (regex_query(*criteria) matches Some(p) && !regex_compiles(p)),
            r matches Ok(keep) ==> keep@ == pass_flags(*criteria, records@, now),
    {
        let mut compiled: Option<CompiledPattern> = None;
        if let Some(q) = &criteria.query {
            if criteria.regex {
                let p = regex_pattern(q.as_str(), criteria.case_sensitive);
                match CompiledPattern::new(p.as_str()) {
                    Ok(c) => {
                        compiled = Some(c);
                    },
                    Err(m) => {
                        return Err(FilterError::InvalidRegex(m));
                    },
                }
            }
        }
        let cutoff: Option<i64> = match criteria.max_age_days {
            Some(d) => Some(now - d * 86400),
            None => None,
        };
        let mut keep: Vec<bool> = Vec::new();
        let mut i: usize = 0;
        while i < records.len()
            invariant
                i <= records@.len(),
                keep@.len() == i,
                forall|j: int| 0 <= j < i ==> keep@[j] == passes(*criteria, #[trigger] records@[j], now),
                regex_query(*criteria) matches Some(p) ==> (compiled matches Some(cp) && cp@ == p),
                criteria.max_age_days matches Some(d) ==> (cutoff matches Some(c) && c == now - d * 86400),
                regex_query(*criteria) is None ==> compiled is None,
                criteria.max_age_days is None ==> cutoff is None,
            decreases records.len() - i,
        {
            let r = &records[i];
            let type_ok = match &criteria.memory_type {
                Some(t) => str_eq(r.memory_type.as_str(), t.as_str()),
                None => true,
            };
            let tags_ok = match &criteria.tags {
                Some(ts) => all_tags_like(&r.tags, ts),
                None => true,
            };
            let age_ok = match cutoff {
                Some(c) => r.created_at >= c,
                None => true,
            };
            let deleted_ok = criteria.include_deleted || !r.deleted;
            let query_ok = match &compiled {
                Some(p) => matches_record(criteria, p, r),
                None => true,
            };
            let ok = type_ok && tags_ok && age_ok && deleted_ok && query_ok;
            assert(ok == passes(*criteria, records@[i as int], now));
            keep.push(ok);
            i = i + 1;
        }
        assert(keep@ =~= pass_flags(*criteria, records@, now));
        Ok(keep)
    }

    /// Keeps the records that pass the criteria now, in their order; a
    /// regular-expression query that does not compile is an error. The
    /// age bound in seconds must fit an `i64`, with room for the clock's
    /// seconds.
    pub fn apply_filters(criteria: &FilterCriteria, records: Vec<FilterRecord>) -> (r: Result<
        Vec<FilterRecord>,
        FilterError,
    >)
        requires
            criteria.max_age_days matches Some(d) ==> i64::MIN + 8_796_093_022_208 <= d * 86400
                <= i64::MAX,
        ensures
            r is Err <==> (regex_query(*criteria) matches Some(p) && !regex_compiles(p)),
            r matches Ok(kept) ==> exists|now: i64|
                0 <= now && #[trigger] flagged(records@, pass_flags(*criteria, records@, now))
                    == kept@,
    {
        let now = now_timestamp();
        match Self::apply_filters_at(criteria, &records, now) {
            Ok(keep) => {
                let kept = retain_flagged(records, &keep);
                Ok(kept)
            },
            Err(e) => Err(e),
        }
    }
}

/// The types of the records, in order.
pub open spec fn record_types(rs: Seq<FilterRecord>) -> Seq<Seq<char>> {
    rs.map_values(|r: FilterRecord| r.memory_type@)
}

/// The tags of the records, one record after the other.
pub open spec fn record_tags(rs: Seq<FilterRecord>) -> Seq<Seq<char>>
    decreases rs.len(),
{
    if rs.len() == 0 {
        Seq::empty()
    } else {
        record_tags(rs.drop_last()) + texts(rs.last().tags@)
    }
}

/// The reference counts of the records, added up.
pub open spec fn reference_total(rs: Seq<FilterRecord>) -> nat
    decreases rs.len(),
{
    if rs.len() == 0 {
        0
    } else {
        reference_total(rs.drop_last()) + rs.last().reference_count as nat
    }
}

/// The counts of a filtered set of memories. (Their average confidence is
/// a floating-point figure and is computed by the caller.)
#[derive(Debug, Clone)]
pub struct FilterStats {
    pub total_count: usize,
    /// Each type with its number of memories.
    pub type_distribution: Vec<(String, usize)>,
    pub total_references: u32,
    /// Each tag with its number of memories.
    pub tag_distribution: Vec<(String, usize)>,
}

impl FilterStats {
    /// Counts the memories, their types, their tags and their references;
    /// the references must add up to at most `u32::MAX`.
    pub fn from_memories(records: &Vec<FilterRecord>) -> (r: FilterStats)
        requires
            reference_total(records@) <= u32::MAX,
        ensures
            r.total_count == records@.len(),
            is_distribution(tag_views(r.type_distribution@), record_types(records@)),
            is_distribution(tag_views(r.tag_distribution@), record_tags(records@)),
            r.total_references == reference_total(records@),
    {
        let mut types: Vec<String> = Vec::new();
        let mut tags: Vec<String> = Vec::new();
        let mut total: u32 = 0;
        let mut i: usize = 0;
        while i < records.len()
            invariant
                i <= records@.len(),
                reference_total(records@) <= u32::MAX,
                texts(types@) == record_types(records@.take(i as int)),
                texts(tags@) == record_tags(records@.take(i as int)),
                total == reference_total(records@.take(i as int)),
            decreases records.len() - i,
        {
            let ghost before = records@.take(i as int);
            let ghost after = records@.take(i + 1);
            proof {
                assert(after.drop_last() =~= before);
                lemma_reference_total_prefix(records@, i + 1);
            }
            let r = &records[i];
            let ghost old_types = types@;
            types.push(r.memory_type.clone());
            proof {
                assert(record_types(after) =~= record_types(before).push(records@[i as int].memory_type@));
                assert(texts(types@) =~= texts(old_types).push(records@[i as int].memory_type@));
            }
            let mut j: usize = 0;
            let ghost old_tags = texts(tags@);
            while j < r.tags.len()
                invariant
                    j <= r.tags@.len(),
                    texts(tags@) == old_tags + texts(r.tags@).take(j as int),
                decreases r.tags.len() - j,
            {
                let ghost prev = tags@;
                tags.push(r.tags[j].clone());
                assert(texts(r.tags@).take(j + 1) =~= texts(r.tags@).take(j as int).push(r.tags@[j as int]@));
                assert(texts(tags@) =~= texts(prev).push(r.tags@[j as int]@));
                j = j + 1;
            }
            assert(texts(r.tags@).take(r.tags@.len() as int) =~= texts(r.tags@));
            total = total + r.reference_count;
            i = i + 1;
        }
        assert(records@.take(records@.len() as int) =~= records@);
        FilterStats {
            total_count: records.len(),
            type_distribution: count_texts(&types),
            total_references: total,
            tag_distribution: count_texts(&tags),
        }
    }
}

proof fn lemma_reference_total_prefix(rs: Seq<FilterRecord>, n: int)
    requires
        0 <= n <= rs.len(),
    ensures
        reference_total(rs.take(n)) <= reference_total(rs),
    decreases rs.len(),
{
    if n < rs.len() {
        assert(rs.drop_last().take(n) =~= rs.take(n));
        lemma_reference_total_prefix(rs.drop_last(), n);
    } else {
        assert(rs.take(n) =~= rs);
    }
}

} // verus!
