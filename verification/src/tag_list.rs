//! Listing tags with their usage counts: filtering by usage and name,
//! ordering, and keeping the first entries.

use vstd::prelude::*;
use crate::config::texts;
use crate::pattern::{pattern_finds, regex_compiles, regex_finds, CompiledPattern};
use crate::tag_ops::{select_operation, select_tag_operation, TagOperation, TagOperationError};
use crate::text::{chars_of, contains_chars, contains_text};

verus! {

/// The order in which listed tags appear.
#[derive(Debug, Clone, Copy, PartialEq, Eq, Structural)]
pub enum TagOrder {
    /// Most used first; tags used equally often keep their order.
    ByUsage,
    /// By name, in the order of their characters.
    Alphabetical,
    /// Most used first, and by name among tags used equally often.
    ByUsageThenName,
}

/// The order that the sort flags ask for: usage when asked, else names when
/// asked, else usage then name.
pub open spec fn order_for(sort_by_usage: bool, sort_alphabetically: bool) -> TagOrder {
    if sort_by_usage {
        TagOrder::ByUsage
    } else if sort_alphabetically {
        TagOrder::Alphabetical
    } else {
        TagOrder::ByUsageThenName
    }
}

/// The order that the sort flags ask for (see `order_for`).
pub fn tag_order(sort_by_usage: bool, sort_alphabetically: bool) -> (o: TagOrder)
    ensures
        o == order_for(sort_by_usage, sort_alphabetically),
{
    if sort_by_usage {
        TagOrder::ByUsage
    } else if sort_alphabetically {
        TagOrder::Alphabetical
    } else {
        TagOrder::ByUsageThenName
    }
}

/// `a` comes strictly before `b` in the order of strings: the first
/// differing character is smaller, or `a` is a proper prefix of `b`.
pub open spec fn text_before(a: Seq<char>, b: Seq<char>) -> bool
    decreases a.len(),
{
    if b.len() == 0 {
        false
    } else if a.len() == 0 {
        true
    } else if a[0] != b[0] {
        a[0] < b[0]
    } else {
        text_before(a.drop_first(), b.drop_first())
    }
}

/// A tag and its usage count, as the specifications see them.
pub open spec fn tag_view(t: (String, usize)) -> (Seq<char>, usize) {
    (t.0@, t.1)
}

/// The tags of a list, as the specifications see them.
pub open spec fn tag_views(s: Seq<(String, usize)>) -> Seq<(Seq<char>, usize)> {
    s.map_values(|t: (String, usize)| tag_view(t))
}

/// Entry `a` must come strictly before entry `b` in the given order.
pub open spec fn tag_before(order: TagOrder, a: (Seq<char>, usize), b: (Seq<char>, usize)) -> bool {
    match order {
        TagOrder::ByUsage => a.1 > b.1,
        TagOrder::Alphabetical => text_before(a.0, b.0),
        TagOrder::ByUsageThenName => a.1 > b.1 || (a.1 == b.1 && text_before(a.0, b.0)),
    }
}

/// Neither entry comes before the other: the order leaves them as they are.
pub open spec fn tag_tied(order: TagOrder, a: (Seq<char>, usize), b: (Seq<char>, usize)) -> bool {
    !tag_before(order, a, b) && !tag_before(order, b, a)
}

/// Inserts `x` into `s` after every entry that it does not come strictly before.
pub open spec fn insert_tag(order: TagOrder, s: Seq<(Seq<char>, usize)>, x: (Seq<char>, usize)) -> Seq<
    (Seq<char>, usize),
>
    decreases s.len(),
{
    if s.len() > 0 && tag_before(order, x, s.last()) {
        insert_tag(order, s.drop_last(), x).push(s.last())
    } else {
        s.push(x)
    }
}

/// Where `insert_tag` puts `x`.
pub open spec fn insertion_point(order: TagOrder, s: Seq<(Seq<char>, usize)>, x: (Seq<char>, usize)) -> int
    decreases s.len(),
{
    if s.len() > 0 && tag_before(order, x, s.last()) {
        insertion_point(order, s.drop_last(), x)
    } else {
        s.len() as int
    }
}

/// The stable sort of `s` in the given order: each entry is inserted in turn.
pub open spec fn sort_tags(order: TagOrder, s: Seq<(Seq<char>, usize)>) -> Seq<(Seq<char>, usize)>
    decreases s.len(),
{
    if s.len() == 0 {
        s
    } else {
        insert_tag(order, sort_tags(order, s.drop_last()), s.last())
    }
}

/// No entry comes strictly before an earlier one.
pub open spec fn tags_ordered(order: TagOrder, s: Seq<(Seq<char>, usize)>) -> bool {
    forall|i: int, j: int| 0 <= i < j < s.len() ==> !tag_before(order, #[trigger] s[j], #[trigger] s[i])
}

/// The entries tied with `y`.
pub open spec fn tied_with(order: TagOrder, y: (Seq<char>, usize)) -> spec_fn((Seq<char>, usize)) -> bool {
    |t: (Seq<char>, usize)| tag_tied(order, t, y)
}

pub(crate) proof fn lemma_text_before_asymmetric(a: Seq<char>, b: Seq<char>)
    ensures
        text_before(a, b) ==> !text_before(b, a),
    decreases a.len(),
{
    if a.len() > 0 && b.len() > 0 && a[0] == b[0] {
        lemma_text_before_asymmetric(a.drop_first(), b.drop_first());
    }
}

pub(crate) proof fn lemma_text_before_connected(a: Seq<char>, b: Seq<char>, c: Seq<char>)
    ensures
        text_before(a, c) ==> text_before(a, b) || text_before(b, c),
    decreases a.len(),
{
    if a.len() > 0 && b.len() > 0 && c.len() > 0 && a[0] == b[0] && b[0] == c[0] {
        lemma_text_before_connected(a.drop_first(), b.drop_first(), c.drop_first());
    }
}

proof fn lemma_tag_before_asymmetric(order: TagOrder, a: (Seq<char>, usize), b: (Seq<char>, usize))
    ensures
        tag_before(order, a, b) ==> !tag_before(order, b, a),
{
    lemma_text_before_asymmetric(a.0, b.0);
}

proof fn lemma_tag_before_connected(
    order: TagOrder,
    a: (Seq<char>, usize),
    b: (Seq<char>, usize),
    c: (Seq<char>, usize),
)
    ensures
        tag_before(order, a, c) ==> tag_before(order, a, b) || tag_before(order, b, c),
{
    lemma_text_before_connected(a.0, b.0, c.0);
    lemma_text_before_asymmetric(a.0, b.0);
    lemma_text_before_asymmetric(b.0, c.0);
    lemma_text_before_asymmetric(a.0, c.0);
}

/// `insert_tag` places `x` at its insertion point, after the entries it
/// does not come before and before the ones it does.
proof fn lemma_insert_tag_at(order: TagOrder, s: Seq<(Seq<char>, usize)>, x: (Seq<char>, usize))
    ensures
        0 <= insertion_point(order, s, x) <= s.len(),
        insert_tag(order, s, x) == s.insert(insertion_point(order, s, x), x),
        forall|k: int|
            insertion_point(order, s, x) <= k < s.len() ==> tag_before(order, x, #[trigger] s[k]),
        insertion_point(order, s, x) == 0 || !tag_before(
            order,
            x,
            s[insertion_point(order, s, x) - 1],
        ),
    decreases s.len(),
{
    if s.len() > 0 && tag_before(order, x, s.last()) {
        let t = s.drop_last();
        lemma_insert_tag_at(order, t, x);
        let p = insertion_point(order, t, x);
        assert(t.insert(p, x).push(s.last()) =~= s.insert(p, x));
        assert forall|k: int| p <= k < s.len() implies tag_before(order, x, #[trigger] s[k]) by {
            if k < t.len() {
                assert(s[k] == t[k]);
            }
        }
        if p > 0 {
            assert(s[p - 1] == t[p - 1]);
        }
    } else {
        assert(s.push(x) =~= s.insert(s.len() as int, x));
    }
}

/// A position after the entries `x` does not come before and before those it
/// does is the insertion point.
proof fn lemma_insertion_point_unique(
    order: TagOrder,
    s: Seq<(Seq<char>, usize)>,
    x: (Seq<char>, usize),
    j: int,
)
    requires
        0 <= j <= s.len(),
        forall|k: int| j <= k < s.len() ==> tag_before(order, x, #[trigger] s[k]),
        j == 0 || !tag_before(order, x, s[j - 1]),
    ensures
        insertion_point(order, s, x) == j,
    decreases s.len(),
{
    if s.len() > j {
        let t = s.drop_last();
        assert(tag_before(order, x, s[s.len() - 1]));
        assert forall|k: int| j <= k < t.len() implies tag_before(order, x, #[trigger] t[k]) by {
            assert(t[k] == s[k]);
        }
        if j > 0 {
            assert(t[j - 1] == s[j - 1]);
        }
        lemma_insertion_point_unique(order, t, x, j);
    }
}

proof fn lemma_insert_tag_ordered(order: TagOrder, s: Seq<(Seq<char>, usize)>, x: (Seq<char>, usize))
    requires
        tags_ordered(order, s),
    ensures
        tags_ordered(order, insert_tag(order, s, x)),
{
    lemma_insert_tag_at(order, s, x);
    let p = insertion_point(order, s, x);
    let r = s.insert(p, x);
    s.insert_ensures(p, x);
    assert forall|i: int, j: int| 0 <= i < j < r.len() implies !tag_before(
        order,
        #[trigger] r[j],
        #[trigger] r[i],
    ) by {
        if j < p {
            assert(r[i] == s[i] && r[j] == s[j]);
        } else if j == p {
            assert(r[i] == s[i]);
            assert(!tag_before(order, x, s[p - 1]));
            if i < p - 1 {
                assert(!tag_before(order, s[p - 1], s[i]));
            }
            lemma_tag_before_connected(order, x, s[p - 1], s[i]);
        } else if i == p {
            assert(r[j] == s[j - 1]);
            assert(tag_before(order, x, s[j - 1]));
            lemma_tag_before_asymmetric(order, x, s[j - 1]);
        } else if i < p {
            assert(r[i] == s[i] && r[j] == s[j - 1]);
        } else {
            assert(r[i] == s[i - 1] && r[j] == s[j - 1]);
        }
    }
}

/// Sorting leaves no entry strictly before an earlier one.
pub proof fn law_sort_tags_ordered(order: TagOrder, s: Seq<(Seq<char>, usize)>)
    ensures
        tags_ordered(order, sort_tags(order, s)),
    decreases s.len(),
{
    if s.len() > 0 {
        law_sort_tags_ordered(order, s.drop_last());
        lemma_insert_tag_ordered(order, sort_tags(order, s.drop_last()), s.last());
    }
}

/// Sorting keeps exactly the entries it was given, as many times each.
pub proof fn law_sort_tags_permutes(order: TagOrder, s: Seq<(Seq<char>, usize)>)
    ensures
        sort_tags(order, s).to_multiset() =~= s.to_multiset(),
    decreases s.len(),
{
    broadcast use vstd::seq_lib::group_to_multiset_ensures;

    if s.len() > 0 {
        let t = sort_tags(order, s.drop_last());
        law_sort_tags_permutes(order, s.drop_last());
        lemma_insert_tag_at(order, t, s.last());
        let p = insertion_point(order, t, s.last());
        vstd::seq_lib::lemma_multiset_commutative(t.take(p).push(s.last()), t.skip(p));
        vstd::seq_lib::lemma_multiset_commutative(t.take(p), t.skip(p));
        assert(t.take(p) + t.skip(p) =~= t);
        assert(t.insert(p, s.last()) =~= t.take(p).push(s.last()) + t.skip(p));
        assert(s.drop_last().push(s.last()) =~= s);
    }
}

/// Sorting is stable: the entries tied with any given one come out in the
/// order they went in.
pub proof fn law_sort_tags_stable(order: TagOrder, s: Seq<(Seq<char>, usize)>, y: (Seq<char>, usize))
    ensures
        sort_tags(order, s).filter(tied_with(order, y)) == s.filter(tied_with(order, y)),
    decreases s.len(),
{
    broadcast use Seq::lemma_filter_push;

    if s.len() > 0 {
        let f = tied_with(order, y);
        let x = s.last();
        let t = sort_tags(order, s.drop_last());
        law_sort_tags_stable(order, s.drop_last(), y);
        lemma_insert_tag_at(order, t, x);
        let p = insertion_point(order, t, x);
        let front = t.take(p);
        let back = t.skip(p);
        assert(t =~= front + back);
        assert(t.insert(p, x) =~= front.push(x) + back);
        Seq::filter_distributes_over_add(front.push(x), back, f);
        Seq::filter_distributes_over_add(front, back, f);
        if f(x) {
            assert(back.filter(f) =~= Seq::<(Seq<char>, usize)>::empty()) by {
                assert forall|k: int| 0 <= k < back.len() implies !f(#[trigger] back[k]) by {
                    assert(back[k] == t[p + k]);
                    assert(tag_before(order, x, t[p + k]));
                    lemma_tag_before_connected(order, x, y, back[k]);
                    lemma_tag_before_connected(order, back[k], x, y);
                    lemma_tag_before_connected(order, y, back[k], x);
                }
                if back.filter(f).len() > 0 {
                    back.lemma_filter_contains_rev(f, back.filter(f)[0]);
                    back.lemma_filter_pred(f, 0);
                }
            }
        }
        assert(s.drop_last().push(x) =~= s);
    }
}

/// Whether `a` comes strictly before `b` in the order of strings.
pub fn text_precedes(a: &str, b: &str) -> (r: bool)
    ensures
        r == text_before(a@, b@),
{
    let av = chars_of(a);
    let bv = chars_of(b);
    let mut i: usize = 0;
    assert(a@.skip(0) =~= a@ && b@.skip(0) =~= b@);
    while i < av.len() && i < bv.len() && av[i] == bv[i]
        invariant
            av@ == a@,
            bv@ == b@,
            i <= av@.len(),
            i <= bv@.len(),
            text_before(a@, b@) == text_before(a@.skip(i as int), b@.skip(i as int)),
        decreases av.len() - i,
    {
        assert(a@.skip(i as int).drop_first() =~= a@.skip(i + 1));
        assert(b@.skip(i as int).drop_first() =~= b@.skip(i + 1));
        i = i + 1;
    }
    if i == bv.len() {
        false
    } else if i == av.len() {
        true
    } else {
        assert(a@.skip(i as int)[0] == av@[i as int]);
        assert(b@.skip(i as int)[0] == bv@[i as int]);
        av[i] < bv[i]
    }
}

/// Whether entry `a` comes strictly before entry `b` in the given order.
pub fn tag_precedes(order: TagOrder, a: &(String, usize), b: &(String, usize)) -> (r: bool)
    ensures
        r == tag_before(order, tag_view(*a), tag_view(*b)),
{
    match order {
        TagOrder::ByUsage => a.1 > b.1,
        TagOrder::Alphabetical => text_precedes(a.0.as_str(), b.0.as_str()),
        TagOrder::ByUsageThenName => a.1 > b.1 || (a.1 == b.1 && text_precedes(
            a.0.as_str(),
            b.0.as_str(),
        )),
    }
}

/// The bulk tag command: which operation to run, which tags it concerns
/// and how the results are shown.
#[derive(Debug, Clone)]
pub struct BulkTagCommand {
    /// The database file, when not the default one.
    pub db_path: Option<String>,
    /// List all tags with usage statistics.
    pub list: bool,
    /// Rename a tag: the old name and the new one.
    pub rename: Option<Vec<String>>,
    /// Merge tags into the first one.
    pub merge: Option<Vec<String>>,
    /// Remove tags that no memory uses.
    pub cleanup_unused: bool,
    /// Normalize the formatting of tags.
    pub normalize: bool,
    /// Suggest similar tags for merging.
    pub find_similar: bool,
    /// Show analytics of tag usage.
    pub analytics: bool,
    /// Keep tags used at least this often.
    pub min_usage: Option<usize>,
    /// Keep tags used at most this often.
    pub max_usage: Option<usize>,
    /// Keep tags whose name contains this text, or matches it as a regular
    /// expression when `regex` is set.
    pub pattern: Option<String>,
    /// Read `pattern` as a regular expression.
    pub regex: bool,
    /// Show what would change without changing it.
    pub dry_run: bool,
    /// Skip the confirmation.
    pub yes: bool,
    /// Back the tags up first.
    pub backup: bool,
    /// Where the backup goes.
    pub backup_path: Option<String>,
    /// Report each step.
    pub verbose: bool,
    /// Report nothing but errors.
    pub quiet: bool,
    /// Order by usage, most used first.
    pub sort_by_usage: bool,
    /// Order by name.
    pub sort_alphabetically: bool,
    /// Keep only this many of the first entries.
    pub top: Option<usize>,
}

/// Why tags could not be listed.
#[derive(Debug, Clone, PartialEq, Eq)]
pub enum TagListError {
    /// The pattern is not a regular expression the regex crate compiles;
    /// the crate's message.
    InvalidPattern(String),
}

/// Whether a tag passes the usage bounds and the name pattern.
pub open spec fn tag_passes(o: BulkTagCommand, t: (Seq<char>, usize)) -> bool {
    &&& (o.min_usage matches Some(m) ==> t.1 >= m)
    &&& (o.max_usage matches Some(m) ==> t.1 <= m)
    &&& (o.pattern matches Some(p) ==> if o.regex {
        regex_finds(p@, t.0)
    } else {
        contains_text(t.0, p@)
    })
}

/// The tags of `s` that pass, in their order.
pub open spec fn tags_passing(o: BulkTagCommand, s: Seq<(Seq<char>, usize)>) -> Seq<
    (Seq<char>, usize),
> {
    s.filter(|t: (Seq<char>, usize)| tag_passes(o, t))
}

/// The first `top` entries of `s`, or all of them without a limit.
pub open spec fn first_tags(s: Seq<(Seq<char>, usize)>, top: Option<usize>) -> Seq<
    (Seq<char>, usize),
> {
    match top {
        Some(n) => if n < s.len() {
            s.take(n as int)
        } else {
            s
        },
        None => s,
    }
}

/// Whether one tag passes; `compiled` and `pattern_chars` are the pattern
/// prepared once for all tags.
fn passes(
    options: &BulkTagCommand,
    compiled: &Option<CompiledPattern>,
    pattern_chars: &Option<Vec<char>>,
    t: &(String, usize),
) -> (r: bool)
    requires
        options.pattern matches Some(p) ==> (options.regex ==> (compiled matches Some(c) && c@
            == p@)),
        options.pattern matches Some(p) ==> (pattern_chars matches Some(pc) && pc@ == p@),
    ensures
        r == tag_passes(*options, tag_view(*t)),
{
    if let Some(m) = options.min_usage {
        if t.1 < m {
            return false;
        }
    }
    if let Some(m) = options.max_usage {
        if t.1 > m {
            return false;
        }
    }
    if options.pattern.is_some() {
        if options.regex {
            match compiled {
                Some(c) => pattern_finds(c, t.0.as_str()),
                None => false,
            }
        } else {
            match pattern_chars {
                Some(pc) => {
                    let name = chars_of(t.0.as_str());
                    contains_chars(name.as_slice(), pc.as_slice())
                },
                None => false,
            }
        }
    } else {
        true
    }
}

/// Sorts tags stably in the given order.
pub fn sort_by_order(tags: Vec<(String, usize)>, order: TagOrder) -> (r: Vec<(String, usize)>)
    ensures
        tag_views(r@) == sort_tags(order, tag_views(tags@)),
{
    let ghost k = tag_views(tags@);
    let mut kept = tags;
    let m = kept.len();
    let mut out: Vec<(String, usize)> = Vec::new();
    let mut d: usize = 0;
    assert(k.take(0) =~= Seq::<(Seq<char>, usize)>::empty());
    assert(tag_views(out@) =~= Seq::<(Seq<char>, usize)>::empty());
    while d < m
        invariant
            m == k.len(),
            d <= m,
            kept@.len() == m - d,
            tag_views(kept@) == k.skip(d as int),
            tag_views(out@) == sort_tags(order, k.take(d as int)),
        decreases m - d,
    {
        let ghost before_kept = kept@;
        let x = kept.remove(0);
        let ghost xv = tag_view(x);
        assert(xv == k[d as int]) by {
            assert(tag_views(before_kept)[0] == tag_view(before_kept[0]));
        }
        proof {
            before_kept.remove_ensures(0);
        }
        assert(tag_views(kept@) =~= k.skip(d + 1)) by {
            assert forall|q: int| 0 <= q < kept@.len() implies #[trigger] tag_views(kept@)[q] == k.skip(
                d + 1,
            )[q] by {
                assert(kept@[q] == before_kept[q + 1]);
                assert(tag_views(before_kept)[q + 1] == k.skip(d as int)[q + 1]);
            }
        }
        let ghost s = tag_views(out@);
        let mut j: usize = out.len();
        loop
            invariant
                s == tag_views(out@),
                xv == tag_view(x),
                j <= out@.len(),
                forall|q: int| j <= q < s.len() ==> tag_before(order, xv, #[trigger] s[q]),
            ensures
                j <= out@.len(),
                forall|q: int| j <= q < s.len() ==> tag_before(order, xv, #[trigger] s[q]),
                j == 0 || !tag_before(order, xv, s[j - 1]),
            decreases j,
        {
            if j == 0 {
                break;
            }
            if !tag_precedes(order, &x, &out[j - 1]) {
                break;
            }
            assert(s[j - 1] == tag_view(out@[j - 1]));
            j = j - 1;
        }
        proof {
            lemma_insertion_point_unique(order, s, xv, j as int);
            lemma_insert_tag_at(order, s, xv);
            assert(k.take(d + 1).drop_last() =~= k.take(d as int));
        }
        let ghost before_out = out@;
        out.insert(j, x);
        assert(tag_views(out@) =~= s.insert(j as int, xv));
        d = d + 1;
    }
    assert(k.take(m as int) =~= k);
    out
}

impl BulkTagCommand {
    /// The operation asked for (see `select_tag_operation`).
    pub fn operation(&self) -> (r: Result<TagOperation, TagOperationError>)
        ensures
            r == select_operation(
                self.list,
                self.rename is Some,
                self.merge is Some,
                self.cleanup_unused,
                self.normalize,
                self.find_similar,
                self.analytics,
            ),
    {
        select_tag_operation(
            self.list,
            self.rename.is_some(),
            self.merge.is_some(),
            self.cleanup_unused,
            self.normalize,
            self.find_similar,
            self.analytics,
        )
    }

    /// The order the sort flags ask for.
    pub fn order(&self) -> (o: TagOrder)
        ensures
            o == order_for(self.sort_by_usage, self.sort_alphabetically),
    {
        tag_order(self.sort_by_usage, self.sort_alphabetically)
    }

    /// Lists tags: keeps those within the usage bounds whose name contains
    /// the pattern (or matches it as a regular expression), sorts them
    /// stably in the order the flags ask for and keeps the first `top`. An
    /// empty input gives an empty list; otherwise a regular expression that
    /// does not compile is an error.
    pub fn list_tags(&self, tags: Vec<(String, usize)>) -> (r: Result<
        Vec<(String, usize)>,
        TagListError,
    >)
        ensures
            r is Err <==> (self.pattern matches Some(p) && tags@.len() > 0 && self.regex
                && !regex_compiles(p@)),
            r matches Ok(v) ==> tag_views(v@) == first_tags(
                sort_tags(
                    order_for(self.sort_by_usage, self.sort_alphabetically),
                    tags_passing(*self, tag_views(tags@)),
                ),
                self.top,
            ),
    {
        list_tags(tags, self)
    }
}

/// Lists tags as `BulkTagCommand::list_tags` describes.
fn list_tags(tags: Vec<(String, usize)>, options: &BulkTagCommand) -> (r: Result<
    Vec<(String, usize)>,
    TagListError,
>)
    ensures
        r is Err <==> (options.pattern matches Some(p) && tags@.len() > 0 && options.regex
            && !regex_compiles(p@)),
        r matches Ok(v) ==> tag_views(v@) == first_tags(
            sort_tags(
                order_for(options.sort_by_usage, options.sort_alphabetically),
                tags_passing(*options, tag_views(tags@)),
            ),
            options.top,
        ),
{
    if tags.len() == 0 {
        assert(tag_views(tags@) =~= Seq::<(Seq<char>, usize)>::empty());
        proof {
            reveal(Seq::filter);
        }
        return Ok(tags);
    }
    let mut compiled: Option<CompiledPattern> = None;
    let mut pattern_chars: Option<Vec<char>> = None;
    if let Some(p) = &options.pattern {
        pattern_chars = Some(chars_of(p.as_str()));
        if options.regex {
            match CompiledPattern::new(p.as_str()) {
                Ok(c) => {
                    compiled = Some(c);
                },
                Err(m) => {
                    return Err(TagListError::InvalidPattern(m));
                },
            }
        }
    }
    let ghost v = tag_views(tags@);
    let ghost pass = |t: (Seq<char>, usize)| tag_passes(*options, t);
    let n = tags.len();
    let mut rest = tags;
    let mut kept: Vec<(String, usize)> = Vec::new();
    let mut c: usize = 0;
    while c < n
        invariant
            n == v.len(),
            c <= n,
            rest@.len() == n - c,
            tag_views(rest@) == v.skip(c as int),
            tag_views(kept@) == v.take(c as int).filter(pass),
            pass == (|t: (Seq<char>, usize)| tag_passes(*options, t)),
            options.pattern matches Some(p) ==> (options.regex ==> (compiled matches Some(cp)
                && cp@ == p@)),
            options.pattern matches Some(p) ==> (pattern_chars matches Some(pc) && pc@ == p@),
        decreases n - c,
    {
        let ghost before_rest = rest@;
        let t = rest.remove(0);
        assert(tag_view(t) == v[c as int]) by {
            assert(tag_views(before_rest)[0] == tag_view(before_rest[0]));
        }
        proof {
            before_rest.remove_ensures(0);
        }
        assert(tag_views(rest@) =~= v.skip(c + 1)) by {
            assert forall|q: int| 0 <= q < rest@.len() implies #[trigger] tag_views(rest@)[q] == v.skip(
                c + 1,
            )[q] by {
                assert(rest@[q] == before_rest[q + 1]);
                assert(tag_views(before_rest)[q + 1] == v.skip(c as int)[q + 1]);
            }
        }
        assert(v.take(c + 1) =~= v.take(c as int).push(v[c as int]));
        proof {
            v.take(c as int).lemma_filter_push(v[c as int], pass);
        }
        if passes(options, &compiled, &pattern_chars, &t) {
            let ghost before_kept = kept@;
            kept.push(t);
            assert(tag_views(kept@) =~= tag_views(before_kept).push(tag_view(t)));
        }
        c = c + 1;
    }
    assert(v.take(n as int) =~= v);
    let mut out = sort_by_order(kept, tag_order(options.sort_by_usage, options.sort_alphabetically));
    if let Some(top) = options.top {
        if top < out.len() {
            let ghost before_out = out@;
            out.truncate(top);
            assert(tag_views(out@) =~= tag_views(before_out).take(top as int));
        }
    }
    Ok(out)
}

/// The usages of all tags added up.
pub open spec fn usage_total(s: Seq<(Seq<char>, usize)>) -> nat
    decreases s.len(),
{
    if s.len() == 0 {
        0
    } else {
        usage_total(s.drop_last()) + s.last().1 as nat
    }
}

/// How many tags have a usage count that satisfies `p`.
pub open spec fn tags_used(s: Seq<(Seq<char>, usize)>, p: spec_fn(usize) -> bool) -> nat
    decreases s.len(),
{
    if s.len() == 0 {
        0
    } else {
        tags_used(s.drop_last(), p) + if p(s.last().1) {
            1nat
        } else {
            0nat
        }
    }
}

/// Usage statistics of the tags.
#[derive(Debug, Clone)]
pub struct TagAnalytics {
    /// How many tags there are.
    pub total_tags: usize,
    /// All their usages added up.
    pub total_usage: usize,
    /// The first of the two middle usage counts in the order by usage,
    /// most used first (the middle one when there is an odd number of
    /// tags); the median is the mean of the two middle counts.
    pub first_middle_usage: usize,
    /// The second of the two middle usage counts (again the middle one when
    /// there is an odd number of tags).
    pub second_middle_usage: usize,
    /// The highest usage count.
    pub max_usage: usize,
    /// The lowest usage count.
    pub min_usage: usize,
    /// Tags used once.
    pub single_use: usize,
    /// Tags used at most three times.
    pub low_use: usize,
    /// Tags used at least ten times.
    pub high_use: usize,
    /// The tags, most used first; tags used equally often keep their order.
    pub by_usage: Vec<(String, usize)>,
}

impl TagAnalytics {
    /// More than a quarter of the tags are used once, so they are worth
    /// reviewing for merging or removal.
    pub fn suggests_reviewing_single_use(&self) -> (r: bool)
        ensures
            r == (self.single_use > self.total_tags / 4),
    {
        self.single_use > self.total_tags / 4
    }

    /// Fewer than a tenth of the tags are used ten times or more, so more
    /// specific tags would organize better.
    pub fn suggests_more_specific_tags(&self) -> (r: bool)
        ensures
            r == (self.high_use < self.total_tags / 10),
    {
        self.high_use < self.total_tags / 10
    }
}

proof fn lemma_sorted_counts_bound(s: Seq<(Seq<char>, usize)>, t: Seq<(Seq<char>, usize)>)
    requires
        t.len() > 0,
        tags_ordered(TagOrder::ByUsage, t),
        t.to_multiset() =~= s.to_multiset(),
    ensures
        forall|i: int| 0 <= i < s.len() ==> t[t.len() - 1].1 <= #[trigger] s[i].1 <= t[0].1,
{
    broadcast use vstd::seq_lib::group_to_multiset_ensures;

    assert forall|i: int| 0 <= i < s.len() implies t[t.len() - 1].1 <= #[trigger] s[i].1 <= t[0].1 by {
        assert(s.to_multiset().count(s[i]) > 0);
        assert(t.to_multiset().count(s[i]) > 0);
        assert(t.contains(s[i]));
        let k = choose|k: int| 0 <= k < t.len() && t[k] == s[i];
        if k > 0 {
            assert(!tag_before(TagOrder::ByUsage, t[k], t[0]));
        }
        if k < t.len() - 1 {
            assert(!tag_before(TagOrder::ByUsage, t[t.len() - 1], t[k]));
        }
    }
}

/// The usage statistics of the tags, or `None` when there are none. The
/// usages must add up to a `usize`.
pub fn tag_analytics(tags: Vec<(String, usize)>) -> (r: Option<TagAnalytics>)
    requires
        usage_total(tag_views(tags@)) <= usize::MAX,
    ensures
        r is None <==> tags@.len() == 0,
        r matches Some(a) ==> {
            let v = tag_views(tags@);
            let sorted = sort_tags(TagOrder::ByUsage, v);
            &&& a.total_tags == v.len()
            &&& a.total_usage == usage_total(v)
            &&& a.single_use == tags_used(v, |c: usize| c == 1)
            &&& a.low_use == tags_used(v, |c: usize| c <= 3)
            &&& a.high_use == tags_used(v, |c: usize| c >= 10)
            &&& tag_views(a.by_usage@) == sorted
            &&& a.max_usage == sorted[0].1
            &&& a.min_usage == sorted[v.len() - 1].1
            &&& a.first_middle_usage == sorted[(v.len() - 1) / 2].1
            &&& a.second_middle_usage == sorted[(v.len() / 2) as int].1
            &&& forall|i: int| 0 <= i < v.len() ==> a.min_usage <= #[trigger] v[i].1 <= a.max_usage
        },
{
    let n = tags.len();
    if n == 0 {
        return None;
    }
    let ghost v = tag_views(tags@);
    let mut total: usize = 0;
    let mut single: usize = 0;
    let mut low: usize = 0;
    let mut high: usize = 0;
    let mut i: usize = 0;
    while i < n
        invariant
            n == v.len(),
            v == tag_views(tags@),
            i <= n,
            usage_total(v) <= usize::MAX,
            total == usage_total(v.take(i as int)),
            single == tags_used(v.take(i as int), |c: usize| c == 1),
            low == tags_used(v.take(i as int), |c: usize| c <= 3),
            high == tags_used(v.take(i as int), |c: usize| c >= 10),
            single <= i && low <= i && high <= i,
        decreases n - i,
    {
        let c = tags[i].1;
        assert(v.take(i + 1).drop_last() =~= v.take(i as int));
        assert(v[i as int].1 == c);
        proof {
            lemma_usage_total_prefix(v, i + 1);
        }
        total = total + c;
        if c == 1 {
            single = single + 1;
        }
        if c <= 3 {
            low = low + 1;
        }
        if c >= 10 {
            high = high + 1;
        }
        i = i + 1;
    }
    assert(v.take(n as int) =~= v);
    let by_usage = sort_by_order(tags, TagOrder::ByUsage);
    proof {
        law_sort_tags_ordered(TagOrder::ByUsage, v);
        law_sort_tags_permutes(TagOrder::ByUsage, v);
        lemma_sort_tags_len(TagOrder::ByUsage, v);
        lemma_sorted_counts_bound(v, tag_views(by_usage@));
    }
    let max_usage = by_usage[0].1;
    let min_usage = by_usage[n - 1].1;
    let first_middle_usage = by_usage[(n - 1) / 2].1;
    let second_middle_usage = by_usage[n / 2].1;
    Some(
        TagAnalytics {
            total_tags: n,
            total_usage: total,
            first_middle_usage,
            second_middle_usage,
            max_usage,
            min_usage,
            single_use: single,
            low_use: low,
            high_use: high,
            by_usage,
        },
    )
}

proof fn lemma_usage_total_prefix(v: Seq<(Seq<char>, usize)>, i: int)
    requires
        0 <= i <= v.len(),
    ensures
        usage_total(v.take(i)) <= usage_total(v),
    decreases v.len() - i,
{
    if i < v.len() {
        lemma_usage_total_prefix(v, i + 1);
        assert(v.take(i + 1).drop_last() =~= v.take(i));
    } else {
        assert(v.take(i) =~= v);
    }
}

proof fn lemma_sort_tags_len(order: TagOrder, s: Seq<(Seq<char>, usize)>)
    ensures
        sort_tags(order, s).len() == s.len(),
    decreases s.len(),
{
    if s.len() > 0 {
        lemma_sort_tags_len(order, s.drop_last());
        lemma_insert_tag_at(order, sort_tags(order, s.drop_last()), s.last());
    }
}

/// Names sorted in the order of strings (a stable sort).
pub open spec fn sort_texts(s: Seq<Seq<char>>) -> Seq<Seq<char>> {
    sort_tags(TagOrder::Alphabetical, s.map_values(|t: Seq<char>| (t, 0usize))).map_values(
        |p: (Seq<char>, usize)| p.0,
    )
}

/// Sorts names in the order of strings.
pub fn sort_names(names: Vec<String>) -> (r: Vec<String>)
    ensures
        texts(r@) == sort_texts(texts(names@)),
{
    let ghost n = texts(names@);
    let ghost pairs_view = n.map_values(|t: Seq<char>| (t, 0usize));
    let mut rest = names;
    let mut pairs: Vec<(String, usize)> = Vec::new();
    let len = rest.len();
    let mut i: usize = 0;
    while i < len
        invariant
            i <= len,
            len == n.len(),
            rest@.len() == len - i,
            texts(rest@) == n.skip(i as int),
            pairs_view == n.map_values(|t: Seq<char>| (t, 0usize)),
            tag_views(pairs@) == pairs_view.take(i as int),
        decreases len - i,
    {
        let ghost before_rest = rest@;
        let ghost before_pairs = pairs@;
        let name = rest.remove(0);
        proof {
            before_rest.remove_ensures(0);
            assert(name@ == texts(before_rest)[0]);
        }
        assert(texts(rest@) =~= n.skip(i + 1)) by {
            assert forall|q: int| 0 <= q < rest@.len() implies #[trigger] texts(rest@)[q] == n.skip(
                i + 1,
            )[q] by {
                assert(rest@[q] == before_rest[q + 1]);
                assert(texts(before_rest)[q + 1] == n.skip(i as int)[q + 1]);
            }
        }
        assert(name@ == n[i as int]) by {
            assert(texts(before_rest)[0] == n.skip(i as int)[0]);
        }
        pairs.push((name, 0));
        assert(tag_views(pairs@) =~= tag_views(before_pairs).push((n[i as int], 0usize)));
        assert(pairs_view.take(i + 1) =~= pairs_view.take(i as int).push(pairs_view[i as int]));
        i = i + 1;
    }
    assert(pairs_view.take(len as int) =~= pairs_view);
    let sorted = sort_by_order(pairs, TagOrder::Alphabetical);
    let ghost sv = tag_views(sorted@);
    let mut r: Vec<String> = Vec::new();
    let mut rest2 = sorted;
    let m = rest2.len();
    let mut j: usize = 0;
    while j < m
        invariant
            j <= m,
            m == sv.len(),
            rest2@.len() == m - j,
            tag_views(rest2@) == sv.skip(j as int),
            texts(r@) == sv.map_values(|p: (Seq<char>, usize)| p.0).take(j as int),
        decreases m - j,
    {
        let ghost before_rest = rest2@;
        let p = rest2.remove(0);
        proof {
            before_rest.remove_ensures(0);
            assert(tag_view(p) == tag_views(before_rest)[0]);
        }
        assert(tag_views(rest2@) =~= sv.skip(j + 1)) by {
            assert forall|q: int| 0 <= q < rest2@.len() implies #[trigger] tag_views(rest2@)[q] == sv.skip(
                j + 1,
            )[q] by {
                assert(rest2@[q] == before_rest[q + 1]);
                assert(tag_views(before_rest)[q + 1] == sv.skip(j as int)[q + 1]);
            }
        }
        assert(p.0@ == sv[j as int].0) by {
            assert(tag_views(before_rest)[0] == sv.skip(j as int)[0]);
        }
        let ghost before_r = r@;
        r.push(p.0);
        assert(texts(r@) =~= texts(before_r).push(sv[j as int].0));
        assert(sv.map_values(|p: (Seq<char>, usize)| p.0).take(j + 1) =~= sv.map_values(
            |p: (Seq<char>, usize)| p.0,
        ).take(j as int).push(sv[j as int].0));
        j = j + 1;
    }
    assert(sv.map_values(|p: (Seq<char>, usize)| p.0).take(m as int) =~= sv.map_values(
        |p: (Seq<char>, usize)| p.0,
    ));
    r
}

} // verus!
