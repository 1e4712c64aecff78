//! Tags: their usage information, the edit distance that finds similar ones,
//! and the grouping of similar tags.

use vstd::prelude::*;
use crate::config::texts;
use crate::text::{chars_of, str_eq};
use crate::vocabulary::{all_words, append_copies, contains_text_item};

verus! {

/// A tag with how often it is used and the tags found similar to it.
#[derive(Debug, Clone)]
pub struct TagInfo {
    pub name: String,
    pub usage_count: usize,
    pub similar_tags: Vec<String>,
}

impl TagInfo {
    /// A tag used `usage_count` times, with no similar tags yet.
    pub fn new(name: String, usage_count: usize) -> (t: Self)
        ensures
            t.name == name,
            t.usage_count == usage_count,
            t.similar_tags@.len() == 0,
    {
        TagInfo { name, usage_count, similar_tags: Vec::new() }
    }

    /// The same tag with `similar` as its similar tags.
    pub fn with_similar(self, similar: Vec<String>) -> (t: Self)
        ensures
            t.name == self.name,
            t.usage_count == self.usage_count,
            t.similar_tags == similar,
    {
        let mut t = self;
        t.similar_tags = similar;
        t
    }
}

/// The smallest of three numbers.
pub open spec fn min3(x: nat, y: nat, z: nat) -> nat {
    if x <= y && x <= z {
        x
    } else if y <= z {
        y
    } else {
        z
    }
}

/// The Levenshtein distance: the fewest single-character insertions,
/// deletions and substitutions that turn `a` into `b`.
pub open spec fn levenshtein(a: Seq<char>, b: Seq<char>) -> nat
    decreases a.len() + b.len(),
{
    if a.len() == 0 {
        b.len()
    } else if b.len() == 0 {
        a.len()
    } else {
        min3(
            levenshtein(a.drop_last(), b) + 1,
            levenshtein(a, b.drop_last()) + 1,
            levenshtein(a.drop_last(), b.drop_last()) + (if a.last() == b.last() {
                0nat
            } else {
                1nat
            }),
        )
    }
}

/// The distance is at most the length of the longer text.
pub proof fn lemma_levenshtein_upper_bound(a: Seq<char>, b: Seq<char>)
    ensures
        levenshtein(a, b) <= if a.len() >= b.len() {
            a.len()
        } else {
            b.len()
        },
    decreases a.len() + b.len(),
{
    if a.len() > 0 && b.len() > 0 {
        lemma_levenshtein_upper_bound(a.drop_last(), b.drop_last());
    }
}

/// Computes the Levenshtein distance between the character sequences of
/// `s1` and `s2`, row by row.
pub fn levenshtein_distance(s1: &str, s2: &str) -> (d: usize)
    requires
        s1@.len() < usize::MAX,
        s2@.len() < usize::MAX,
    ensures
        d == levenshtein(s1@, s2@),
{
    let a = chars_of(s1);
    let b = chars_of(s2);
    let n = a.len();
    let m = b.len();
    // prev[j] is the distance between the first i characters of a and the first j of b.
    let mut prev: Vec<usize> = Vec::new();
    let mut j: usize = 0;
    while j <= m
        invariant
            m == b@.len(),
            m < usize::MAX,
            j <= m + 1,
            prev@.len() == j,
            forall|k: int| 0 <= k < j ==> prev@[k] == levenshtein(a@.take(0), b@.take(k)),
        decreases m + 1 - j,
    {
        prev.push(j);
        j = j + 1;
    }
    let mut i: usize = 0;
    while i < n
        invariant
            n == a@.len(),
            m == b@.len(),
            n < usize::MAX,
            m < usize::MAX,
            i <= n,
            prev@.len() == m + 1,
            forall|k: int| 0 <= k <= m ==> prev@[k] == levenshtein(a@.take(i as int), b@.take(k)),
        decreases n - i,
    {
        let ghost ai = a@.take(i as int);
        let ghost ai1 = a@.take(i + 1);
        assert(ai1.drop_last() =~= ai);
        assert(ai1.last() == a@[i as int]);
        let mut cur: Vec<usize> = Vec::new();
        cur.push(i + 1);
        assert(levenshtein(ai1, b@.take(0)) == i + 1);
        let mut k: usize = 0;
        while k < m
            invariant
                n == a@.len(),
                m == b@.len(),
                n < usize::MAX,
                m < usize::MAX,
                i < n,
                k <= m,
                ai == a@.take(i as int),
                ai1 == a@.take(i + 1),
                ai1.drop_last() == ai,
                ai1.last() == a@[i as int],
                prev@.len() == m + 1,
                forall|q: int| 0 <= q <= m ==> prev@[q] == levenshtein(ai, b@.take(q)),
                cur@.len() == k + 1,
                forall|q: int| 0 <= q <= k ==> cur@[q] == levenshtein(ai1, b@.take(q)),
            decreases m - k,
        {
            let ghost bk1 = b@.take(k + 1);
            assert(bk1.drop_last() =~= b@.take(k as int));
            assert(bk1.last() == b@[k as int]);
            proof {
                lemma_levenshtein_upper_bound(ai, bk1);
                lemma_levenshtein_upper_bound(ai1, b@.take(k as int));
                lemma_levenshtein_upper_bound(ai, b@.take(k as int));
            }
            let cost: usize = if a[i] == b[k] {
                0
            } else {
                1
            };
            let deletion = prev[k + 1] + 1;
            let insertion = cur[k] + 1;
            let substitution = prev[k] + cost;
            let best = if deletion <= insertion && deletion <= substitution {
                deletion
            } else if insertion <= substitution {
                insertion
            } else {
                substitution
            };
            cur.push(best);
            k = k + 1;
        }
        prev = cur;
        i = i + 1;
    }
    assert(a@.take(n as int) =~= a@);
    assert(b@.take(m as int) =~= b@);
    prev[m]
}

/// Law: the distance is symmetric.
pub proof fn law_levenshtein_symmetric(a: Seq<char>, b: Seq<char>)
    ensures
        levenshtein(a, b) == levenshtein(b, a),
    decreases a.len() + b.len(),
{
    if a.len() > 0 && b.len() > 0 {
        law_levenshtein_symmetric(a.drop_last(), b);
        law_levenshtein_symmetric(a, b.drop_last());
        law_levenshtein_symmetric(a.drop_last(), b.drop_last());
    }
}

/// Law: the distance is zero exactly between equal texts.
pub proof fn law_levenshtein_zero_iff_equal(a: Seq<char>, b: Seq<char>)
    ensures
        (levenshtein(a, b) == 0) <==> (a == b),
    decreases a.len() + b.len(),
{
    if a.len() > 0 && b.len() > 0 {
        law_levenshtein_zero_iff_equal(a.drop_last(), b.drop_last());
        if a == b {
            assert(a.drop_last() == b.drop_last());
        }
        if levenshtein(a, b) == 0 {
            assert(a.last() == b.last());
            assert(a.drop_last() == b.drop_last());
            assert(a =~= a.drop_last().push(a.last()));
            assert(b =~= b.drop_last().push(b.last()));
        }
    } else if a.len() == 0 && b.len() == 0 {
        assert(a =~= b);
    }
}

/// Law: the distance is at least the difference of the lengths and at most
/// the longer length.
pub proof fn law_levenshtein_bounds(a: Seq<char>, b: Seq<char>)
    ensures
        levenshtein(a, b) <= if a.len() >= b.len() {
            a.len()
        } else {
            b.len()
        },
        levenshtein(a, b) >= if a.len() >= b.len() {
            a.len() - b.len()
        } else {
            b.len() - a.len()
        },
    decreases a.len() + b.len(),
{
    lemma_levenshtein_upper_bound(a, b);
    if a.len() > 0 && b.len() > 0 {
        law_levenshtein_bounds(a.drop_last(), b);
        law_levenshtein_bounds(a, b.drop_last());
        law_levenshtein_bounds(a.drop_last(), b.drop_last());
    }
}

/// The tags among the first `m` that are similar to tag `i` and differ from
/// it, in order; `similar[i][j]` says whether tag `j` is similar to tag `i`.
pub open spec fn similar_upto(t: Seq<Seq<char>>, similar: Seq<Seq<bool>>, i: int, m: int) -> Seq<
    Seq<char>,
>
    decreases m,
{
    if m <= 0 {
        Seq::empty()
    } else if t[m - 1] != t[i] && similar[i][m - 1] {
        similar_upto(t, similar, i, m - 1).push(t[m - 1])
    } else {
        similar_upto(t, similar, i, m - 1)
    }
}

/// The groups of similar tags formed from the first `k` tags: each tag not
/// yet in a group, that has similar tags, starts a group of itself and the
/// tags similar to it.
pub open spec fn grouping(t: Seq<Seq<char>>, similar: Seq<Seq<bool>>, k: int) -> Seq<Seq<Seq<char>>>
    decreases k,
{
    if k <= 0 {
        Seq::empty()
    } else {
        let gs = grouping(t, similar, k - 1);
        let x = t[k - 1];
        let s = similar_upto(t, similar, k - 1, t.len() as int);
        if all_words(gs).contains(x) || s.len() == 0 {
            gs
        } else {
            gs.push(seq![x] + s)
        }
    }
}

/// The texts of each group.
pub open spec fn group_texts(gs: Seq<Vec<String>>) -> Seq<Seq<Seq<char>>> {
    gs.map_values(|g: Vec<String>| texts(g@))
}

/// The tags similar to tag `i` (see `similar_upto`).
fn similar_tags(tags: &Vec<String>, similar: &Vec<Vec<bool>>, i: usize) -> (r: Vec<String>)
    requires
        i < tags@.len(),
        similar@.len() == tags@.len(),
        forall|q: int| 0 <= q < similar@.len() ==> (#[trigger] similar@[q])@.len() == tags@.len(),
    ensures
        texts(r@) == similar_upto(
            texts(tags@),
            similar@.map_values(|row: Vec<bool>| row@),
            i as int,
            tags@.len() as int,
        ),
{
    let ghost t = texts(tags@);
    let ghost sim = similar@.map_values(|row: Vec<bool>| row@);
    let mut r: Vec<String> = Vec::new();
    let mut j: usize = 0;
    assert(texts(r@) =~= Seq::<Seq<char>>::empty());
    while j < tags.len()
        invariant
            j <= tags@.len(),
            i < tags@.len(),
            similar@.len() == tags@.len(),
            forall|q: int| 0 <= q < similar@.len() ==> (#[trigger] similar@[q])@.len() == tags@.len(),
            t == texts(tags@),
            sim == similar@.map_values(|row: Vec<bool>| row@),
            texts(r@) == similar_upto(t, sim, i as int, j as int),
        decreases tags.len() - j,
    {
        assert(t[j as int] == tags@[j as int]@);
        assert(t[i as int] == tags@[i as int]@);
        assert(sim[i as int] == similar@[i as int]@);
        let same = str_eq(tags[j].as_str(), tags[i].as_str());
        if !same && similar[i][j] {
            let ghost before = r@;
            r.push(tags[j].clone());
            assert(texts(r@) =~= texts(before).push(t[j as int]));
        }
        j = j + 1;
    }
    r
}

/// Groups similar tags (see `grouping`): `similar[i][j]` says whether tag
/// `j` is similar enough to tag `i`, as the caller's similarity measure
/// decides.
pub fn group_similar_tags(tags: &Vec<String>, similar: &Vec<Vec<bool>>) -> (r: Vec<Vec<String>>)
    requires
        similar@.len() == tags@.len(),
        forall|q: int| 0 <= q < similar@.len() ==> (#[trigger] similar@[q])@.len() == tags@.len(),
    ensures
        group_texts(r@) == grouping(
            texts(tags@),
            similar@.map_values(|row: Vec<bool>| row@),
            tags@.len() as int,
        ),
{
    let ghost t = texts(tags@);
    let ghost sim = similar@.map_values(|row: Vec<bool>| row@);
    let mut groups: Vec<Vec<String>> = Vec::new();
    let mut processed: Vec<String> = Vec::new();
    let mut i: usize = 0;
    assert(group_texts(groups@) =~= Seq::<Seq<Seq<char>>>::empty());
    assert(texts(processed@) =~= Seq::<Seq<char>>::empty());
    while i < tags.len()
        invariant
            i <= tags@.len(),
            similar@.len() == tags@.len(),
            forall|q: int| 0 <= q < similar@.len() ==> (#[trigger] similar@[q])@.len() == tags@.len(),
            t == texts(tags@),
            sim == similar@.map_values(|row: Vec<bool>| row@),
            group_texts(groups@) == grouping(t, sim, i as int),
            texts(processed@) == all_words(grouping(t, sim, i as int)),
        decreases tags.len() - i,
    {
        let ghost gs = grouping(t, sim, i as int);
        assert(t[i as int] == tags@[i as int]@);
        let done = contains_text_item(&processed, tags[i].as_str());
        if !done {
            let s = similar_tags(tags, similar, i);
            if s.len() > 0 {
                let mut group: Vec<String> = Vec::new();
                group.push(tags[i].clone());
                append_copies(&mut group, &s);
                assert(texts(group@) =~= seq![t[i as int]] + texts(s@));
                append_copies(&mut processed, &group);
                let ghost before = groups@;
                groups.push(group);
                assert(group_texts(groups@) =~= group_texts(before).push(texts(group@)));
                assert(gs.push(texts(group@)).drop_last() =~= gs);
            }
        }
        i = i + 1;
    }
    groups
}

} // verus!
