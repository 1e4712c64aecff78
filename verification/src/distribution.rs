//! How often each text occurs in a list: the distributions of types and
//! tags in the statistics of a filtered set of memories.

use vstd::prelude::*;
use crate::config::texts;
use crate::tag_list::{first_tags, sort_by_order, sort_tags, tag_view, tag_views, usage_total, TagOrder};
use crate::text::str_eq;

verus! {

/// How many times `x` occurs in `s`.
pub open spec fn occurrences(s: Seq<Seq<char>>, x: Seq<char>) -> nat
    decreases s.len(),
{
    if s.len() == 0 {
        0
    } else {
        occurrences(s.drop_last(), x) + if s.last() == x {
            1nat
        } else {
            0nat
        }
    }
}

/// Some entry of `d` is for `x`.
pub open spec fn has_entry(d: Seq<(Seq<char>, usize)>, x: Seq<char>) -> bool {
    exists|a: int| 0 <= a < d.len() && #[trigger] d[a].0 == x
}

/// `d` gives each text of `s` once, with the number of times it occurs,
/// and nothing else.
pub open spec fn is_distribution(d: Seq<(Seq<char>, usize)>, s: Seq<Seq<char>>) -> bool {
    &&& forall|a: int, b: int| 0 <= a < b < d.len() ==> d[a].0 != d[b].0
    &&& forall|a: int| 0 <= a < d.len() ==> #[trigger] d[a].1 == occurrences(s, d[a].0)
    &&& forall|a: int| 0 <= a < d.len() ==> s.contains(#[trigger] d[a].0)
    &&& forall|j: int| 0 <= j < s.len() ==> #[trigger] has_entry(d, s[j])
}

proof fn lemma_occurrences_bounded(s: Seq<Seq<char>>, x: Seq<char>)
    ensures
        occurrences(s, x) <= s.len(),
    decreases s.len(),
{
    if s.len() > 0 {
        lemma_occurrences_bounded(s.drop_last(), x);
    }
}

proof fn lemma_occurrences_absent(s: Seq<Seq<char>>, x: Seq<char>)
    requires
        !s.contains(x),
    ensures
        occurrences(s, x) == 0,
    decreases s.len(),
{
    if s.len() > 0 {
        assert(s.last() == s[s.len() - 1]);
        assert forall|j: int| 0 <= j < s.drop_last().len() implies s.drop_last()[j] != x by {
            assert(s.drop_last()[j] == s[j]);
        }
        lemma_occurrences_absent(s.drop_last(), x);
    }
}

proof fn lemma_usage_total_bump(s: Seq<(Seq<char>, usize)>, k: int, x: (Seq<char>, usize))
    requires
        0 <= k < s.len(),
        x.1 == s[k].1 + 1,
    ensures
        usage_total(s.update(k, x)) == usage_total(s) + 1,
    decreases s.len(),
{
    if k == s.len() - 1 {
        assert(s.update(k, x).drop_last() =~= s.drop_last());
    } else {
        assert(s.update(k, x).drop_last() =~= s.drop_last().update(k, x));
        lemma_usage_total_bump(s.drop_last(), k, x);
    }
}

/// Counts how many times each text occurs, in the order of first
/// occurrence; the counts add up to the number of texts.
pub fn count_texts(items: &Vec<String>) -> (r: Vec<(String, usize)>)
    ensures
        is_distribution(tag_views(r@), texts(items@)),
        usage_total(tag_views(r@)) == items@.len(),
{
    let ghost s = texts(items@);
    let mut d: Vec<(String, usize)> = Vec::new();
    let mut i: usize = 0;
    while i < items.len()
        invariant
            i <= items@.len(),
            s == texts(items@),
            is_distribution(tag_views(d@), s.take(i as int)),
            usage_total(tag_views(d@)) == i,
            d@.len() <= i,
        decreases items.len() - i,
    {
        let ghost before = s.take(i as int);
        let ghost after = s.take(i + 1);
        let ghost x = items@[i as int]@;
        proof {
            assert(after.drop_last() =~= before);
            assert(after.last() == x);
            lemma_occurrences_bounded(before, x);
        }
        let mut k: usize = 0;
        let mut found = false;
        while !found && k < d.len()
            invariant
                k <= d@.len(),
                x == items@[i as int]@,
                i < items@.len(),
                found ==> k < d@.len() && d@[k as int].0@ == x,
                forall|a: int| 0 <= a < k ==> #[trigger] d@[a].0@ != x,
            decreases d.len() - k, if found { 0int } else { 1int },
        {
            if str_eq(d[k].0.as_str(), items[i].as_str()) {
                found = true;
            } else {
                k = k + 1;
            }
        }
        let ghost old_view = tag_views(d@);
        if found {
            assert(k < d@.len() && d@[k as int].0@ == x);
            assert(old_view[k as int].0 == x);
            let n = d[k].1;
            assert(old_view[k as int].1 == n);
            assert(old_view[k as int].1 == occurrences(before, old_view[k as int].0));
            let name = d[k].0.clone();
            d.set(k, (name, n + 1));
            proof {
                let nv = tag_views(d@);
                assert(nv =~= old_view.update(k as int, (x, (n + 1) as usize)));
                lemma_usage_total_bump(old_view, k as int, (x, (n + 1) as usize));
                assert forall|a: int| 0 <= a < nv.len() implies #[trigger] nv[a].1 == occurrences(
                    after,
                    nv[a].0,
                ) by {
                    if a != k {
                        assert(nv[a] == old_view[a]);
                        assert(old_view[a].0 != x);
                    }
                }
                assert forall|a: int| 0 <= a < nv.len() implies after.contains(#[trigger] nv[a].0) by {
                    assert(before.contains(old_view[a].0));
                    let w = choose|j: int| 0 <= j < before.len() && before[j] == old_view[a].0;
                    assert(after[w] == before[w]);
                }
                assert forall|j: int| 0 <= j < after.len() implies #[trigger] has_entry(nv, after[j]) by {
                    if j < before.len() {
                        assert(after[j] == before[j]);
                        assert(has_entry(old_view, before[j]));
                        let a = choose|a: int| 0 <= a < old_view.len() && #[trigger] old_view[a].0 == before[j];
                        assert(nv[a].0 == old_view[a].0);
                    } else {
                        assert(nv[k as int].0 == after[j]);
                    }
                }
            }
        } else {
            proof {
                assert forall|a: int| 0 <= a < old_view.len() implies old_view[a].0 != x by {
                    assert(old_view[a].0 == d@[a].0@);
                }
                if before.contains(x) {
                    let j = choose|j: int| 0 <= j < before.len() && before[j] == x;
                    assert(has_entry(old_view, before[j]));
                    let a = choose|a: int| 0 <= a < old_view.len() && #[trigger] old_view[a].0 == before[j];
                    assert(false);
                }
                lemma_occurrences_absent(before, x);
            }
            let name = items[i].clone();
            d.push((name, 1));
            proof {
                let nv = tag_views(d@);
                assert(nv =~= old_view.push((x, 1usize)));
                assert(nv.drop_last() =~= old_view);
                assert forall|a: int| 0 <= a < nv.len() implies #[trigger] nv[a].1 == occurrences(
                    after,
                    nv[a].0,
                ) by {
                    if a < old_view.len() {
                        assert(nv[a] == old_view[a]);
                    }
                }
                assert forall|a: int| 0 <= a < nv.len() implies after.contains(#[trigger] nv[a].0) by {
                    if a < old_view.len() {
                        assert(before.contains(old_view[a].0));
                        let w = choose|j: int| 0 <= j < before.len() && before[j] == old_view[a].0;
                        assert(after[w] == before[w]);
                    } else {
                        assert(after[i as int] == x);
                    }
                }
                assert forall|j: int| 0 <= j < after.len() implies #[trigger] has_entry(nv, after[j]) by {
                    if j < before.len() {
                        assert(after[j] == before[j]);
                        assert(has_entry(old_view, before[j]));
                        let a = choose|a: int| 0 <= a < old_view.len() && #[trigger] old_view[a].0 == before[j];
                        assert(nv[a].0 == old_view[a].0);
                    } else {
                        assert(nv[old_view.len() as int].0 == after[j]);
                    }
                }
            }
        }
        i = i + 1;
    }
    assert(s.take(items@.len() as int) =~= s);
    d
}

/// Counted at least `min_count` times.
pub open spec fn counted_at_least(min_count: usize) -> spec_fn((Seq<char>, usize)) -> bool {
    |t: (Seq<char>, usize)| t.1 >= min_count
}

/// The entries counted at least `min_count` times, most counted first
/// (entries counted equally often keep their order), at most `n` of them.
pub open spec fn ranked(d: Seq<(Seq<char>, usize)>, min_count: usize, n: usize) -> Seq<
    (Seq<char>, usize),
> {
    first_tags(sort_tags(TagOrder::ByUsage, d.filter(counted_at_least(min_count))), Some(n))
}

/// Ranks counted texts (see `ranked`).
pub fn ranked_counts(d: Vec<(String, usize)>, min_count: usize, n: usize) -> (r: Vec<
    (String, usize),
>)
    ensures
        tag_views(r@) == ranked(tag_views(d@), min_count, n),
{
    let ghost v = tag_views(d@);
    let ghost pass = counted_at_least(min_count);
    let m = d.len();
    let mut rest = d;
    let mut kept: Vec<(String, usize)> = Vec::new();
    let mut c: usize = 0;
    assert(v.take(0) =~= Seq::<(Seq<char>, usize)>::empty());
    proof {
        reveal(Seq::filter);
    }
    assert(tag_views(kept@) =~= v.take(0).filter(pass));
    assert(tag_views(rest@) =~= v.skip(0));
    while c < m
        invariant
            m == v.len(),
            c <= m,
            rest@.len() == m - c,
            tag_views(rest@) == v.skip(c as int),
            tag_views(kept@) == v.take(c as int).filter(pass),
            pass == counted_at_least(min_count),
        decreases m - c,
    {
        let ghost before_rest = rest@;
        let t = rest.remove(0);
        assert(tag_view(t) == v[c as int]) by {
            assert(tag_views(before_rest)[0] == tag_view(before_rest[0]));
        }
        proof {
            before_rest.remove_ensures(0);
        }
        assert(tag_views(rest@) =~= v.skip(c + 1)) by {
            assert forall|q: int| 0 <= q < rest@.len() implies #[trigger] tag_views(rest@)[q]
                == v.skip(c + 1)[q] by {
                assert(rest@[q] == before_rest[q + 1]);
                assert(tag_views(before_rest)[q + 1] == v.skip(c as int)[q + 1]);
            }
        }
        assert(v.take(c + 1) =~= v.take(c as int).push(v[c as int]));
        proof {
            v.take(c as int).lemma_filter_push(v[c as int], pass);
        }
        if t.1 >= min_count {
            let ghost before_kept = kept@;
            kept.push(t);
            assert(tag_views(kept@) =~= tag_views(before_kept).push(tag_view(t)));
        }
        c = c + 1;
    }
    assert(v.take(m as int) =~= v);
    let mut out = sort_by_order(kept, TagOrder::ByUsage);
    if n < out.len() {
        let ghost before_out = out@;
        out.truncate(n);
        assert(tag_views(out@) =~= tag_views(before_out).take(n as int));
    }
    out
}

} // verus!
