//! How a memory's tags are stored in one database column: joined with
//! commas, and read back by splitting at the commas and trimming each piece.

use vstd::prelude::*;
use crate::config::texts;
use crate::text::{
    append_str, chars_of, first_occurrence, occurs_at, pieces, push_char, split_by, split_from,
    split_text, string_from_chars, trim, trimmed,
};

verus! {

/// The texts joined with `sep` between each two of them.
pub open spec fn join_texts(s: Seq<Seq<char>>, sep: char) -> Seq<char>
    decreases s.len(),
{
    if s.len() == 0 {
        Seq::empty()
    } else if s.len() == 1 {
        s[0]
    } else {
        s[0] + seq![sep] + join_texts(s.drop_first(), sep)
    }
}

/// The tags a stored column holds: none for an empty column, else the
/// trimmed pieces between the commas.
pub open spec fn tags_of_column(c: Seq<char>) -> Seq<Seq<char>> {
    if c.len() == 0 {
        Seq::empty()
    } else {
        split_text(c, seq![',']).map_values(|p: Seq<char>| trim(p))
    }
}

/// The column that stores the tags: the tags joined with commas.
pub fn join_tags(tags: &Vec<String>) -> (r: String)
    ensures
        r@ == join_texts(texts(tags@), ','),
{
    let ghost t = texts(tags@);
    let n = tags.len();
    if n == 0 {
        return String::new();
    }
    let mut r = String::new();
    let mut i: usize = n;
    // Built from the back: r holds the join of tags[i..].
    append_str(&mut r, tags[n - 1].as_str());
    i = n - 1;
    proof {
        assert(t.skip(n - 1) =~= seq![t[n - 1]]);
        assert(r@ == join_texts(t.skip(n - 1), ','));
    }
    while i > 0
        invariant
            n == t.len(),
            t == texts(tags@),
            0 <= i < n,
            r@ == join_texts(t.skip(i as int), ','),
        decreases i,
    {
        let mut front = String::new();
        append_str(&mut front, tags[i - 1].as_str());
        push_char(&mut front, ',');
        append_str(&mut front, r.as_str());
        proof {
            let u = t.skip(i - 1);
            assert(u.drop_first() =~= t.skip(i as int));
            assert(u[0] == t[i - 1]);
            assert(u.len() >= 2);
        }
        r = front;
        i = i - 1;
    }
    assert(t.skip(0) =~= t);
    r
}

/// The tags stored in a column.
pub fn parse_tags(column: &str) -> (r: Vec<String>)
    ensures
        texts(r@) == tags_of_column(column@),
{
    let chars = chars_of(column);
    let mut r: Vec<String> = Vec::new();
    if chars.len() == 0 {
        assert(texts(r@) =~= Seq::<Seq<char>>::empty());
        return r;
    }
    let mut comma: Vec<char> = Vec::new();
    comma.push(',');
    assert(comma@ =~= seq![',']);
    let parts = split_by(chars.as_slice(), comma.as_slice());
    let ghost ps = pieces(parts@);
    let mut i: usize = 0;
    while i < parts.len()
        invariant
            i <= parts@.len(),
            ps == pieces(parts@),
            ps == split_text(column@, seq![',']),
            texts(r@) == ps.take(i as int).map_values(|p: Seq<char>| trim(p)),
        decreases parts.len() - i,
    {
        let t = trimmed(parts[i].as_slice());
        let s = string_from_chars(t.as_slice());
        let ghost before = r@;
        r.push(s);
        assert(ps[i as int] == parts@[i as int]@);
        assert(texts(r@) =~= texts(before).push(trim(ps[i as int])));
        assert(ps.take(i + 1).map_values(|p: Seq<char>| trim(p)) =~= ps.take(i as int).map_values(
            |p: Seq<char>| trim(p),
        ).push(trim(ps[i as int])));
        i = i + 1;
    }
    assert(ps.take(parts@.len() as int) =~= ps);
    r
}

/// Searching for a comma in `a + seq![','] + b` from the start of `a`
/// finds the comma after `a` when `a` has none.
proof fn lemma_first_comma(a: Seq<char>, b: Seq<char>)
    requires
        !a.contains(','),
    ensures
        first_occurrence(a + seq![','] + b, seq![','], 0) == a.len(),
{
    let w = a + seq![','] + b;
    lemma_no_comma_before(w, a.len() as int, 0);
}

proof fn lemma_no_comma_before(w: Seq<char>, k: int, i: int)
    requires
        0 <= i <= k < w.len(),
        w[k] == ',',
        forall|j: int| 0 <= j < k ==> w[j] != ',',
    ensures
        first_occurrence(w, seq![','], i) == k,
    decreases k - i,
{
    if i == k {
        assert(w.subrange(k, k + 1) =~= seq![',']);
    } else {
        assert(w.subrange(i, i + 1) != seq![',']) by {
            assert(w.subrange(i, i + 1)[0] == w[i]);
        }
        lemma_no_comma_before(w, k, i + 1);
    }
}

/// Without commas, a text has no occurrence of one from any position.
proof fn lemma_no_comma(w: Seq<char>, i: int)
    requires
        0 <= i <= w.len(),
        !w.contains(','),
    ensures
        first_occurrence(w, seq![','], i) == -1,
    decreases w.len() - i,
{
    if i < w.len() {
        assert(w.subrange(i, i + 1) != seq![',']) by {
            assert(w.subrange(i, i + 1)[0] == w[i]);
        }
        lemma_no_comma(w, i + 1);
    }
}

/// Searching a text with a prefix from past the prefix is searching the
/// rest.
proof fn lemma_first_occurrence_shift(p: Seq<char>, w: Seq<char>, d: Seq<char>, i: int)
    requires
        0 <= i <= w.len(),
        d.len() > 0,
    ensures
        first_occurrence(p + w, d, p.len() + i) == if first_occurrence(w, d, i) < 0 {
            -1
        } else {
            p.len() + first_occurrence(w, d, i)
        },
    decreases w.len() - i,
{
    let pw = p + w;
    let j = p.len() + i;
    if i + d.len() > w.len() {
    } else {
        assert(pw.subrange(j, j + d.len()) =~= w.subrange(i, i + d.len()));
        if occurs_at(w, d, i) {
        } else if i >= w.len() {
        } else {
            lemma_first_occurrence_shift(p, w, d, i + 1);
        }
    }
}

/// Splitting a text with a prefix from past the prefix is splitting the rest.
proof fn lemma_split_from_shift(p: Seq<char>, w: Seq<char>, d: Seq<char>, i: int)
    requires
        0 <= i <= w.len(),
        d.len() > 0,
    ensures
        split_from(p + w, d, p.len() + i) == split_from(w, d, i),
    decreases w.len() - i,
{
    let pw = p + w;
    let j = p.len() + i;
    lemma_first_occurrence_shift(p, w, d, i);
    let f = first_occurrence(w, d, i);
    crate::text::lemma_first_occurrence(w, d, i);
    if f < 0 {
        assert(pw.subrange(j, pw.len() as int) =~= w.subrange(i, w.len() as int));
    } else {
        assert(pw.subrange(j, p.len() + f) =~= w.subrange(i, f));
        lemma_split_from_shift(p, w, d, f + d.len());
    }
}

/// Splitting the join of texts without commas at the commas gives the
/// texts back.
proof fn lemma_split_join(s: Seq<Seq<char>>)
    requires
        s.len() > 0,
        forall|k: int| 0 <= k < s.len() ==> !(#[trigger] s[k]).contains(','),
    ensures
        split_from(join_texts(s, ','), seq![','], 0) == s,
    decreases s.len(),
{
    let d = seq![','];
    if s.len() == 1 {
        lemma_no_comma(s[0], 0);
        assert(s[0].subrange(0, s[0].len() as int) =~= s[0]);
        assert(seq![s[0]] =~= s);
    } else {
        let rest = s.drop_first();
        assert forall|k: int| 0 <= k < rest.len() implies !(#[trigger] rest[k]).contains(',') by {
            assert(rest[k] == s[k + 1]);
        }
        lemma_split_join(rest);
        let jr = join_texts(rest, ',');
        let w = s[0] + seq![','] + jr;
        assert(w == join_texts(s, ','));
        lemma_first_comma(s[0], jr);
        assert(w.subrange(0, s[0].len() as int) =~= s[0]);
        let p = s[0] + seq![','];
        assert(w =~= p + jr);
        lemma_split_from_shift(p, jr, d, 0);
        assert(split_from(w, d, 0) == seq![s[0]] + split_from(w, d, (s[0].len() + 1) as int));
        assert(seq![s[0]] + rest =~= s);
    }
}

/// Storing tags and reading them back gives the same tags, as long as no
/// tag holds a comma or has whitespace at either end, and the tags are not
/// a single empty tag (which is stored as an empty column, read as no tags).
pub proof fn law_tags_round_trip(tags: Seq<Seq<char>>)
    requires
        forall|k: int| 0 <= k < tags.len() ==> !(#[trigger] tags[k]).contains(','),
        forall|k: int| 0 <= k < tags.len() ==> trim(#[trigger] tags[k]) == tags[k],
        !(tags.len() == 1 && tags[0].len() == 0),
    ensures
        tags_of_column(join_texts(tags, ',')) == tags,
{
    if tags.len() == 0 {
    } else {
        let c = join_texts(tags, ',');
        if tags.len() >= 2 {
            assert(c.len() >= 1) by {
                assert(c == tags[0] + seq![','] + join_texts(tags.drop_first(), ','));
            }
        }
        assert(c.len() > 0);
        lemma_split_join(tags);
        assert(tags.map_values(|p: Seq<char>| trim(p)) =~= tags);
    }
}

} // verus!
