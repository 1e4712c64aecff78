//! The vocabulary of the memories: the words of their titles and contents,
//! lowercased and stripped of punctuation at both ends, with how often each
//! occurs and in how many memories.

use vstd::prelude::*;
use vstd::string::StringExecFns;
use crate::analytics::byte_len;
use crate::cluster::{lowercase, split_words, to_lowercase, words};
use crate::config::texts;
use crate::distribution::{count_texts, is_distribution, ranked, ranked_counts};
use crate::tag_list::tag_views;
use crate::text::{append_str, char_is_alphanumeric, chars_of, is_alphanumeric, str_eq, string_from_range};

verus! {

/// `s` without the characters before its first alphanumeric one.
pub open spec fn trim_front(s: Seq<char>) -> Seq<char>
    decreases s.len(),
{
    if s.len() > 0 && !char_is_alphanumeric(s[0]) {
        trim_front(s.drop_first())
    } else {
        s
    }
}

/// `s` without the characters after its last alphanumeric one.
pub open spec fn trim_back(s: Seq<char>) -> Seq<char>
    decreases s.len(),
{
    if s.len() > 0 && !char_is_alphanumeric(s.last()) {
        trim_back(s.drop_last())
    } else {
        s
    }
}

/// The form a word takes in the vocabulary: lowercased, then without the
/// characters that are not alphanumeric at either end.
pub open spec fn vocabulary_form(w: Seq<char>) -> Seq<char> {
    trim_back(trim_front(lowercase(w)))
}

/// The vocabulary forms of the words that are longer than two bytes, in
/// their order.
pub open spec fn vocabulary_of(ws: Seq<Seq<char>>) -> Seq<Seq<char>>
    decreases ws.len(),
{
    if ws.len() == 0 {
        Seq::empty()
    } else {
        let rest = vocabulary_of(ws.drop_last());
        let v = vocabulary_form(ws.last());
        if byte_len(v) > 2 {
            rest.push(v)
        } else {
            rest
        }
    }
}

/// The vocabulary of one memory: that of its title, a space and its content.
pub open spec fn document_vocabulary(title: Seq<char>, content: Seq<char>) -> Seq<Seq<char>> {
    vocabulary_of(words(title + " "@ + content))
}

/// The vocabularies of the memories, one per memory.
pub open spec fn vocabularies(docs: Seq<(String, String)>) -> Seq<Seq<Seq<char>>> {
    docs.map_values(|d: (String, String)| document_vocabulary(d.0@, d.1@))
}

/// The texts of all lists, one list after the other.
pub open spec fn all_words(dv: Seq<Seq<Seq<char>>>) -> Seq<Seq<char>>
    decreases dv.len(),
{
    if dv.len() == 0 {
        Seq::empty()
    } else {
        all_words(dv.drop_last()) + dv.last()
    }
}

/// In how many vocabularies `w` occurs.
pub open spec fn documents_with(dv: Seq<Seq<Seq<char>>>, w: Seq<char>) -> nat
    decreases dv.len(),
{
    if dv.len() == 0 {
        0
    } else {
        documents_with(dv.drop_last(), w) + if dv.last().contains(w) {
            1nat
        } else {
            0nat
        }
    }
}

/// A word of the vocabulary with its counts.
#[derive(Debug, Clone)]
pub struct VocabularyEntry {
    pub word: String,
    /// In how many memories the word occurs.
    pub document_count: usize,
    /// How many times the word occurs in all memories.
    pub total_count: usize,
}

/// The words of the entries with their total counts.
pub open spec fn total_views(e: Seq<VocabularyEntry>) -> Seq<(Seq<char>, usize)> {
    e.map_values(|x: VocabularyEntry| (x.word@, x.total_count))
}

/// Strips the characters that are not alphanumeric from both ends.
fn trim_unalnum(v: &[char]) -> (r: String)
    ensures
        r@ == trim_back(trim_front(v@)),
{
    let mut lo: usize = 0;
    assert(v@.skip(0) =~= v@);
    while lo < v.len() && !is_alphanumeric(v[lo])
        invariant
            lo <= v@.len(),
            trim_front(v@) == trim_front(v@.skip(lo as int)),
        decreases v.len() - lo,
    {
        assert(v@.skip(lo as int).drop_first() =~= v@.skip(lo + 1));
        lo = lo + 1;
    }
    let ghost t = v@.skip(lo as int);
    assert(trim_front(v@) == t) by {
        if lo == v@.len() {
            assert(t.len() == 0);
        }
    }
    let mut hi: usize = v.len();
    assert(v@.subrange(lo as int, hi as int) =~= t);
    while hi > lo && !is_alphanumeric(v[hi - 1])
        invariant
            lo <= hi <= v@.len(),
            t == v@.skip(lo as int),
            trim_back(t) == trim_back(v@.subrange(lo as int, hi as int)),
        decreases hi,
    {
        assert(v@.subrange(lo as int, hi as int).drop_last() =~= v@.subrange(lo as int, hi - 1));
        hi = hi - 1;
    }
    assert(trim_back(t) == v@.subrange(lo as int, hi as int));
    string_from_range(v, lo, hi)
}

/// The vocabulary form of a word (see `vocabulary_form`).
pub fn vocabulary_word(w: &str) -> (r: String)
    ensures
        r@ == vocabulary_form(w@),
{
    let lower = to_lowercase(w);
    let cs = chars_of(lower.as_str());
    trim_unalnum(cs.as_slice())
}

/// The vocabulary of one memory (see `document_vocabulary`).
pub fn document_words(title: &str, content: &str) -> (r: Vec<String>)
    ensures
        texts(r@) == document_vocabulary(title@, content@),
{
    let mut text = String::from_str(title);
    append_str(&mut text, " ");
    append_str(&mut text, content);
    let ws = split_words(text.as_str());
    let ghost wv = ws@.map_values(|w: String| w@);
    let mut r: Vec<String> = Vec::new();
    let mut i: usize = 0;
    assert(wv.take(0) =~= Seq::<Seq<char>>::empty());
    assert(texts(r@) =~= Seq::<Seq<char>>::empty());
    while i < ws.len()
        invariant
            i <= ws@.len(),
            wv == ws@.map_values(|w: String| w@),
            texts(r@) == vocabulary_of(wv.take(i as int)),
        decreases ws.len() - i,
    {
        assert(wv.take(i + 1).drop_last() =~= wv.take(i as int));
        assert(wv.take(i + 1).last() == ws@[i as int]@);
        let v = vocabulary_word(ws[i].as_str());
        if v.as_str().as_bytes().len() > 2 {
            let ghost before = r@;
            r.push(v);
            assert(texts(r@) =~= texts(before).push(v@));
        }
        i = i + 1;
    }
    assert(wv.take(ws@.len() as int) =~= wv);
    r
}

/// Appends copies of the strings of `ws`.
pub(crate) fn append_copies(all: &mut Vec<String>, ws: &Vec<String>)
    ensures
        texts(final(all)@) == texts(old(all)@) + texts(ws@),
{
    let ghost start = texts(all@);
    let mut j: usize = 0;
    assert(texts(ws@).take(0) =~= Seq::<Seq<char>>::empty());
    assert(start + texts(ws@).take(0) =~= start);
    while j < ws.len()
        invariant
            j <= ws@.len(),
            texts(all@) == start + texts(ws@).take(j as int),
        decreases ws.len() - j,
    {
        let ghost prev = all@;
        all.push(ws[j].clone());
        assert(texts(ws@).take(j + 1) =~= texts(ws@).take(j as int).push(ws@[j as int]@));
        assert(texts(all@) =~= texts(prev).push(ws@[j as int]@));
        j = j + 1;
    }
    assert(texts(ws@).take(ws@.len() as int) =~= texts(ws@));
}

/// Whether `w` is one of the texts of `ws`.
pub(crate) fn contains_text_item(ws: &Vec<String>, w: &str) -> (r: bool)
    ensures
        r == texts(ws@).contains(w@),
{
    let mut k: usize = 0;
    while k < ws.len()
        invariant
            k <= ws@.len(),
            forall|q: int| 0 <= q < k ==> ws@[q]@ != w@,
        decreases ws.len() - k,
    {
        if str_eq(ws[k].as_str(), w) {
            assert(texts(ws@)[k as int] == w@);
            return true;
        }
        k = k + 1;
    }
    assert forall|q: int| 0 <= q < texts(ws@).len() implies texts(ws@)[q] != w@ by {
        assert(texts(ws@)[q] == ws@[q]@);
    }
    false
}

/// In how many of the vocabularies `w` occurs.
fn count_documents(per_doc: &Vec<Vec<String>>, w: &str) -> (r: usize)
    ensures
        r == documents_with(list_texts(per_doc@), w@),
{
    let ghost dv = list_texts(per_doc@);
    let mut n: usize = 0;
    let mut i: usize = 0;
    assert(dv.take(0) =~= Seq::<Seq<Seq<char>>>::empty());
    while i < per_doc.len()
        invariant
            i <= per_doc@.len(),
            dv == list_texts(per_doc@),
            n == documents_with(dv.take(i as int), w@),
            n <= i,
        decreases per_doc.len() - i,
    {
        assert(dv.take(i + 1).drop_last() =~= dv.take(i as int));
        assert(dv.take(i + 1).last() == texts(per_doc@[i as int]@));
        if contains_text_item(&per_doc[i], w) {
            n = n + 1;
        }
        i = i + 1;
    }
    assert(dv.take(per_doc@.len() as int) =~= dv);
    n
}

/// The texts of each list.
pub open spec fn list_texts(lists: Seq<Vec<String>>) -> Seq<Seq<Seq<char>>> {
    lists.map_values(|d: Vec<String>| texts(d@))
}

/// The vocabulary of each memory, given as titles and contents.
pub fn collect_vocabularies(docs: &Vec<(String, String)>) -> (r: Vec<Vec<String>>)
    ensures
        list_texts(r@) == vocabularies(docs@),
{
    let ghost dv = vocabularies(docs@);
    let mut per_doc: Vec<Vec<String>> = Vec::new();
    let mut i: usize = 0;
    assert(dv.take(0) =~= Seq::<Seq<Seq<char>>>::empty());
    assert(list_texts(per_doc@) =~= Seq::<Seq<Seq<char>>>::empty());
    while i < docs.len()
        invariant
            i <= docs@.len(),
            dv == vocabularies(docs@),
            list_texts(per_doc@) == dv.take(i as int),
        decreases docs.len() - i,
    {
        let ws = document_words(docs[i].0.as_str(), docs[i].1.as_str());
        assert(dv[i as int] == texts(ws@));
        let ghost before = per_doc@;
        per_doc.push(ws);
        assert(list_texts(per_doc@) =~= list_texts(before).push(dv[i as int]));
        assert(dv.take(i + 1) =~= dv.take(i as int).push(dv[i as int]));
        i = i + 1;
    }
    assert(dv.take(docs@.len() as int) =~= dv);
    per_doc
}

/// The texts of all lists, one list after the other.
pub fn flatten_texts(lists: &Vec<Vec<String>>) -> (r: Vec<String>)
    ensures
        texts(r@) == all_words(list_texts(lists@)),
{
    let ghost dv = list_texts(lists@);
    let mut all: Vec<String> = Vec::new();
    let mut i: usize = 0;
    assert(dv.take(0) =~= Seq::<Seq<Seq<char>>>::empty());
    assert(texts(all@) =~= Seq::<Seq<char>>::empty());
    while i < lists.len()
        invariant
            i <= lists@.len(),
            dv == list_texts(lists@),
            texts(all@) == all_words(dv.take(i as int)),
        decreases lists.len() - i,
    {
        assert(dv.take(i + 1).drop_last() =~= dv.take(i as int));
        assert(dv.take(i + 1).last() == texts(lists@[i as int]@));
        append_copies(&mut all, &lists[i]);
        i = i + 1;
    }
    assert(dv.take(lists@.len() as int) =~= dv);
    all
}

/// The vocabulary of the memories, given as titles and contents: each word
/// once, with how many times it occurs in all of them and in how many it
/// occurs, in the order of first occurrence.
pub fn vocabulary_counts(docs: &Vec<(String, String)>) -> (r: Vec<VocabularyEntry>)
    ensures
        is_distribution(total_views(r@), all_words(vocabularies(docs@))),
        forall|k: int|
            0 <= k < r@.len() ==> #[trigger] r@[k].document_count == documents_with(
                vocabularies(docs@),
                r@[k].word@,
            ),
{
    let ghost dv = vocabularies(docs@);
    let per_doc = collect_vocabularies(docs);
    let all = flatten_texts(&per_doc);
    let totals = count_texts(&all);
    let mut r: Vec<VocabularyEntry> = Vec::new();
    let mut k: usize = 0;
    while k < totals.len()
        invariant
            k <= totals@.len(),
            r@.len() == k,
            list_texts(per_doc@) == dv,
            forall|q: int| 0 <= q < k ==> (#[trigger] r@[q]).word@ == totals@[q].0@ && r@[q].total_count
                == totals@[q].1,
            forall|q: int| 0 <= q < k ==> #[trigger] r@[q].document_count == documents_with(
                dv,
                r@[q].word@,
            ),
        decreases totals.len() - k,
    {
        let n = count_documents(&per_doc, totals[k].0.as_str());
        let e = VocabularyEntry {
            word: totals[k].0.clone(),
            document_count: n,
            total_count: totals[k].1,
        };
        r.push(e);
        k = k + 1;
    }
    assert(total_views(r@) =~= tag_views(totals@)) by {
        assert forall|q: int| 0 <= q < r@.len() implies total_views(r@)[q] == tag_views(totals@)[q] by {
            assert(r@[q].word@ == totals@[q].0@);
        }
    }
    r
}

/// The vocabulary figures of a set of memories. (The richness, unique
/// words over all words, is a floating-point figure that the caller
/// computes from these two counts.)
#[derive(Debug, Clone)]
pub struct VocabularyAnalysis {
    pub total_memories: usize,
    /// How many different words the vocabulary has.
    pub unique_words: usize,
    /// How many words the vocabulary has, counting repeats.
    pub total_words: usize,
    /// The twenty most frequent words with their counts.
    pub top_words: Vec<(String, usize)>,
    /// The ten most frequent tags with their counts.
    pub top_tags: Vec<(String, usize)>,
}

/// Analyses the vocabulary of memories given as titles and contents, and
/// their tags. Words or tags that occur equally often may come in any
/// order, as the counts are gathered without one.
pub fn analyze_vocabulary(docs: &Vec<(String, String)>, tags: &Vec<Vec<String>>) -> (r:
    VocabularyAnalysis)
    ensures
        r.total_memories == docs@.len(),
        r.total_words == all_words(vocabularies(docs@)).len(),
        exists|d: Seq<(Seq<char>, usize)>|
            is_distribution(d, all_words(vocabularies(docs@))) && r.unique_words == d.len()
                && #[trigger] ranked(d, 0, 20) == tag_views(r.top_words@),
        exists|d: Seq<(Seq<char>, usize)>|
            is_distribution(d, all_words(list_texts(tags@))) && #[trigger] ranked(d, 0, 10)
                == tag_views(r.top_tags@),
{
    let per_doc = collect_vocabularies(docs);
    let all = flatten_texts(&per_doc);
    let words_counted = count_texts(&all);
    let ghost wd = tag_views(words_counted@);
    let unique = words_counted.len();
    let top_words = ranked_counts(words_counted, 0, 20);
    assert(ranked(wd, 0, 20) == tag_views(top_words@));
    let all_tags = flatten_texts(tags);
    let tags_counted = count_texts(&all_tags);
    let ghost td = tag_views(tags_counted@);
    let top_tags = ranked_counts(tags_counted, 0, 10);
    assert(ranked(td, 0, 10) == tag_views(top_tags@));
    VocabularyAnalysis {
        total_memories: docs.len(),
        unique_words: unique,
        total_words: all.len(),
        top_words,
        top_tags,
    }
}

/// The tags that more than one of the memories share, most shared first,
/// at most five, given each memory's tags. Tags shared equally often may
/// come in any order, as the counts are gathered without one.
pub fn common_tags(tags: &Vec<Vec<String>>) -> (r: Vec<(String, usize)>)
    ensures
        exists|d: Seq<(Seq<char>, usize)>|
            is_distribution(d, all_words(list_texts(tags@))) && #[trigger] ranked(d, 2, 5)
                == tag_views(r@),
{
    let all_tags = flatten_texts(tags);
    let counted = count_texts(&all_tags);
    let ghost d = tag_views(counted@);
    let r = ranked_counts(counted, 2, 5);
    assert(ranked(d, 2, 5) == tag_views(r@));
    r
}

} // verus!
