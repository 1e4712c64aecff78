//! Memory clustering: its options, and the clustering of memories by the
//! key word of their topics.

use vstd::prelude::*;
use vstd::string::StringExecFns;
use crate::analytics::byte_len;
use crate::config::texts;
use crate::distribution::{count_texts, is_distribution, ranked, ranked_counts};
use crate::tag_list::tag_views;
use crate::text::{char_is_whitespace, is_whitespace, str_eq, string_from_chars};

verus! {

/// Clustering algorithms.
#[derive(Debug, Clone, Copy, PartialEq, Eq, Structural)]
pub enum ClusterAlgorithm {
    Kmeans,
    Hierarchical,
    Dbscan,
    Topic,
}

/// Output formats of clustering.
#[derive(Debug, Clone, Copy, PartialEq, Eq, Structural)]
pub enum OutputFormat {
    Text,
    Json,
    Summary,
}

/// The lowercase form of `s`, as `str::to_lowercase` gives it.
pub uninterp spec fn lowercase(s: Seq<char>) -> Seq<char>;

/// Calls `str::to_lowercase`. Trusted: the result is the one `lowercase`
/// names, which depends on the text alone.
#[verifier::external_body]
pub(crate) fn to_lowercase(s: &str) -> (r: String)
    ensures
        r@ == lowercase(s@),
{
    s.to_lowercase()
}

/// The words of `s`: the runs of characters between whitespace, as
/// `str::split_whitespace` gives them.
pub open spec fn words(s: Seq<char>) -> Seq<Seq<char>>
    decreases s.len(),
{
    if s.len() == 0 {
        Seq::empty()
    } else if char_is_whitespace(s.last()) {
        words(s.drop_last())
    } else {
        let w = words(s.drop_last());
        if s.len() >= 2 && !char_is_whitespace(s[s.len() - 2]) && w.len() > 0 {
            w.drop_last().push(w.last().push(s.last()))
        } else {
            w.push(seq![s.last()])
        }
    }
}

/// The words that do not name a topic.
pub open spec fn stop_words() -> Seq<Seq<char>> {
    seq!["with"@, "from"@, "using"@, "about"@, "the"@]
}

/// A word names a topic when its lowercase form is longer than three bytes
/// and is not a stop word.
pub open spec fn is_topic_word(w: Seq<char>) -> bool {
    byte_len(lowercase(w)) > 3 && !stop_words().contains(lowercase(w))
}

/// The first word that names a topic.
pub open spec fn first_topic_word(ws: Seq<Seq<char>>) -> Option<Seq<char>>
    decreases ws.len(),
{
    if ws.len() == 0 {
        None
    } else if is_topic_word(ws[0]) {
        Some(ws[0])
    } else {
        first_topic_word(ws.drop_first())
    }
}

/// The key a topic is clustered by: its first word that names a topic,
/// else its first word, else `Unknown`.
pub open spec fn topic_key(topic: Seq<char>) -> Seq<char> {
    let ws = words(topic);
    match first_topic_word(ws) {
        Some(w) => w,
        None => if ws.len() > 0 {
            ws[0]
        } else {
            "Unknown"@
        },
    }
}

/// The words of `s` (see `words`).
pub fn split_words(s: &str) -> (r: Vec<String>)
    ensures
        r@.map_values(|w: String| w@) == words(s@),
{
    let cs = crate::text::chars_of(s);
    let mut r: Vec<String> = Vec::new();
    let mut cur: Vec<char> = Vec::new();
    let mut i: usize = 0;
    while i < cs.len()
        invariant
            i <= cs@.len(),
            cs@ == s@,
            cur@.len() > 0 ==> i > 0 && !char_is_whitespace(cs@[i - 1]),
            i > 0 && !char_is_whitespace(cs@[i - 1]) ==> cur@.len() > 0,
            ({
                let w = words(cs@.take(i as int));
                let done = r@.map_values(|x: String| x@);
                if cur@.len() > 0 {
                    w == done.push(cur@)
                } else {
                    w == done
                }
            }),
        decreases cs.len() - i,
    {
        let c = cs[i];
        let ghost t = cs@.take(i + 1);
        assert(t.drop_last() =~= cs@.take(i as int));
        assert(t.last() == c);
        if is_whitespace(c) {
            if cur.len() > 0 {
                let word = string_from_chars(cur.as_slice());
                let ghost before = r@;
                r.push(word);
                assert(r@.map_values(|x: String| x@) =~= before.map_values(|x: String| x@).push(
                    cur@,
                ));
                cur = Vec::new();
            }
        } else {
            let ghost old_cur = cur@;
            let ghost w0 = words(cs@.take(i as int));
            let ghost done = r@.map_values(|x: String| x@);
            if i > 0 {
                assert(t[t.len() - 2] == cs@[i - 1]);
            }
            if cur.len() > 0 {
                assert(w0.drop_last() =~= done);
                assert(w0.last() == old_cur);
                assert(words(t) == w0.drop_last().push(w0.last().push(c)));
                cur.push(c);
                assert(words(t) == done.push(cur@));
            } else {
                assert(w0 == done);
                assert(words(t) == w0.push(seq![c]));
                cur.push(c);
                assert(cur@ =~= seq![c]);
            }
        }
        i = i + 1;
    }
    assert(cs@.take(cs@.len() as int) =~= cs@);
    if cur.len() > 0 {
        let word = string_from_chars(cur.as_slice());
        let ghost before = r@;
        r.push(word);
        assert(r@.map_values(|x: String| x@) =~= before.map_values(|x: String| x@).push(cur@));
    }
    r
}

/// Whether a word names a topic (see `is_topic_word`).
fn topic_word(w: &str) -> (r: bool)
    ensures
        r == is_topic_word(w@),
{
    let lower = to_lowercase(w);
    let stops = ["with", "from", "using", "about", "the"];
    assert(stops@.map_values(|x: &str| x@) =~= stop_words());
    if lower.as_str().as_bytes().len() <= 3 {
        return false;
    }
    let mut k: usize = 0;
    while k < 5
        invariant
            k <= 5,
            lower@ == lowercase(w@),
            stops@.map_values(|x: &str| x@) == stop_words(),
            forall|j: int| 0 <= j < k ==> stop_words()[j] != lower@,
        decreases 5 - k,
    {
        assert(stops@[k as int]@ == stop_words()[k as int]);
        if str_eq(stops[k], lower.as_str()) {
            assert(stop_words()[k as int] == lower@);
            return false;
        }
        k = k + 1;
    }
    assert forall|j: int| 0 <= j < stop_words().len() implies stop_words()[j] != lower@ by {}
    true
}

/// The key a topic is clustered by (see `topic_key`).
pub fn extract_topic_key(topic: &str) -> (r: String)
    ensures
        r@ == topic_key(topic@),
{
    let ws = split_words(topic);
    let ghost wv = ws@.map_values(|w: String| w@);
    let mut i: usize = 0;
    assert(wv.skip(0) =~= wv);
    while i < ws.len()
        invariant
            i <= ws@.len(),
            wv == ws@.map_values(|w: String| w@),
            wv == words(topic@),
            first_topic_word(wv) == first_topic_word(wv.skip(i as int)),
        decreases ws.len() - i,
    {
        assert(wv.skip(i as int)[0] == ws@[i as int]@);
        assert(wv.skip(i as int).drop_first() =~= wv.skip(i + 1));
        if topic_word(ws[i].as_str()) {
            return ws[i].clone();
        }
        i = i + 1;
    }
    assert(wv.skip(ws@.len() as int) =~= Seq::<Seq<char>>::empty());
    if ws.len() > 0 {
        ws[0].clone()
    } else {
        String::from_str("Unknown")
    }
}

/// The topic keys of the topics, in order.
pub open spec fn topic_keys(topics: Seq<Seq<char>>) -> Seq<Seq<char>> {
    topics.map_values(|t: Seq<char>| topic_key(t))
}

/// The clusters of a topic clustering: each topic key with the number of
/// memories whose topic has it, largest first. Clusters of equal size may
/// come in any order, as the memories are grouped without one.
pub fn topic_clusters(topics: &Vec<String>) -> (r: Vec<(String, usize)>)
    ensures
        exists|d: Seq<(Seq<char>, usize)>|
            is_distribution(d, topic_keys(texts(topics@))) && #[trigger] ranked(d, 0, d.len() as usize)
                == tag_views(r@),
{
    let mut keys: Vec<String> = Vec::new();
    let mut i: usize = 0;
    while i < topics.len()
        invariant
            i <= topics@.len(),
            texts(keys@) == topic_keys(texts(topics@)).take(i as int),
        decreases topics.len() - i,
    {
        let k = extract_topic_key(topics[i].as_str());
        let ghost before = keys@;
        keys.push(k);
        assert(texts(keys@) =~= texts(before).push(k@));
        assert(topic_keys(texts(topics@)).take(i + 1) =~= topic_keys(texts(topics@)).take(
            i as int,
        ).push(topic_key(topics@[i as int]@)));
        i = i + 1;
    }
    assert(topic_keys(texts(topics@)).take(topics@.len() as int) =~= topic_keys(texts(topics@)));
    let counted = count_texts(&keys);
    let ghost d = tag_views(counted@);
    let n = counted.len();
    let r = ranked_counts(counted, 0, n);
    assert(ranked(d, 0, d.len() as usize) == tag_views(r@));
    r
}

/// A word that may name a topic, written out: its lowercase form is longer
/// than three bytes and is none of `with`, `from`, `using`, `about`, `the`.
pub open spec fn may_name_topic(w: Seq<char>) -> bool {
    let l = lowercase(w);
    &&& byte_len(l) > 3
    &&& l != "with"@
    &&& l != "from"@
    &&& l != "using"@
    &&& l != "about"@
    &&& l != "the"@
}

proof fn lemma_topic_word_written_out(w: Seq<char>)
    ensures
        is_topic_word(w) == may_name_topic(w),
{
    let l = lowercase(w);
    let s = stop_words();
    assert(s[0] == "with"@ && s[1] == "from"@ && s[2] == "using"@ && s[3] == "about"@ && s[4]
        == "the"@);
    if s.contains(l) {
        let k = choose|k: int| 0 <= k < s.len() && s[k] == l;
        assert(k == 0 || k == 1 || k == 2 || k == 3 || k == 4);
    }
    if l == "with"@ {
        assert(s[0] == l);
    }
    if l == "from"@ {
        assert(s[1] == l);
    }
    if l == "using"@ {
        assert(s[2] == l);
    }
    if l == "about"@ {
        assert(s[3] == l);
    }
    if l == "the"@ {
        assert(s[4] == l);
    }
}

/// A word whose lowercase form is `with`, `from`, `using`, `about` or
/// `the` never names a topic.
pub proof fn law_stop_words_name_no_topic(w: Seq<char>)
    requires
        lowercase(w) == "with"@ || lowercase(w) == "from"@ || lowercase(w) == "using"@
            || lowercase(w) == "about"@ || lowercase(w) == "the"@,
    ensures
        !is_topic_word(w),
{
    lemma_topic_word_written_out(w);
}

proof fn lemma_first_topic_word_at(ws: Seq<Seq<char>>, j: int)
    requires
        0 <= j < ws.len(),
        may_name_topic(ws[j]),
        forall|i: int| 0 <= i < j ==> !may_name_topic(#[trigger] ws[i]),
    ensures
        first_topic_word(ws) == Some(ws[j]),
    decreases j,
{
    lemma_topic_word_written_out(ws[0]);
    if j > 0 {
        assert(!may_name_topic(ws[0]));
        assert forall|i: int| 0 <= i < j - 1 implies !may_name_topic(#[trigger] ws.drop_first()[i]) by {
            assert(ws.drop_first()[i] == ws[i + 1]);
        }
        assert(ws.drop_first()[j - 1] == ws[j]);
        lemma_first_topic_word_at(ws.drop_first(), j - 1);
    }
}

/// The key of a topic is its first word whose lowercase form is longer than
/// three bytes and is none of `with`, `from`, `using`, `about`, `the`,
/// when it has such a word.
pub proof fn law_topic_key_is_first_naming_word(topic: Seq<char>, j: int)
    requires
        0 <= j < words(topic).len(),
        may_name_topic(words(topic)[j]),
        forall|i: int| 0 <= i < j ==> !may_name_topic(#[trigger] words(topic)[i]),
    ensures
        topic_key(topic) == words(topic)[j],
{
    lemma_first_topic_word_at(words(topic), j);
}

} // verus!
