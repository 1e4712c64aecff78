//! Recalling memories: which found memories the type and tag filters keep,
//! and the Markdown that presents them. (Their order goes by floating-point
//! confidence scores and is decided by the caller.)

use vstd::prelude::*;
use vstd::string::StringExecFns;
use crate::config::texts;
use crate::export::{decimal, decimal_text, join_strings, join_with};
use crate::text::{append_str, str_eq};

verus! {

/// What recalling reads of a found memory.
#[derive(Debug, Clone)]
pub struct RecallEntry {
    pub id: String,
    pub title: String,
    pub memory_type: String,
    pub tags: Vec<String>,
    pub content: String,
    pub reference_count: u32,
    /// The confidence, already written with two decimals.
    pub confidence: String,
}

/// The memory has one of the wanted tags.
pub open spec fn has_wanted_tag(tags: Seq<Seq<char>>, wanted: Seq<Seq<char>>) -> bool {
    exists|j: int| 0 <= j < wanted.len() && tags.contains(#[trigger] wanted[j])
}

/// The filters keep the memory: its type is the wanted one, if one is
/// wanted, and it has one of the wanted tags, if any are wanted.
pub open spec fn recall_keeps(e: RecallEntry, type_filter: Option<String>, tag_filter: Seq<String>) -> bool {
    &&& (type_filter matches Some(t) ==> e.memory_type@ == t@)
    &&& (tag_filter.len() > 0 ==> has_wanted_tag(texts(e.tags@), texts(tag_filter)))
}

/// Whether the memory has one of the wanted tags.
fn wanted_tag_found(tags: &Vec<String>, wanted: &Vec<String>) -> (r: bool)
    ensures
        r == has_wanted_tag(texts(tags@), texts(wanted@)),
{
    let mut j: usize = 0;
    while j < wanted.len()
        invariant
            j <= wanted@.len(),
            forall|q: int| 0 <= q < j ==> !texts(tags@).contains(#[trigger] texts(wanted@)[q]),
        decreases wanted.len() - j,
    {
        let mut k: usize = 0;
        while k < tags.len()
            invariant
                k <= tags@.len(),
                j < wanted@.len(),
                forall|q: int| 0 <= q < k ==> tags@[q]@ != wanted@[j as int]@,
            decreases tags.len() - k,
        {
            if str_eq(tags[k].as_str(), wanted[j].as_str()) {
                assert(texts(tags@)[k as int] == texts(wanted@)[j as int]);
                return true;
            }
            k = k + 1;
        }
        assert forall|q: int| 0 <= q < texts(tags@).len() implies texts(tags@)[q] != texts(
            wanted@,
        )[j as int] by {
            assert(texts(tags@)[q] == tags@[q]@);
        }
        j = j + 1;
    }
    false
}

/// Which found memories the filters keep, one flag per memory.
pub fn recall_filter(entries: &Vec<RecallEntry>, type_filter: &Option<String>, tag_filter: &Vec<
    String,
>) -> (r: Vec<bool>)
    ensures
        r@.len() == entries@.len(),
        forall|i: int|
            0 <= i < entries@.len() ==> r@[i] == recall_keeps(
                #[trigger] entries@[i],
                *type_filter,
                tag_filter@,
            ),
{
    let mut r: Vec<bool> = Vec::new();
    let mut i: usize = 0;
    while i < entries.len()
        invariant
            i <= entries@.len(),
            r@.len() == i,
            forall|q: int|
                0 <= q < i ==> r@[q] == recall_keeps(#[trigger] entries@[q], *type_filter, tag_filter@),
        decreases entries.len() - i,
    {
        let e = &entries[i];
        let type_ok = match type_filter {
            Some(t) => str_eq(e.memory_type.as_str(), t.as_str()),
            None => true,
        };
        let tags_ok = tag_filter.len() == 0 || wanted_tag_found(&e.tags, tag_filter);
        r.push(type_ok && tags_ok);
        i = i + 1;
    }
    r
}

/// The Markdown of one memory.
pub open spec fn entry_markdown(e: RecallEntry) -> Seq<char> {
    "## "@ + e.title@ + "\n\n"@ + "**ID**: "@ + e.id@ + "\n"@ + (if e.tags@.len() > 0 {
        "**Tags**: "@ + join_with(texts(e.tags@), ", "@) + "\n"@
    } else {
        Seq::empty()
    }) + "**Confidence**: "@ + e.confidence@ + "\n"@ + "**References**: "@ + decimal(
        e.reference_count as nat,
    ) + "\n\n"@ + e.content@ + "\n\n"@ + "---\n\n"@
}

/// The Markdown of the memories, one after the other.
pub open spec fn entries_markdown(es: Seq<RecallEntry>) -> Seq<char>
    decreases es.len(),
{
    if es.len() == 0 {
        Seq::empty()
    } else {
        entries_markdown(es.drop_last()) + entry_markdown(es.last())
    }
}

/// The search results as Markdown: a heading, then each memory; or a line
/// saying that nothing was found.
pub open spec fn results_markdown(es: Seq<RecallEntry>) -> Seq<char> {
    if es.len() == 0 {
        "# Search Results\n\nNo memories found for the given query."@
    } else {
        "# Search Results\n\n"@ + entries_markdown(es)
    }
}

fn append_entry(md: &mut String, e: &RecallEntry)
    ensures
        final(md)@ == old(md)@ + entry_markdown(*e),
{
    let ghost start = md@;
    append_str(md, "## ");
    append_str(md, e.title.as_str());
    append_str(md, "\n\n");
    append_str(md, "**ID**: ");
    append_str(md, e.id.as_str());
    append_str(md, "\n");
    let ghost head = md@;
    if e.tags.len() > 0 {
        let joined = join_strings(&e.tags, ", ");
        append_str(md, "**Tags**: ");
        append_str(md, joined.as_str());
        append_str(md, "\n");
    }
    let ghost tags_part = if e.tags@.len() > 0 {
        "**Tags**: "@ + join_with(texts(e.tags@), ", "@) + "\n"@
    } else {
        Seq::<char>::empty()
    };
    assert(md@ =~= head + tags_part);
    append_str(md, "**Confidence**: ");
    append_str(md, e.confidence.as_str());
    append_str(md, "\n");
    append_str(md, "**References**: ");
    let refs = decimal_text(e.reference_count as u64);
    append_str(md, refs.as_str());
    append_str(md, "\n\n");
    append_str(md, e.content.as_str());
    append_str(md, "\n\n");
    append_str(md, "---\n\n");
    assert(md@ =~= start + entry_markdown(*e));
}

/// Writes the search results as Markdown (see `results_markdown`).
pub fn format_memories_as_markdown(entries: &Vec<RecallEntry>) -> (r: String)
    ensures
        r@ == results_markdown(entries@),
{
    if entries.len() == 0 {
        return String::from_str("# Search Results\n\nNo memories found for the given query.");
    }
    let mut md = String::from_str("# Search Results\n\n");
    let ghost head = md@;
    let mut i: usize = 0;
    assert(entries@.take(0) =~= Seq::<RecallEntry>::empty());
    assert(md@ =~= head + entries_markdown(entries@.take(0)));
    while i < entries.len()
        invariant
            i <= entries@.len(),
            md@ == head + entries_markdown(entries@.take(i as int)),
            head == "# Search Results\n\n"@,
        decreases entries.len() - i,
    {
        append_entry(&mut md, &entries[i]);
        assert(entries@.take(i + 1).drop_last() =~= entries@.take(i as int));
        assert(entries@.take(i + 1).last() == entries@[i as int]);
        assert(md@ =~= head + entries_markdown(entries@.take(i + 1)));
        i = i + 1;
    }
    assert(entries@.take(entries@.len() as int) =~= entries@);
    md
}

} // verus!
