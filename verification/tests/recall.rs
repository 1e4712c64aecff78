use hail_mary::recall::{format_memories_as_markdown, recall_filter, RecallEntry};

fn entry(title: &str, memory_type: &str, tags: &[&str], refs: u32, confidence: &str) -> RecallEntry {
    RecallEntry {
        id: format!("id-{}", title),
        title: title.to_string(),
        memory_type: memory_type.to_string(),
        tags: tags.iter().map(|t| t.to_string()).collect(),
        content: format!("About {}", title),
        reference_count: refs,
        confidence: confidence.to_string(),
    }
}

#[test]
fn filters_by_type_and_any_wanted_tag() {
    let entries = vec![
        entry("a", "tech", &["rust", "async"], 0, "0.80"),
        entry("b", "domain", &["rust"], 0, "0.80"),
        entry("c", "tech", &["go"], 0, "0.80"),
    ];
    assert_eq!(
        recall_filter(&entries, &None, &vec![]),
        vec![true, true, true]
    );
    assert_eq!(
        recall_filter(&entries, &Some("tech".to_string()), &vec![]),
        vec![true, false, true]
    );
    assert_eq!(
        recall_filter(
            &entries,
            &None,
            &vec!["async".to_string(), "go".to_string()]
        ),
        vec![true, false, true]
    );
    // Tags match whole and with case.
    assert_eq!(
        recall_filter(&entries, &Some("tech".to_string()), &vec!["Rust".to_string()]),
        vec![false, false, false]
    );
}

#[test]
fn markdown_of_no_results() {
    assert_eq!(
        format_memories_as_markdown(&vec![]),
        "# Search Results\n\nNo memories found for the given query."
    );
}

#[test]
fn markdown_lists_each_memory() {
    let entries = vec![
        entry("Rust", "tech", &["rust", "lang"], 7, "0.90"),
        entry("Plain", "domain", &[], 0, "1.00"),
    ];
    let expected = "# Search Results\n\n\
## Rust\n\n**ID**: id-Rust\n**Tags**: rust, lang\n**Confidence**: 0.90\n**References**: 7\n\nAbout Rust\n\n---\n\n\
## Plain\n\n**ID**: id-Plain\n**Confidence**: 1.00\n**References**: 0\n\nAbout Plain\n\n---\n\n";
    assert_eq!(format_memories_as_markdown(&entries), expected);
}
