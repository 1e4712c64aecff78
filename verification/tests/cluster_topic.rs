use hail_mary::cluster::{extract_topic_key, split_words, topic_clusters};

#[test]
fn test_extract_topic_key() {
    assert_eq!(extract_topic_key("Rust programming language"), "Rust");
    assert_eq!(extract_topic_key("The Python ecosystem"), "Python");
    assert_eq!(extract_topic_key("Using Docker containers"), "Docker");
}

#[test]
fn short_or_stop_words_fall_back_to_the_first() {
    assert_eq!(extract_topic_key("the Go way"), "the");
    assert_eq!(extract_topic_key("   "), "Unknown");
    assert_eq!(extract_topic_key(""), "Unknown");
    assert_eq!(extract_topic_key("  About  async\tRust "), "async");
}

#[test]
fn words_split_at_whitespace_runs() {
    assert_eq!(split_words("  a  bc\td\n"), vec!["a", "bc", "d"]);
    assert!(split_words("").is_empty());
    assert_eq!(split_words("one"), vec!["one"]);
}

#[test]
fn topic_clusters_count_memories_per_key() {
    let topics: Vec<String> = vec![
        "Rust ownership rules",
        "the Rust borrow checker",
        "Async runtimes",
        "Rust macros",
        "async traits",
    ]
    .into_iter()
    .map(String::from)
    .collect();
    let clusters = topic_clusters(&topics);
    assert_eq!(clusters[0], ("Rust".to_string(), 3));
    assert_eq!(clusters.len(), 3);
    assert!(clusters.contains(&("Async".to_string(), 1)));
    assert!(clusters.contains(&("async".to_string(), 1)));
    assert!(topic_clusters(&vec![]).is_empty());
}
