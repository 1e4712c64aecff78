use hail_mary::options::{SortBy, SortOrder};
use hail_mary::search_order::{keyword_additions, sort_results, SortRecord};

fn rec(topic: &str, created: i64, accessed: Option<i64>, refs: u32, conf: u64) -> SortRecord {
    SortRecord {
        topic: topic.to_string(),
        created_at: created,
        last_accessed: accessed,
        reference_count: refs,
        confidence_rank: conf,
    }
}

fn topics(v: &[SortRecord]) -> Vec<&str> {
    v.iter().map(|r| r.topic.as_str()).collect()
}

fn sample() -> Vec<SortRecord> {
    vec![
        rec("b", 10, None, 2, 1),
        rec("a", 30, Some(5), 5, 0),
        rec("c", 20, Some(40), 2, 2),
        rec("d", 10, None, 5, 0),
    ]
}

#[test]
fn relevance_is_references_then_confidence() {
    let r = sort_results(sample(), SortBy::Relevance, SortOrder::Desc);
    assert_eq!(topics(&r), vec!["a", "d", "c", "b"]);
}

#[test]
fn created_descending_keeps_ties_in_order() {
    let r = sort_results(sample(), SortBy::Created, SortOrder::Desc);
    assert_eq!(topics(&r), vec!["a", "c", "b", "d"]);
    let r = sort_results(sample(), SortBy::Created, SortOrder::Asc);
    assert_eq!(topics(&r), vec!["b", "d", "c", "a"]);
}

#[test]
fn modified_uses_last_access_else_creation() {
    let r = sort_results(sample(), SortBy::Modified, SortOrder::Desc);
    assert_eq!(topics(&r), vec!["c", "b", "d", "a"]);
}

#[test]
fn topic_descending_lists_smallest_first() {
    let r = sort_results(sample(), SortBy::Topic, SortOrder::Desc);
    assert_eq!(topics(&r), vec!["a", "b", "c", "d"]);
    let r = sort_results(sample(), SortBy::Topic, SortOrder::Asc);
    assert_eq!(topics(&r), vec!["d", "c", "b", "a"]);
}

#[test]
fn references_and_confidence() {
    let r = sort_results(sample(), SortBy::References, SortOrder::Desc);
    assert_eq!(topics(&r), vec!["a", "d", "b", "c"]);
    let r = sort_results(sample(), SortBy::Confidence, SortOrder::Asc);
    assert_eq!(topics(&r), vec!["a", "d", "b", "c"]);
    assert!(sort_results(vec![], SortBy::Topic, SortOrder::Asc).is_empty());
}

#[test]
fn keyword_results_join_once_after_semantic_ones() {
    let semantic = vec!["m1".to_string(), "m2".to_string()];
    let keyword = vec![
        "m2".to_string(),
        "m3".to_string(),
        "m4".to_string(),
        "m3".to_string(),
        "m1".to_string(),
    ];
    assert_eq!(keyword_additions(&semantic, &keyword), vec![1, 2]);
    assert_eq!(keyword_additions(&vec![], &keyword), vec![0, 1, 2, 4]);
    assert!(keyword_additions(&semantic, &vec![]).is_empty());
}
