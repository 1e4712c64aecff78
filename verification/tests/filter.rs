use hail_mary::export::signed_decimal_text;
use hail_mary::filter::{
    regex_pattern, retain_flagged, FilterCriteria, FilterEngine, FilterError, FilterRecord,
    FilterStats,
};

fn record(memory_type: &str, title: &str, content: &str, tags: &[&str]) -> FilterRecord {
    FilterRecord {
        memory_type: memory_type.to_string(),
        title: title.to_string(),
        content: content.to_string(),
        tags: tags.iter().map(|t| t.to_string()).collect(),
        reference_count: 0,
        created_at: 1_000_000,
        deleted: false,
    }
}

fn count_of(d: &[(String, usize)], key: &str) -> Option<usize> {
    d.iter().find(|(k, _)| k == key).map(|(_, n)| *n)
}

#[test]
fn test_filter_criteria_builder() {
    let criteria = FilterCriteria::new()
        .with_type("tech".to_string())
        .with_tags(vec!["rust".to_string(), "async".to_string()])
        .include_deleted();

    assert_eq!(criteria.memory_type, Some("tech".to_string()));
    assert_eq!(
        criteria.tags,
        Some(vec!["rust".to_string(), "async".to_string()])
    );
    assert!(criteria.include_deleted);
}

#[test]
fn test_filter_validation() {
    let mut criteria = FilterCriteria::new();
    assert!(criteria.validate().is_ok());

    criteria.title_only = true;
    criteria.content_only = true;
    assert!(criteria.validate().is_err());
    assert_eq!(criteria.validate(), Err(FilterError::ConflictingScopes));
}

#[test]
fn test_filter_engine_type_filtering() {
    let memories = vec![
        record("tech", "Rust", "Content", &[]),
        record("domain", "Business", "Content", &[]),
    ];

    let criteria = FilterCriteria::new().with_type("tech".to_string());
    let filtered = FilterEngine::apply_filters(&criteria, memories).unwrap();

    assert_eq!(filtered.len(), 1);
    assert_eq!(filtered[0].memory_type, "tech");
}

#[test]
fn test_filter_stats() {
    let mut memories = vec![
        record("tech", "Topic1", "Content", &["rust"]),
        record("tech", "Topic2", "Content", &["async"]),
        record("domain", "Topic3", "Content", &["rust"]),
    ];
    memories[0].reference_count = 2;
    memories[2].reference_count = 5;

    let stats = FilterStats::from_memories(&memories);
    assert_eq!(stats.total_count, 3);
    assert_eq!(count_of(&stats.type_distribution, "tech"), Some(2));
    assert_eq!(count_of(&stats.type_distribution, "domain"), Some(1));
    assert_eq!(count_of(&stats.tag_distribution, "rust"), Some(2));
    assert_eq!(count_of(&stats.tag_distribution, "async"), Some(1));
    assert_eq!(stats.type_distribution.len(), 2);
    assert_eq!(stats.total_references, 7);
}

#[test]
fn invalid_regex_is_refused() {
    let criteria = FilterCriteria::new().with_query("(".to_string(), true, true);
    assert!(matches!(criteria.validate(), Err(FilterError::InvalidRegex(_))));
    let result = FilterEngine::apply_filters_at(&criteria, &vec![], 0);
    assert!(matches!(result, Err(FilterError::InvalidRegex(_))));
}

#[test]
fn conflicting_scopes_come_before_the_regex() {
    let mut criteria = FilterCriteria::new().with_query("(".to_string(), true, false);
    criteria.title_only = true;
    criteria.content_only = true;
    assert_eq!(criteria.validate(), Err(FilterError::ConflictingScopes));
}

#[test]
fn regex_is_case_insensitive_unless_asked() {
    assert_eq!(regex_pattern("rust", false), "(?i)rust");
    assert_eq!(regex_pattern("rust", true), "rust");
    let records = vec![
        record("tech", "RUST notes", "", &[]),
        record("tech", "Go notes", "", &[]),
    ];
    let loose = FilterCriteria::new().with_query("rust".to_string(), true, false);
    assert_eq!(
        FilterEngine::apply_filters_at(&loose, &records, 0),
        Ok(vec![true, false])
    );
    let strict = FilterCriteria::new().with_query("rust".to_string(), true, true);
    assert_eq!(
        FilterEngine::apply_filters_at(&strict, &records, 0),
        Ok(vec![false, false])
    );
}

#[test]
fn regex_search_scopes() {
    let records = vec![
        record("tech", "alpha", "beta", &["gamma"]),
        record("tech", "beta", "alpha", &[]),
    ];
    let mut title = FilterCriteria::new().with_query("^alpha$".to_string(), true, true);
    title.title_only = true;
    assert_eq!(
        FilterEngine::apply_filters_at(&title, &records, 0),
        Ok(vec![true, false])
    );
    let mut content = FilterCriteria::new().with_query("^alpha$".to_string(), true, true);
    content.content_only = true;
    assert_eq!(
        FilterEngine::apply_filters_at(&content, &records, 0),
        Ok(vec![false, true])
    );
    let everywhere = FilterCriteria::new().with_query("gam+a".to_string(), true, true);
    assert_eq!(
        FilterEngine::apply_filters_at(&everywhere, &records, 0),
        Ok(vec![true, false])
    );
}

#[test]
fn plain_query_is_not_filtered_here() {
    let records = vec![record("tech", "x", "y", &[])];
    let criteria = FilterCriteria::new().with_query("zzz".to_string(), false, false);
    assert_eq!(
        FilterEngine::apply_filters_at(&criteria, &records, 0),
        Ok(vec![true])
    );
}

#[test]
fn tags_match_by_lowercase_containment() {
    let records = vec![
        record("tech", "a", "", &["RustLang", "Async-IO"]),
        record("tech", "b", "", &["rust"]),
        record("tech", "c", "", &[]),
    ];
    let criteria =
        FilterCriteria::new().with_tags(vec!["rust".to_string(), "ASYNC".to_string()]);
    assert_eq!(
        FilterEngine::apply_filters_at(&criteria, &records, 0),
        Ok(vec![true, false, false])
    );
}

#[test]
fn age_and_deleted_filters() {
    let mut old = record("tech", "old", "", &[]);
    old.created_at = 1_000_000 - 3 * 86_400 - 1;
    let mut edge = record("tech", "edge", "", &[]);
    edge.created_at = 1_000_000 - 3 * 86_400;
    let mut gone = record("tech", "gone", "", &[]);
    gone.deleted = true;
    let records = vec![old, edge, gone];

    let by_age = FilterCriteria::new().with_max_age_days(3).include_deleted();
    assert_eq!(
        FilterEngine::apply_filters_at(&by_age, &records, 1_000_000),
        Ok(vec![false, true, true])
    );
    let live = FilterCriteria::new();
    assert_eq!(
        FilterEngine::apply_filters_at(&live, &records, 1_000_000),
        Ok(vec![true, true, false])
    );
}

#[test]
fn retain_flagged_keeps_order() {
    let kept = retain_flagged(vec![1, 2, 3, 4], &vec![true, false, true, true]);
    assert_eq!(kept, vec![1, 3, 4]);
    let none: Vec<u8> = retain_flagged(vec![], &vec![]);
    assert!(none.is_empty());
}

#[test]
fn describe_criteria_lists_parts() {
    assert_eq!(
        FilterEngine::describe_criteria(&FilterCriteria::new(), None),
        "no filters"
    );
    let criteria = FilterCriteria::new()
        .with_type("tech".to_string())
        .with_tags(vec!["rust".to_string(), "async".to_string()])
        .with_max_age_days(-2)
        .include_deleted()
        .with_query("err".to_string(), true, false);
    assert_eq!(
        FilterEngine::describe_criteria(&criteria, Some("0.80".to_string())),
        "type: tech, tags: rust, async, confidence >= 0.80, age <= -2 days, including deleted, query: 'err' (regex)"
    );
    let fts = FilterCriteria::new().with_query("err".to_string(), false, false);
    assert_eq!(
        FilterEngine::describe_criteria(&fts, None),
        "query: 'err' (FTS5)"
    );
}

#[test]
fn signed_decimals() {
    assert_eq!(signed_decimal_text(0), "0");
    assert_eq!(signed_decimal_text(-45), "-45");
    assert_eq!(signed_decimal_text(i64::MIN), "-9223372036854775808");
    assert_eq!(signed_decimal_text(i64::MAX), "9223372036854775807");
}
