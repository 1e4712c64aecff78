use hail_mary::analytics::SummaryCommand;
use hail_mary::options::SortBy;
use hail_mary::use_cases::ReindexStats;

#[test]
fn test_reindex_stats_default() {
    let stats = ReindexStats::default();
    assert_eq!(stats.deleted_entries, 0);
    assert!(!stats.index_rebuilt);
    assert!(!stats.database_optimized);
}

#[test]
fn test_summary_command_creation() {
    let cmd = SummaryCommand {
        detailed: true,
        include_types: true,
        include_tags: true,
        top_count: 5,
    };

    assert!(cmd.detailed);
    assert!(cmd.include_types);
    assert!(cmd.include_tags);
    assert_eq!(cmd.top_count, 5);
}

#[test]
fn test_sort_by_enum() {
    let sort_options = [
        SortBy::Relevance,
        SortBy::Created,
        SortBy::Modified,
        SortBy::Confidence,
        SortBy::References,
        SortBy::Topic,
    ];

    assert_eq!(sort_options.len(), 6);
}
