use hail_mary::analytics::SummaryCommand;
use hail_mary::memory_stats::MemoryRecord;
use hail_mary::type_stats::type_groups;

fn record(memory_type: &str, refs: u32, len: usize, tags: usize, deleted: bool) -> MemoryRecord {
    MemoryRecord {
        title: format!("{}-{}", memory_type, refs),
        memory_type: memory_type.to_string(),
        reference_count: refs,
        content_len: len,
        tag_count: tags,
        example_count: 0,
        created_at: 0,
        last_accessed: None,
        deleted,
    }
}

fn sample() -> Vec<MemoryRecord> {
    vec![
        record("tech", 3, 100, 1, false),
        record("domain", 0, 40, 0, false),
        record("tech", 0, 20, 0, false),
        record("workflow", 9, 10, 2, true),
        record("tech", 5, 60, 3, false),
        record("domain", 2, 80, 1, false),
        record("decision", 1, 5, 0, false),
    ]
}

#[test]
fn groups_follow_first_appearance() {
    let groups = type_groups(&sample(), false);
    let names: Vec<&str> = groups.iter().map(|g| g.memory_type.as_str()).collect();
    assert_eq!(names, vec!["tech", "domain", "decision"]);
    let with_deleted = type_groups(&sample(), true);
    let names: Vec<&str> = with_deleted.iter().map(|g| g.memory_type.as_str()).collect();
    assert_eq!(names, vec!["tech", "domain", "workflow", "decision"]);
}

#[test]
fn group_counts_of_one_type() {
    let groups = type_groups(&sample(), false);
    let tech = &groups[0];
    assert_eq!(tech.count, 3);
    assert_eq!(tech.total_references, 8);
    assert_eq!(tech.never_accessed, 1);
    assert_eq!(tech.tagged, 2);
    assert_eq!(tech.total_content, 180);
    assert_eq!(tech.min_content, 20);
    assert_eq!(tech.max_content, 100);
    assert_eq!(tech.average_references(), 2);
    let domain = &groups[1];
    assert_eq!((domain.count, domain.total_references, domain.never_accessed), (2, 2, 1));
    assert_eq!((domain.min_content, domain.max_content), (40, 80));
}

#[test]
fn no_records_no_groups() {
    assert!(type_groups(&Vec::new(), true).is_empty());
    let only_deleted = vec![record("tech", 1, 1, 0, true)];
    assert!(type_groups(&only_deleted, false).is_empty());
}

#[test]
fn type_distribution_is_most_frequent_first() {
    let summary = SummaryCommand {
        detailed: false,
        include_types: true,
        include_tags: false,
        top_count: 2,
    };
    let groups = type_groups(&sample(), true);
    let top = summary.type_distribution(&groups);
    assert_eq!(top, vec![("tech".to_string(), 3), ("domain".to_string(), 2)]);
    let all = SummaryCommand { top_count: 10, ..summary };
    let every = all.type_distribution(&groups);
    assert_eq!(
        every,
        vec![
            ("tech".to_string(), 3),
            ("domain".to_string(), 2),
            ("workflow".to_string(), 1),
            ("decision".to_string(), 1)
        ]
    );
}
