use hail_mary::analytics::{MemoryCommand, SummaryCommand, UsageCommand};
use hail_mary::memory_stats::MemoryRecord;

fn record(title: &str, refs: u32, len: usize, last: Option<i64>, deleted: bool) -> MemoryRecord {
    MemoryRecord {
        title: title.to_string(),
        memory_type: "tech".to_string(),
        reference_count: refs,
        content_len: len,
        tag_count: if refs % 2 == 0 { 1 } else { 0 },
        example_count: 0,
        created_at: 1_000_000 + refs as i64 * 1000,
        last_accessed: last,
        deleted,
    }
}

fn usage(top_count: usize) -> UsageCommand {
    UsageCommand {
        access_patterns: true,
        reference_analysis: true,
        recency_analysis: true,
        type_usage: true,
        detailed: true,
        top_count,
    }
}

fn sample() -> Vec<MemoryRecord> {
    let now = 10_000_000;
    vec![
        record("a", 0, 10, None, false),
        record("b", 1, 30, Some(now - 100), false),
        record("c", 12, 5, Some(now - 3 * 86400), false),
        record("d", 25, 50, Some(now - 10 * 86400), false),
        record("e", 7, 50, Some(now - 40 * 86400), false),
        record("f", 30, 1, Some(now), true),
    ]
}

#[test]
fn access_counts_leave_out_deleted_memories() {
    let s = sample();
    let a = usage(10).basic_access(&s, false);
    assert_eq!(a.total, 5);
    assert_eq!(a.never_accessed, 1);
    assert_eq!(a.accessed, 4);
    assert_eq!(a.total_references, 45);
    let all = usage(10).basic_access(&s, true);
    assert_eq!(all.total, 6);
    assert_eq!(all.total_references, 75);
}

#[test]
fn frequency_and_reference_classes() {
    let s = sample();
    let f = usage(10).access_frequency(&s, false);
    assert_eq!((f.never, f.rarely, f.moderately, f.heavily), (1, 1, 2, 1));
    let r = usage(10).reference_distribution(&s, false);
    assert_eq!((r.min_references, r.max_references), (0, 25));
    assert_eq!((r.single, r.multiple, r.frequent), (1, 1, 2));
}

#[test]
fn recency_classes_and_extremes() {
    let s = sample();
    let r = usage(10).recency(&s, false, 10_000_000);
    assert_eq!(r.last_day, 1);
    assert_eq!(r.last_week, 1);
    assert_eq!(r.last_month, 1);
    assert_eq!(r.stale, 1);
    assert_eq!(r.never, 1);
    assert_eq!(r.most_recent, Some(1));
    assert_eq!(r.least_recent, Some(4));
}

#[test]
fn top_referenced_is_ranked_and_capped() {
    let s = sample();
    assert_eq!(usage(10).top_referenced(&s, false), vec![3, 2, 4, 1, 0]);
    assert_eq!(usage(2).top_referenced(&s, true), vec![5, 3]);
}

#[test]
fn content_quality_counts() {
    let s = sample();
    let cmd = MemoryCommand {
        confidence_breakdown: false,
        type_distribution: false,
        quality_metrics: true,
        detailed: false,
        top_count: 10,
    };
    let q = cmd.content_quality(&s, false);
    assert_eq!(q.total, 5);
    assert_eq!(q.tagged, 2);
    assert_eq!(q.total_content, 145);
    assert_eq!((q.min_content, q.max_content), (5, 50));
    assert_eq!(q.shortest, Some(2));
    assert_eq!(q.longest, Some(4));
}

fn summary() -> SummaryCommand {
    SummaryCommand {
        detailed: true,
        include_types: true,
        include_tags: true,
        top_count: 10,
    }
}

#[test]
fn core_statistics_of_the_sample() {
    let now = 10_000_000;
    let s = summary().core_statistics(&sample(), false, now);
    assert_eq!(s.total, 5);
    assert_eq!(s.active, 5);
    assert_eq!(s.deleted, 1);
    assert_eq!(s.total_references, 45);
    // The oldest memory in scope ("a") was created at 1_000_000.
    assert_eq!(s.age_days, Some((now - 1_000_000) / 86400));
    let all = summary().core_statistics(&sample(), true, now);
    assert_eq!(all.total, 6);
    assert_eq!(all.total_references, 75);
}

#[test]
fn core_statistics_round_ages_toward_zero() {
    let mut r = sample();
    for m in r.iter_mut() {
        m.created_at = 2 * 86400 + 10;
    }
    let s = summary().core_statistics(&r, false, 0);
    assert_eq!(s.age_days, Some(-2));
    let none = summary().core_statistics(&Vec::new(), false, 0);
    assert_eq!(none.total, 0);
    assert_eq!(none.age_days, None);
}

#[test]
fn quality_counts_of_the_sample() {
    let q = summary().quality_counts(&sample(), false);
    assert_eq!(q.untagged, 3);
    assert_eq!(q.never_accessed, 1);
    let q = summary().quality_counts(&sample(), true);
    assert_eq!(q.untagged, 3);
}

#[test]
fn recent_activity_of_the_sample() {
    let now = 10_000_000;
    let a = summary().recent_activity(&sample(), false, now);
    assert_eq!(a.accessed_last_week, 2);
    assert_eq!(a.created_last_week, 0);
    assert_eq!(a.most_accessed, Some(3));
    let a = summary().recent_activity(&sample(), true, now);
    assert_eq!(a.accessed_last_week, 3);
    assert_eq!(a.most_accessed, Some(5));
    let ties = vec![record("x", 4, 1, None, false), record("y", 4, 1, None, false)];
    assert_eq!(summary().recent_activity(&ties, false, now).most_accessed, Some(1));
}
