use hail_mary::merge::{keep_index, merge_into, union_with, MergeCandidate};
use hail_mary::options::MergeStrategy;

fn strings(v: &[&str]) -> Vec<String> {
    v.iter().map(|s| s.to_string()).collect()
}

fn candidate(content: &str, tags: &[&str], refs: u32, created: i64, accessed: Option<i64>) -> MergeCandidate {
    MergeCandidate {
        content: content.to_string(),
        tags: strings(tags),
        examples: Vec::new(),
        reference_count: refs,
        created_at: created,
        last_accessed: accessed,
    }
}

#[test]
fn strategies_choose_the_base() {
    let a = candidate("a", &[], 3, 100, None);
    let b = candidate("b", &[], 5, 200, None);
    assert_eq!(keep_index(MergeStrategy::Newer, &a, &b, false), 1);
    assert_eq!(keep_index(MergeStrategy::Older, &a, &b, false), 0);
    assert_eq!(keep_index(MergeStrategy::Older, &b, &a, false), 1);
    assert_eq!(keep_index(MergeStrategy::References, &a, &b, false), 1);
    assert_eq!(keep_index(MergeStrategy::References, &b, &a, false), 0);
    assert_eq!(keep_index(MergeStrategy::Confidence, &a, &b, true), 1);
    assert_eq!(keep_index(MergeStrategy::Smart, &a, &b, false), 0);
}

#[test]
fn merging_combines_content_tags_and_dates() {
    let a = candidate("Rust ownership", &["rust", "memory"], 3, 100, Some(500));
    let b = candidate("Borrowing rules", &["memory", "borrow", "borrow"], 4, 50, Some(900));
    let m = merge_into(&a, &b, false);
    assert_eq!(m.content, "Rust ownership\n\n## Merged Content:\nBorrowing rules");
    assert_eq!(m.tags, strings(&["rust", "memory", "borrow"]));
    assert_eq!(m.reference_count, 7);
    assert_eq!(m.created_at, 50);
    assert_eq!(m.last_accessed, Some(900));
}

#[test]
fn contained_content_is_not_repeated() {
    let a = candidate("Rust ownership and borrowing", &[], 1, 100, None);
    let b = candidate("ownership", &[], 1, 100, Some(7));
    let m = merge_into(&a, &b, false);
    assert_eq!(m.content, "Rust ownership and borrowing");
    assert_eq!(m.last_accessed, Some(7));
    let kept_second = merge_into(&a, &b, true);
    assert_eq!(kept_second.content, "ownership");
    assert_eq!(kept_second.reference_count, 2);
}

#[test]
fn union_keeps_base_then_new_ones() {
    assert_eq!(
        union_with(&strings(&["a", "b"]), &strings(&["b", "c", "a", "c"])),
        strings(&["a", "b", "c"])
    );
    assert_eq!(union_with(&Vec::new(), &strings(&["x", "x"])), strings(&["x"]));
}

#[test]
fn test_merge_strategy() {
    let memory1_confidence: f32 = 0.8;
    let memory1 = candidate("Content 1", &[], 5, 1000, None);
    let memory2_confidence: f32 = 0.9;
    let memory2 = candidate("Content 2", &[], 3, 2000, None);

    let second_scores_higher = memory2_confidence > memory1_confidence;
    let keep_idx = keep_index(
        MergeStrategy::Confidence,
        &memory1,
        &memory2,
        second_scores_higher,
    );
    let merged = merge_into(&memory1, &memory2, keep_idx == 1);
    assert_eq!(keep_idx, 1); // Should keep memory2 (higher confidence)
    assert!(merged.content.contains("Content 2"));
}
