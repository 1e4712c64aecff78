use hail_mary::tag_list::{
    tag_analytics, tag_order, tag_precedes, text_precedes, BulkTagCommand, TagListError, TagOrder,
};
use hail_mary::tag_ops::{TagOperation, TagOperationError};

fn tags(items: &[(&str, usize)]) -> Vec<(String, usize)> {
    items.iter().map(|(n, c)| (n.to_string(), *c)).collect()
}

fn options(order: TagOrder) -> BulkTagCommand {
    BulkTagCommand {
        db_path: None,
        list: true,
        rename: None,
        merge: None,
        cleanup_unused: false,
        normalize: false,
        find_similar: false,
        analytics: false,
        min_usage: None,
        max_usage: None,
        pattern: None,
        regex: false,
        dry_run: false,
        yes: false,
        backup: false,
        backup_path: None,
        verbose: false,
        quiet: false,
        sort_by_usage: order == TagOrder::ByUsage,
        sort_alphabetically: order == TagOrder::Alphabetical,
        top: None,
    }
}

fn list_tags(tags: Vec<(String, usize)>, command: &BulkTagCommand) -> Result<Vec<(String, usize)>, TagListError> {
    command.list_tags(tags)
}

#[test]
fn default_order_is_usage_then_name() {
    let input = tags(&[("zeta", 2), ("alpha", 2), ("beta", 5), ("gamma", 1)]);
    let out = list_tags(input, &options(TagOrder::ByUsageThenName)).unwrap();
    assert_eq!(out, tags(&[("beta", 5), ("alpha", 2), ("zeta", 2), ("gamma", 1)]));
}

#[test]
fn usage_order_is_stable_among_equal_counts() {
    let input = tags(&[("zeta", 2), ("alpha", 2), ("beta", 5), ("mid", 2)]);
    let out = list_tags(input, &options(TagOrder::ByUsage)).unwrap();
    assert_eq!(out, tags(&[("beta", 5), ("zeta", 2), ("alpha", 2), ("mid", 2)]));
}

#[test]
fn alphabetical_order_compares_characters() {
    let input = tags(&[("rust", 1), ("Rust", 9), ("ru", 3), ("async", 2)]);
    let out = list_tags(input, &options(TagOrder::Alphabetical)).unwrap();
    assert_eq!(out, tags(&[("Rust", 9), ("async", 2), ("ru", 3), ("rust", 1)]));
}

#[test]
fn usage_bounds_and_top_limit() {
    let input = tags(&[("a", 1), ("b", 4), ("c", 7), ("d", 10), ("e", 5)]);
    let mut o = options(TagOrder::ByUsageThenName);
    o.min_usage = Some(4);
    o.max_usage = Some(7);
    let out = list_tags(input.clone(), &o).unwrap();
    assert_eq!(out, tags(&[("c", 7), ("e", 5), ("b", 4)]));
    o.top = Some(2);
    let out = list_tags(input.clone(), &o).unwrap();
    assert_eq!(out, tags(&[("c", 7), ("e", 5)]));
    o.top = Some(0);
    assert!(list_tags(input, &o).unwrap().is_empty());
}

#[test]
fn substring_pattern_filters_names() {
    let input = tags(&[("rust-async", 3), ("python", 2), ("rust", 1), ("trust", 4)]);
    let mut o = options(TagOrder::ByUsageThenName);
    o.pattern = Some("rust".to_string());
    let out = list_tags(input, &o).unwrap();
    assert_eq!(out, tags(&[("trust", 4), ("rust-async", 3), ("rust", 1)]));
}

#[test]
fn regex_pattern_filters_names() {
    let input = tags(&[("rust-async", 3), ("python", 2), ("rust", 1), ("trust", 4)]);
    let mut o = options(TagOrder::ByUsageThenName);
    o.pattern = Some("^rust".to_string());
    o.regex = true;
    let out = list_tags(input, &o).unwrap();
    assert_eq!(out, tags(&[("rust-async", 3), ("rust", 1)]));
}

#[test]
fn invalid_regex_is_an_error_unless_there_are_no_tags() {
    let mut o = options(TagOrder::ByUsage);
    o.pattern = Some("(unclosed".to_string());
    o.regex = true;
    match list_tags(tags(&[("a", 1)]), &o) {
        Err(TagListError::InvalidPattern(message)) => assert!(!message.is_empty()),
        other => panic!("expected an invalid pattern, got {:?}", other),
    }
    assert_eq!(list_tags(Vec::new(), &o), Ok(Vec::new()));
}

#[test]
fn sort_flags_choose_the_order() {
    assert_eq!(tag_order(true, true), TagOrder::ByUsage);
    assert_eq!(tag_order(true, false), TagOrder::ByUsage);
    assert_eq!(tag_order(false, true), TagOrder::Alphabetical);
    assert_eq!(tag_order(false, false), TagOrder::ByUsageThenName);
}

#[test]
fn text_order_matches_string_order() {
    let words = ["", "a", "ab", "b", "Z", "é", "aa", "a b"];
    for x in words.iter() {
        for y in words.iter() {
            assert_eq!(text_precedes(x, y), x < y, "{:?} < {:?}", x, y);
        }
    }
}

#[test]
fn entries_precede_by_order() {
    let a = ("alpha".to_string(), 3);
    let b = ("beta".to_string(), 3);
    let c = ("gamma".to_string(), 9);
    assert!(tag_precedes(TagOrder::ByUsageThenName, &a, &b));
    assert!(!tag_precedes(TagOrder::ByUsage, &a, &b));
    assert!(!tag_precedes(TagOrder::ByUsage, &b, &a));
    assert!(tag_precedes(TagOrder::ByUsage, &c, &a));
    assert!(tag_precedes(TagOrder::Alphabetical, &a, &c));
}

#[test]
fn analytics_of_no_tags_is_none() {
    assert!(tag_analytics(Vec::new()).is_none());
}

#[test]
fn analytics_counts_and_middles() {
    let input = tags(&[("a", 1), ("b", 12), ("c", 3), ("d", 1), ("e", 10)]);
    let a = tag_analytics(input).unwrap();
    assert_eq!(a.total_tags, 5);
    assert_eq!(a.total_usage, 27);
    assert_eq!(a.max_usage, 12);
    assert_eq!(a.min_usage, 1);
    assert_eq!((a.first_middle_usage, a.second_middle_usage), (3, 3));
    assert_eq!(a.single_use, 2);
    assert_eq!(a.low_use, 3);
    assert_eq!(a.high_use, 2);
    assert_eq!(a.by_usage, tags(&[("b", 12), ("e", 10), ("c", 3), ("a", 1), ("d", 1)]));
    assert!(a.suggests_reviewing_single_use());
    assert!(!a.suggests_more_specific_tags());
}

#[test]
fn analytics_even_count_has_two_middles() {
    let input = tags(&[("a", 4), ("b", 2), ("c", 8), ("d", 6)]);
    let a = tag_analytics(input).unwrap();
    assert_eq!((a.first_middle_usage, a.second_middle_usage), (6, 4));
    assert!(!a.suggests_reviewing_single_use());
    assert!(!a.suggests_more_specific_tags());
}

#[test]
fn command_flags_choose_operation_and_order() {
    let mut c = options(TagOrder::ByUsageThenName);
    assert_eq!(c.operation(), Ok(TagOperation::List));
    assert_eq!(c.order(), TagOrder::ByUsageThenName);
    c.merge = Some(vec!["a".to_string(), "b".to_string()]);
    assert_eq!(c.operation(), Err(TagOperationError::MultipleOperations));
    c.list = false;
    assert_eq!(c.operation(), Ok(TagOperation::Merge));
    c.sort_alphabetically = true;
    assert_eq!(c.order(), TagOrder::Alphabetical);
    c.sort_by_usage = true;
    assert_eq!(c.order(), TagOrder::ByUsage);
}
