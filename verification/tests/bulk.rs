use hail_mary::bulk::{
    answer_agrees, next_step, BulkProgress, BulkStep, SafetyOptions, UpdateOperations,
};

fn options(dry_run: bool, yes: bool, backup: bool, quiet: bool) -> SafetyOptions {
    SafetyOptions {
        dry_run,
        yes,
        backup,
        quiet,
    }
}

fn progress(targets: usize, backed_up: bool, confirmed: bool) -> BulkProgress {
    BulkProgress {
        targets,
        backed_up,
        confirmed,
    }
}

#[test]
fn nothing_to_do_without_targets() {
    assert_eq!(
        next_step(options(true, true, true, true), progress(0, false, false)),
        BulkStep::NothingToDo
    );
}

#[test]
fn dry_run_previews() {
    assert_eq!(
        next_step(options(true, false, true, false), progress(3, false, false)),
        BulkStep::Preview
    );
}

#[test]
fn full_flow_backs_up_then_asks_then_performs() {
    let o = options(false, false, true, false);
    let mut p = progress(2, false, false);
    assert_eq!(next_step(o, p), BulkStep::Backup);
    p.backed_up = true;
    assert_eq!(next_step(o, p), BulkStep::Confirm);
    p.confirmed = true;
    assert_eq!(next_step(o, p), BulkStep::Perform);
}

#[test]
fn yes_or_quiet_skip_the_question() {
    assert_eq!(
        next_step(options(false, true, false, false), progress(1, false, false)),
        BulkStep::Perform
    );
    assert_eq!(
        next_step(options(false, false, false, true), progress(1, false, false)),
        BulkStep::Perform
    );
    assert_eq!(
        next_step(options(false, false, false, false), progress(1, false, false)),
        BulkStep::Confirm
    );
}

#[test]
fn answers() {
    assert!(answer_agrees("y"));
    assert!(answer_agrees("  Yes\n"));
    assert!(answer_agrees("YUP"));
    assert!(!answer_agrees("n"));
    assert!(!answer_agrees(""));
    assert!(!answer_agrees("   "));
    assert!(!answer_agrees("okay y"));
}

#[test]
fn update_operations_describe() {
    let none = UpdateOperations {
        add_tags: None,
        remove_tags: None,
        set_confidence: None,
        set_type: None,
        set_source: None,
    };
    assert!(!none.has_operations());
    assert!(none.describe().is_empty());

    let all = UpdateOperations {
        add_tags: Some(vec!["a".to_string(), "b".to_string()]),
        remove_tags: Some(vec!["c".to_string()]),
        set_confidence: Some("0.90".to_string()),
        set_type: Some("tech".to_string()),
        set_source: Some("docs".to_string()),
    };
    assert!(all.has_operations());
    assert_eq!(
        all.describe(),
        vec![
            "Add tags: a, b".to_string(),
            "Remove tags: c".to_string(),
            "Set confidence: 0.90".to_string(),
            "Set type: tech".to_string(),
            "Set source: docs".to_string(),
        ]
    );
    let source_only = UpdateOperations {
        set_source: Some("x".to_string()),
        ..none
    };
    assert!(source_only.has_operations());
    assert_eq!(source_only.describe(), vec!["Set source: x".to_string()]);
}
