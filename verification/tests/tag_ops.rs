use hail_mary::tag_ops::{merge_renames, select_tag_operation, MergeError, TagOperation, TagOperationError};

#[test]
fn exactly_one_operation_is_chosen() {
    assert_eq!(
        select_tag_operation(true, false, false, false, false, false, false),
        Ok(TagOperation::List)
    );
    assert_eq!(
        select_tag_operation(false, true, false, false, false, false, false),
        Ok(TagOperation::Rename)
    );
    assert_eq!(
        select_tag_operation(false, false, true, false, false, false, false),
        Ok(TagOperation::Merge)
    );
    assert_eq!(
        select_tag_operation(false, false, false, true, false, false, false),
        Ok(TagOperation::CleanupUnused)
    );
    assert_eq!(
        select_tag_operation(false, false, false, false, true, false, false),
        Ok(TagOperation::Normalize)
    );
    assert_eq!(
        select_tag_operation(false, false, false, false, false, true, false),
        Ok(TagOperation::FindSimilar)
    );
    assert_eq!(
        select_tag_operation(false, false, false, false, false, false, true),
        Ok(TagOperation::Analytics)
    );
}

#[test]
fn no_operation_or_several_is_an_error() {
    assert_eq!(
        select_tag_operation(false, false, false, false, false, false, false),
        Err(TagOperationError::NoOperation)
    );
    assert_eq!(
        select_tag_operation(true, false, false, false, false, false, true),
        Err(TagOperationError::MultipleOperations)
    );
    assert_eq!(
        select_tag_operation(true, true, true, true, true, true, true),
        Err(TagOperationError::MultipleOperations)
    );
}

#[test]
fn merge_renames_skip_the_target() {
    let tags: Vec<String> = ["rust", "Rust", "rust", "rustlang"].iter().map(|s| s.to_string()).collect();
    assert_eq!(merge_renames(&tags), Ok(vec!["Rust".to_string(), "rustlang".to_string()]));
}

#[test]
fn merge_needs_two_tags() {
    assert_eq!(merge_renames(&vec!["only".to_string()]), Err(MergeError::TooFewTags));
    assert_eq!(merge_renames(&Vec::new()), Err(MergeError::TooFewTags));
    assert_eq!(merge_renames(&vec!["a".to_string(), "a".to_string()]), Ok(Vec::new()));
}
