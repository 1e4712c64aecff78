use hail_mary::tag_codec::{join_tags, parse_tags};

fn strings(items: &[&str]) -> Vec<String> {
    items.iter().map(|s| s.to_string()).collect()
}

#[test]
fn tags_are_joined_with_commas() {
    assert_eq!(join_tags(&strings(&["rust", "async", "tokio"])), "rust,async,tokio");
    assert_eq!(join_tags(&strings(&["one"])), "one");
    assert_eq!(join_tags(&Vec::new()), "");
    assert_eq!(join_tags(&strings(&["a", ""])), "a,");
}

#[test]
fn columns_are_split_and_trimmed() {
    assert_eq!(parse_tags("rust, async ,tokio"), strings(&["rust", "async", "tokio"]));
    assert_eq!(parse_tags(""), Vec::<String>::new());
    assert_eq!(parse_tags(" "), strings(&[""]));
    assert_eq!(parse_tags("a,,b,"), strings(&["a", "", "b", ""]));
}

#[test]
fn stored_tags_read_back_the_same() {
    for tags in [
        strings(&["rust", "async"]),
        strings(&["日本語", "データベース"]),
        strings(&["x", "", "y"]),
        Vec::new(),
    ] {
        assert_eq!(parse_tags(&join_tags(&tags)), tags);
    }
}

#[test]
fn a_single_empty_tag_reads_back_as_none() {
    assert_eq!(parse_tags(&join_tags(&strings(&[""]))), Vec::<String>::new());
}
