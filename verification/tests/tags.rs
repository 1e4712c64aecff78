use hail_mary::tags::{group_similar_tags, levenshtein_distance, TagInfo};

#[test]
fn test_tag_info() {
    let tag_info = TagInfo::new("rust".to_string(), 5);
    assert_eq!(tag_info.name, "rust");
    assert_eq!(tag_info.usage_count, 5);
    assert!(tag_info.similar_tags.is_empty());

    let tag_info_with_similar = tag_info.with_similar(vec!["rust-lang".to_string()]);
    assert_eq!(tag_info_with_similar.similar_tags.len(), 1);
}

#[test]
fn test_levenshtein_distance() {
    assert_eq!(levenshtein_distance("", ""), 0);
    assert_eq!(levenshtein_distance("a", ""), 1);
    assert_eq!(levenshtein_distance("", "a"), 1);
    assert_eq!(levenshtein_distance("abc", "abc"), 0);
    assert_eq!(levenshtein_distance("abc", "ab"), 1);
    assert_eq!(levenshtein_distance("abc", "def"), 3);
}

#[test]
fn levenshtein_known_values() {
    assert_eq!(levenshtein_distance("kitten", "sitting"), 3);
    assert_eq!(levenshtein_distance("rust", "rust-lang"), 5);
    assert_eq!(levenshtein_distance("flaw", "lawn"), 2);
}

#[test]
fn levenshtein_is_symmetric_and_counts_characters() {
    assert_eq!(
        levenshtein_distance("python", "rust"),
        levenshtein_distance("rust", "python")
    );
    assert_eq!(levenshtein_distance("é", ""), 1);
    assert_eq!(levenshtein_distance("naïve", "naive"), 1);
}

fn similarity_matrix(tags: &[String], threshold: f64) -> Vec<Vec<bool>> {
    tags.iter()
        .map(|a| {
            tags.iter()
                .map(|b| {
                    let max_len = a.chars().count().max(b.chars().count());
                    let ratio = if max_len == 0 {
                        1.0
                    } else {
                        1.0 - levenshtein_distance(a, b) as f64 / max_len as f64
                    };
                    ratio >= threshold
                })
                .collect()
        })
        .collect()
}

#[test]
fn similar_tags_are_grouped_once() {
    let tags: Vec<String> = ["rust", "rusty", "python", "pyton", "go", "rust"]
        .iter()
        .map(|t| t.to_string())
        .collect();
    let similar = similarity_matrix(&tags, 0.7);
    let groups = group_similar_tags(&tags, &similar);
    assert_eq!(
        groups,
        vec![
            vec!["rust".to_string(), "rusty".to_string()],
            vec!["python".to_string(), "pyton".to_string()],
        ]
    );
}

#[test]
fn grouping_follows_the_given_similarities() {
    let tags: Vec<String> = ["a", "b", "c"].iter().map(|t| t.to_string()).collect();
    let similar = vec![
        vec![false, false, true],
        vec![true, false, false],
        vec![false, false, false],
    ];
    // "a" groups with "c"; "b" is similar to "a" but "a" is taken and "b"
    // starts its own group; "c" is already grouped.
    assert_eq!(
        group_similar_tags(&tags, &similar),
        vec![
            vec!["a".to_string(), "c".to_string()],
            vec!["b".to_string(), "a".to_string()],
        ]
    );
    assert!(group_similar_tags(&vec![], &vec![]).is_empty());
}
