use hail_mary::distribution::{count_texts, ranked_counts};
use hail_mary::vocabulary::{
    analyze_vocabulary, common_tags, document_words, vocabulary_counts, vocabulary_word,
};

fn strings(v: &[&str]) -> Vec<String> {
    v.iter().map(|s| s.to_string()).collect()
}

fn pair(a: &str, b: &str) -> (String, String) {
    (a.to_string(), b.to_string())
}

fn entry<'a>(v: &'a [(String, usize)], key: &str) -> Option<usize> {
    v.iter().find(|(k, _)| k == key).map(|(_, n)| *n)
}

#[test]
fn vocabulary_word_lowercases_and_strips_punctuation() {
    assert_eq!(vocabulary_word("Rust,"), "rust");
    assert_eq!(vocabulary_word("(Async)"), "async");
    assert_eq!(vocabulary_word("--"), "");
    assert_eq!(vocabulary_word("don't!"), "don't");
    assert_eq!(vocabulary_word("ÉCOLE."), "école");
}

#[test]
fn document_words_keep_words_longer_than_two_bytes() {
    assert_eq!(
        document_words("The Rust book", "is an intro: to ownership!"),
        strings(&["the", "rust", "book", "intro", "ownership"])
    );
    // Two characters but four bytes: kept, as the length is counted in bytes.
    assert_eq!(document_words("é é", "ée"), strings(&["ée"]));
    assert_eq!(document_words("", ""), Vec::<String>::new());
}

#[test]
fn vocabulary_counts_documents_and_totals() {
    let docs = vec![
        pair("Rust rust", "memory safety"),
        pair("Go", "memory model"),
        pair("", ""),
    ];
    let v = vocabulary_counts(&docs);
    let words: Vec<&str> = v.iter().map(|e| e.word.as_str()).collect();
    assert_eq!(words, vec!["rust", "memory", "safety", "model"]);
    let rust = &v[0];
    assert_eq!((rust.document_count, rust.total_count), (1, 2));
    let memory = &v[1];
    assert_eq!((memory.document_count, memory.total_count), (2, 2));
    assert_eq!((v[3].document_count, v[3].total_count), (1, 1));
}

#[test]
fn count_texts_counts_each_text_once() {
    let d = count_texts(&strings(&["a", "b", "a", "c", "a"]));
    assert_eq!(
        d,
        vec![
            ("a".to_string(), 3),
            ("b".to_string(), 1),
            ("c".to_string(), 1)
        ]
    );
    assert!(count_texts(&vec![]).is_empty());
}

#[test]
fn ranked_counts_sorts_filters_and_truncates() {
    let d = vec![
        ("x".to_string(), 1),
        ("y".to_string(), 3),
        ("z".to_string(), 2),
        ("w".to_string(), 3),
    ];
    assert_eq!(
        ranked_counts(d.clone(), 2, 2),
        vec![("y".to_string(), 3), ("w".to_string(), 3)]
    );
    assert_eq!(
        ranked_counts(d, 0, 10),
        vec![
            ("y".to_string(), 3),
            ("w".to_string(), 3),
            ("z".to_string(), 2),
            ("x".to_string(), 1)
        ]
    );
}

#[test]
fn common_tags_need_two_occurrences() {
    let tags = vec![
        strings(&["rust", "async"]),
        strings(&["rust", "web"]),
        strings(&["async", "rust"]),
        strings(&["solo"]),
    ];
    let common = common_tags(&tags);
    assert_eq!(
        common,
        vec![("rust".to_string(), 3), ("async".to_string(), 2)]
    );
    assert!(common_tags(&vec![strings(&["a"]), strings(&["b"])]).is_empty());
}

#[test]
fn analyze_vocabulary_counts_words_and_tags() {
    let docs = vec![pair("Rust ownership", "rust borrows"), pair("Go", "goroutines")];
    let tags = vec![strings(&["lang", "rust"]), strings(&["lang"])];
    let a = analyze_vocabulary(&docs, &tags);
    assert_eq!(a.total_memories, 2);
    assert_eq!(a.total_words, 5);
    assert_eq!(a.unique_words, 4);
    assert_eq!(a.top_words[0], ("rust".to_string(), 2));
    assert_eq!(entry(&a.top_words, "goroutines"), Some(1));
    assert_eq!(a.top_tags[0], ("lang".to_string(), 2));
    assert_eq!(a.top_tags.len(), 2);
}
