use hail_mary::options::{import_format_for, ImportFormat};
use hail_mary::csv::parse_import_csv;

#[test]
fn reads_records_with_quotes_lists_and_numbers() {
    let text = "id,topic,content,tags,reference_count,confidence\n\
                a1,Rust,\"Use \"\"match\"\"\",rust; lang ,7,0.9\n\
                ,Go,Goroutines,,x,\n";
    let result = parse_import_csv(text, ",");
    assert!(result.missing_field.is_none());
    assert!(result.skipped_rows.is_empty());
    assert_eq!(result.records.len(), 2);
    let first = &result.records[0];
    assert_eq!(first.id.as_deref(), Some("a1"));
    assert_eq!(first.topic, "Rust");
    assert_eq!(first.content, "Use \"match\"");
    assert_eq!(first.tags, vec!["rust".to_string(), "lang".to_string()]);
    assert_eq!(first.reference_count, Some(7));
    assert_eq!(first.confidence.as_deref(), Some("0.9"));
    let second = &result.records[1];
    assert_eq!(second.id, None);
    assert!(second.tags.is_empty());
    assert_eq!(second.reference_count, None);
    assert_eq!(second.confidence.as_deref(), Some(""));
}

#[test]
fn reports_missing_required_columns() {
    let result = parse_import_csv("id,content\n1,x\n", ",");
    assert_eq!(result.missing_field.as_deref(), Some("topic"));
    assert!(result.records.is_empty());

    let result = parse_import_csv("topic,tags\nx,y\n", ",");
    assert_eq!(result.missing_field.as_deref(), Some("content"));
    assert!(result.records.is_empty());
}

#[test]
fn skips_blank_and_malformed_lines() {
    let text = "topic;content\r\n\r\n  \nonly-one\nT;C\n";
    let result = parse_import_csv(text, ";");
    assert_eq!(result.skipped_rows, vec!["only-one".to_string()]);
    assert_eq!(result.records.len(), 1);
    assert_eq!(result.records[0].topic, "T");
    assert_eq!(result.records[0].content, "C");
}

#[test]
fn empty_text_gives_nothing() {
    let result = parse_import_csv("", ",");
    assert!(result.records.is_empty());
    assert!(result.missing_field.is_none());
}

#[test]
fn later_columns_override_earlier_ones() {
    let result = parse_import_csv("topic,content,topic,examples\nA,B,C,e1;e2\n", ",");
    assert_eq!(result.records[0].topic, "C");
    assert_eq!(result.records[0].examples, vec!["e1".to_string(), "e2".to_string()]);
}

#[test]
fn import_format_from_flag_or_extension() {
    assert_eq!(import_format_for(Some(ImportFormat::Csv), "data.json"), (ImportFormat::Csv, false));
    assert_eq!(import_format_for(None, "dir/data.json"), (ImportFormat::Json, false));
    assert_eq!(import_format_for(None, "data.csv"), (ImportFormat::Csv, false));
    assert_eq!(import_format_for(None, "data.txt"), (ImportFormat::Json, true));
    assert_eq!(import_format_for(None, "README"), (ImportFormat::Json, true));
    assert_eq!(import_format_for(None, ".csv"), (ImportFormat::Json, true));
}

#[test]
fn test_import_format_detection() {
    let format = import_format_for(None, "test.json").0;
    assert!(matches!(format, ImportFormat::Json));
}

#[test]
fn test_csv_parsing() {
    let csv_content = r#"id,type,topic,tags,content,confidence
test-1,tech,"Rust Async","rust;async","Async programming in Rust",0.9
test-2,domain,"Database Design","database;sql","Database design principles",0.8"#;

    let memories = parse_import_csv(csv_content, ",").records;
    assert_eq!(memories.len(), 2);
    assert_eq!(memories[0].topic, "Rust Async");
    assert_eq!(memories[0].tags, vec!["rust", "async"]);
    assert_eq!(
        memories[0]
            .confidence
            .as_deref()
            .map(|c| c.parse::<f32>().unwrap()),
        Some(0.9)
    );
}
