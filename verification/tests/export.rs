use hail_mary::export::{
    decimal_text, export_csv, export_fields, join_strings, unknown_fields, ExportRow,
};

fn strings(v: &[&str]) -> Vec<String> {
    v.iter().map(|s| s.to_string()).collect()
}

fn row(id: &str, topic: &str, tags: &[&str], examples: &[&str]) -> ExportRow {
    ExportRow {
        id: id.to_string(),
        memory_type: "tech".to_string(),
        topic: topic.to_string(),
        tags: strings(tags),
        content: "Use \"?\" to propagate".to_string(),
        examples: strings(examples),
        reference_count: Some(12),
        confidence: Some("0.90".to_string()),
        created_at: Some("2024-01-01T00:00:00Z".to_string()),
        last_accessed: None,
        source: None,
        deleted: Some(false),
    }
}

#[test]
fn default_fields_follow_the_flags() {
    let rows = vec![row("1", "t", &[], &["ex"])];
    assert_eq!(
        export_fields(&None, &rows, false, false),
        strings(&["id", "type", "topic", "tags", "content", "examples"])
    );
    assert_eq!(
        export_fields(&None, &Vec::new(), true, true),
        strings(&[
            "id",
            "type",
            "topic",
            "tags",
            "content",
            "reference_count",
            "confidence",
            "created_at",
            "deleted"
        ])
    );
    let custom = Some(strings(&["topic", "nonsense"]));
    assert_eq!(export_fields(&custom, &rows, true, true), strings(&["topic", "nonsense"]));
}

#[test]
fn unknown_fields_are_reported() {
    assert_eq!(
        unknown_fields(&strings(&["id", "colour", "deleted", "size"])),
        strings(&["colour", "size"])
    );
}

#[test]
fn export_writes_header_and_escaped_rows() {
    let rows = vec![row("1", "Errors, briefly", &["rust", "errors"], &[])];
    let fields = strings(&["id", "topic", "tags", "content", "reference_count", "confidence", "deleted", "source", "colour"]);
    let out = export_csv(&fields, ",", &rows);
    assert_eq!(
        out,
        "id,topic,tags,content,reference_count,confidence,deleted,source,colour\n\
         1,\"Errors, briefly\",rust; errors,\"Use \"\"?\"\" to propagate\",12,0.90,false,,\n"
    );
}

#[test]
fn export_with_no_rows_is_the_header() {
    assert_eq!(export_csv(&strings(&["id", "type"]), ";", &Vec::new()), "id;type\n");
}

#[test]
fn joins_and_numbers() {
    assert_eq!(join_strings(&strings(&["a", "b", "c"]), "; "), "a; b; c");
    assert_eq!(join_strings(&Vec::new(), ","), "");
    assert_eq!(decimal_text(0), "0");
    assert_eq!(decimal_text(4_294_967_295), "4294967295");
}
