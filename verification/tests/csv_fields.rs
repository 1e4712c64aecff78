use hail_mary::csv::{decode_csv_value, escape_csv_field};
use hail_mary::options::ExportFormat;

#[test]
fn test_escape_csv_field() {
    assert_eq!(escape_csv_field("simple", ","), "simple");
    assert_eq!(escape_csv_field("has, comma", ","), "\"has, comma\"");
    assert_eq!(
        escape_csv_field("has \"quotes\"", ","),
        "\"has \"\"quotes\"\"\""
    );
    assert_eq!(escape_csv_field("has\nnewline", ","), "\"has\nnewline\"");
}

#[test]
fn test_export_format_enum() {
    let formats = [ExportFormat::Json, ExportFormat::Csv];
    assert_eq!(formats.len(), 2);
}

#[test]
fn escape_uses_the_given_delimiter() {
    assert_eq!(escape_csv_field("a;b", ";"), "\"a;b\"");
    assert_eq!(escape_csv_field("a,b", ";"), "a,b");
    assert_eq!(escape_csv_field("cr\rhere", ";"), "\"cr\rhere\"");
}

#[test]
fn decode_reads_back_escaped_fields() {
    for field in ["simple", "has, comma", "has \"quotes\"", "\"", "line\nbreak"] {
        assert_eq!(decode_csv_value(&escape_csv_field(field, ",")), field);
    }
}

#[test]
fn decode_trims_and_unquotes() {
    assert_eq!(decode_csv_value("  plain  "), "plain");
    assert_eq!(decode_csv_value(" \"a \"\"b\"\"\" "), "a \"b\"");
    assert_eq!(decode_csv_value("\""), "\"");
    assert_eq!(decode_csv_value("\"\""), "");
}
