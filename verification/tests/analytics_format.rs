use hail_mary::analytics::{
    get_command_description, AnalyticsSubcommand, DefaultAnalyticsFormatter, HealthCommand,
    MetricRow, OutputFormat,
};

fn strings(v: &[&str]) -> Vec<String> {
    v.iter().map(|s| s.to_string()).collect()
}

#[test]
fn csv_joins_cells_with_commas() {
    let f = DefaultAnalyticsFormatter;
    let out = f.format_csv(
        &strings(&["Metric", "Value"]),
        &vec![strings(&["a", "1"]), strings(&["b"])],
    );
    assert_eq!(out, "Metric,Value\na,1\nb\n");
}

#[test]
fn table_pads_columns_to_the_widest_cell() {
    let f = DefaultAnalyticsFormatter;
    let out = f.format_table(
        &strings(&["Name", "N"]),
        &vec![strings(&["alpha", "10", "extra"]), strings(&["b"])],
    );
    assert_eq!(out, "Name   N   \n-----------\nalpha  10  \nb      \n");
}

#[test]
fn subcommand_titles() {
    let health = AnalyticsSubcommand::Health(HealthCommand {
        data_quality: true,
        consistency_checks: false,
        orphaned_data: false,
    });
    assert_eq!(get_command_description(&health), "Database Health & Data Quality");
}

fn metric_row(name: &str, value: &str, unit: Option<&str>) -> MetricRow {
    MetricRow {
        name: name.to_string(),
        value: value.to_string(),
        unit: unit.map(|u| u.to_string()),
    }
}

#[test]
fn metrics_in_each_format() {
    let f = DefaultAnalyticsFormatter;
    let ms = vec![
        metric_row("Total Memories", "12", Some("count")),
        metric_row("Average", "0.75", None),
    ];
    assert_eq!(
        f.format_metrics(&ms, OutputFormat::Table),
        Some(format!("{:<30} 12\n{:<30} 0.75\n", "Total Memories", "Average"))
    );
    assert_eq!(
        f.format_metrics(&ms, OutputFormat::Csv),
        Some("Metric,Value,Unit\nTotal Memories,12,count\nAverage,0.75,\n".to_string())
    );
    assert_eq!(
        f.format_metrics(&ms, OutputFormat::Markdown),
        Some(
            "| Metric | Value | Unit |\n|--------|-------|------|\n| Total Memories | 12 | count |\n| Average | 0.75 |  |\n"
                .to_string()
        )
    );
    assert_eq!(f.format_metrics(&ms, OutputFormat::Json), None);
    assert_eq!(f.format_metrics(&vec![], OutputFormat::Table), Some(String::new()));
    let long = vec![metric_row("A name that is longer than thirty chars", "1", None)];
    assert_eq!(
        f.format_metrics(&long, OutputFormat::Table),
        Some("A name that is longer than thirty chars 1\n".to_string())
    );
}
