use hail_mary::analytics::{
    parse_date, AnalyticsCommand, AnalyticsError, AnalyticsSubcommand, HealthCommand, OutputFormat,
};

#[test]
fn test_parse_date() {
    assert!(parse_date("2024-01-01").is_ok());
    assert!(parse_date("invalid-date").is_err());
}

#[test]
fn dates_are_midnight_utc() {
    assert_eq!(parse_date("1970-01-01"), Ok(0));
    assert_eq!(parse_date("2024-01-01"), Ok(1_704_067_200));
    assert_eq!(parse_date("2024-02-30"), Err(AnalyticsError::InvalidDate("2024-02-30".to_string())));
}

fn command(from: Option<&str>, to: Option<&str>) -> AnalyticsCommand {
    AnalyticsCommand {
        db_path: None,
        format: OutputFormat::Table,
        export: None,
        from_date: from.map(|s| s.to_string()),
        to_date: to.map(|s| s.to_string()),
        include_deleted: false,
        verbose: false,
        quiet: false,
        command: AnalyticsSubcommand::Health(HealthCommand {
            data_quality: false,
            consistency_checks: false,
            orphaned_data: false,
        }),
    }
}

#[test]
fn time_range_leaves_bad_dates_open() {
    let r = command(Some("2024-01-01"), Some("nonsense")).time_range();
    assert_eq!(r.start, Some(1_704_067_200));
    assert_eq!(r.end, None);
    let r = command(None, Some("1970-01-02")).time_range();
    assert_eq!(r.start, None);
    assert_eq!(r.end, Some(86_400));
}
