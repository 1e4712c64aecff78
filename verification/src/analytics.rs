//! Analytics of the memory database: the subcommands and their options, and
//! the plain-text table and comma-separated renderings of their results.

use vstd::prelude::*;
use vstd::string::StringExecFns;
use vstd::utf8::encode_utf8;
use crate::config::texts;
use crate::export::{join_with, text_or_empty};
use crate::text::{append_str, push_char};

verus! {

/// The output formats of analytics results.
#[derive(Debug, Clone, Copy, PartialEq, Eq, Structural)]
pub enum OutputFormat {
    /// Human-readable table.
    Table,
    /// JSON for programs.
    Json,
    /// Comma-separated values for spreadsheets.
    Csv,
    /// Markdown for documentation.
    Markdown,
}

/// A time range that analytics may be restricted to, as Unix timestamps.
#[derive(Debug, Clone, Copy, PartialEq, Eq, Structural)]
pub struct TimeRange {
    pub start: Option<i64>,
    pub end: Option<i64>,
}

/// Options of the database summary.
#[derive(Debug, Clone, Copy, PartialEq, Eq, Structural)]
pub struct SummaryCommand {
    pub detailed: bool,
    pub include_types: bool,
    pub include_tags: bool,
    pub top_count: usize,
}

/// Options of the memory type and confidence analysis.
#[derive(Debug, Clone, Copy, PartialEq, Eq, Structural)]
pub struct MemoryCommand {
    pub confidence_breakdown: bool,
    pub type_distribution: bool,
    pub quality_metrics: bool,
    pub detailed: bool,
    pub top_count: usize,
}

/// Options of the usage analysis.
#[derive(Debug, Clone, Copy, PartialEq, Eq, Structural)]
pub struct UsageCommand {
    pub access_patterns: bool,
    pub reference_analysis: bool,
    pub recency_analysis: bool,
    pub type_usage: bool,
    pub detailed: bool,
    pub top_count: usize,
}

/// Options of the content analysis.
#[derive(Debug, Clone, Copy, PartialEq, Eq, Structural)]
pub struct ContentCommand {
    pub complexity_analysis: bool,
    pub length_distribution: bool,
    pub language_analysis: bool,
}

/// Options of the performance analysis.
#[derive(Debug, Clone, Copy, PartialEq, Eq, Structural)]
pub struct PerformanceCommand {
    pub query_performance: bool,
    pub index_analysis: bool,
    pub storage_optimization: bool,
}

/// Options of the health analysis.
#[derive(Debug, Clone, Copy, PartialEq, Eq, Structural)]
pub struct HealthCommand {
    pub data_quality: bool,
    pub consistency_checks: bool,
    pub orphaned_data: bool,
}

/// Options of the trends analysis.
#[derive(Debug, Clone)]
pub struct TrendsCommand {
    pub creation_trends: bool,
    pub access_trends: bool,
    pub growth_patterns: bool,
    pub time_grouping: String,
}

/// The analytics subcommands.
#[derive(Debug, Clone)]
pub enum AnalyticsSubcommand {
    Summary(SummaryCommand),
    Memory(MemoryCommand),
    Usage(UsageCommand),
    Content(ContentCommand),
    Performance(PerformanceCommand),
    Health(HealthCommand),
    Trends(TrendsCommand),
}

/// The analytics command with its global options.
#[derive(Debug, Clone)]
pub struct AnalyticsCommand {
    pub db_path: Option<String>,
    pub format: OutputFormat,
    pub export: Option<String>,
    pub from_date: Option<String>,
    pub to_date: Option<String>,
    pub include_deleted: bool,
    pub verbose: bool,
    pub quiet: bool,
    pub command: AnalyticsSubcommand,
}

/// The Unix timestamp of midnight UTC on the date that
/// `chrono::NaiveDate::parse_from_str` reads from `text` with the format
/// `%Y-%m-%d`, or `None` when it reads no date.
pub uninterp spec fn utc_midnight(text: Seq<char>) -> Option<i64>;

/// Reads a date with `chrono::NaiveDate::parse_from_str(text, "%Y-%m-%d")`
/// and takes its midnight in UTC as a Unix timestamp. Trusted: the answer
/// is the one `utc_midnight` names, which depends on the text alone.
#[verifier::external_body]
fn parse_utc_midnight(text: &str) -> (r: Option<i64>)
    ensures
        r == utc_midnight(text@),
{
    match chrono::NaiveDate::parse_from_str(text, "%Y-%m-%d") {
        Ok(date) => match date.and_hms_opt(0, 0, 0) {
            Some(midnight) => Some(midnight.and_utc().timestamp()),
            None => None,
        },
        Err(_) => None,
    }
}

/// Why an analytics option was refused.
#[derive(Debug, Clone, PartialEq, Eq)]
pub enum AnalyticsError {
    /// The text is not a date of the form `YYYY-MM-DD`.
    InvalidDate(String),
}

/// The timestamp of midnight UTC on the date `YYYY-MM-DD`.
pub fn parse_date(date_str: &str) -> (r: Result<i64, AnalyticsError>)
    ensures
        utc_midnight(date_str@) matches Some(t) ==> r == Ok::<i64, AnalyticsError>(t),
        utc_midnight(date_str@) is None ==> (r matches Err(AnalyticsError::InvalidDate(s))
            && s@ == date_str@),
{
    match parse_utc_midnight(date_str) {
        Some(t) => Ok(t),
        None => Err(AnalyticsError::InvalidDate(String::from_str(date_str))),
    }
}

/// The bound a date option gives: its midnight when it is a date, no bound
/// when it is missing or not a date.
pub open spec fn date_bound(date: Option<String>) -> Option<i64> {
    match date {
        Some(d) => utc_midnight(d@),
        None => None,
    }
}

impl AnalyticsCommand {
    /// The time range of the date options; a date that does not parse
    /// leaves its end of the range open.
    pub fn time_range(&self) -> (r: TimeRange)
        ensures
            r.start == date_bound(self.from_date),
            r.end == date_bound(self.to_date),
    {
        let start = match &self.from_date {
            Some(d) => match parse_date(d.as_str()) {
                Ok(t) => Some(t),
                Err(_) => None,
            },
            None => None,
        };
        let end = match &self.to_date {
            Some(d) => match parse_date(d.as_str()) {
                Ok(t) => Some(t),
                Err(_) => None,
            },
            None => None,
        };
        TimeRange { start, end }
    }
}

/// The title shown for an analytics subcommand.
pub open spec fn command_description(command: AnalyticsSubcommand) -> Seq<char> {
    match command {
        AnalyticsSubcommand::Summary(_) => "Database Summary Dashboard"@,
        AnalyticsSubcommand::Memory(_) => "Memory Analysis & Distribution"@,
        AnalyticsSubcommand::Usage(_) => "Usage Patterns & Access Analytics"@,
        AnalyticsSubcommand::Content(_) => "Content Analysis & Text Metrics"@,
        AnalyticsSubcommand::Performance(_) => "Performance & Optimization Insights"@,
        AnalyticsSubcommand::Health(_) => "Database Health & Data Quality"@,
        AnalyticsSubcommand::Trends(_) => "Temporal Trends & Historical Analysis"@,
    }
}

/// The title shown for an analytics subcommand.
pub fn get_command_description(command: &AnalyticsSubcommand) -> (r: &'static str)
    ensures
        r@ == command_description(*command),
{
    match command {
        AnalyticsSubcommand::Summary(_) => "Database Summary Dashboard",
        AnalyticsSubcommand::Memory(_) => "Memory Analysis & Distribution",
        AnalyticsSubcommand::Usage(_) => "Usage Patterns & Access Analytics",
        AnalyticsSubcommand::Content(_) => "Content Analysis & Text Metrics",
        AnalyticsSubcommand::Performance(_) => "Performance & Optimization Insights",
        AnalyticsSubcommand::Health(_) => "Database Health & Data Quality",
        AnalyticsSubcommand::Trends(_) => "Temporal Trends & Historical Analysis",
    }
}

/// Each row as one line: the cells joined by commas, followed by a line feed.
pub open spec fn csv_lines(rows: Seq<Seq<String>>) -> Seq<char>
    decreases rows.len(),
{
    if rows.len() == 0 {
        Seq::empty()
    } else {
        csv_lines(rows.drop_last()) + join_with(texts(rows.last()), ","@) + "\n"@
    }
}

/// The number of bytes `t` takes in UTF-8, which `str::len` reports.
pub open spec fn byte_len(t: Seq<char>) -> nat {
    encode_utf8(t).len()
}

/// The width of column `i`: the byte length of its header or of its widest
/// cell among the first `k` rows, whichever is larger.
pub open spec fn column_width(headers: Seq<String>, rows: Seq<Seq<String>>, i: int, k: int) -> nat
    decreases k,
{
    if k <= 0 {
        byte_len(headers[i]@)
    } else {
        let w = column_width(headers, rows, i, k - 1);
        let row = rows[k - 1];
        if i < row.len() && byte_len(row[i]@) > w {
            byte_len(row[i]@)
        } else {
            w
        }
    }
}

/// `t` padded with spaces on the right to `width` characters (never cut).
pub open spec fn padded(t: Seq<char>, width: nat) -> Seq<char> {
    if t.len() >= width {
        t
    } else {
        t + Seq::new((width - t.len()) as nat, |j: int| ' ')
    }
}

/// The cells `0..k` of a row, each padded to its column width plus two.
pub open spec fn table_cells(cells: Seq<String>, widths: Seq<nat>, k: int) -> Seq<char>
    decreases k,
{
    if k <= 0 {
        Seq::empty()
    } else {
        table_cells(cells, widths, k - 1) + padded(cells[k - 1]@, widths[k - 1] + 2)
    }
}

/// The separator of columns `0..k`: dashes as wide as each padded column.
pub open spec fn separator(widths: Seq<nat>, k: int) -> Seq<char>
    decreases k,
{
    if k <= 0 {
        Seq::empty()
    } else {
        separator(widths, k - 1) + Seq::new(widths[k - 1] + 2, |j: int| '-')
    }
}

/// The body lines of the first `k` rows: the cells that have a header,
/// padded, followed by a line feed.
pub open spec fn table_rows(rows: Seq<Seq<String>>, widths: Seq<nat>, k: int) -> Seq<char>
    decreases k,
{
    if k <= 0 {
        Seq::empty()
    } else {
        let row = rows[k - 1];
        let n = if row.len() < widths.len() {
            row.len() as int
        } else {
            widths.len() as int
        };
        table_rows(rows, widths, k - 1) + table_cells(row, widths, n) + "\n"@
    }
}

/// The whole table.
pub open spec fn table_text(headers: Seq<String>, rows: Seq<Seq<String>>) -> Seq<char> {
    let widths = Seq::new(headers.len(), |i: int| column_width(headers, rows, i, rows.len() as int));
    table_cells(headers, widths, headers.len() as int) + "\n"@ + separator(
        widths,
        headers.len() as int,
    ) + "\n"@ + table_rows(rows, widths, rows.len() as int)
}

/// Renders analytics tables.
#[derive(Debug, Clone, Copy)]
pub struct DefaultAnalyticsFormatter;

/// The text of `v` with `sep` between the elements.
fn join_cells(out: &mut String, cells: &Vec<String>, sep: &str)
    ensures
        final(out)@ == old(out)@ + join_with(texts(cells@), sep@),
{
    let mut i: usize = 0;
    while i < cells.len()
        invariant
            i <= cells@.len(),
            out@ == old(out)@ + join_with(texts(cells@.take(i as int)), sep@),
        decreases cells.len() - i,
    {
        assert(texts(cells@.take(i + 1)).drop_last() =~= texts(cells@.take(i as int)));
        assert(texts(cells@.take(i + 1)).last() == cells@[i as int]@);
        if i > 0 {
            append_str(out, sep);
        } else {
            assert(texts(cells@.take(1)) =~= seq![cells@[0]@]);
            assert(texts(cells@.take(0)) =~= Seq::<Seq<char>>::empty());
        }
        append_str(out, cells[i].as_str());
        i = i + 1;
    }
    assert(cells@.take(cells@.len() as int) =~= cells@);
}

/// Appends `count` copies of `c`.
fn push_repeated(out: &mut String, c: char, count: usize)
    ensures
        final(out)@ == old(out)@ + Seq::new(count as nat, |j: int| c),
{
    let mut k: usize = 0;
    while k < count
        invariant
            k <= count,
            out@ == old(out)@ + Seq::new(k as nat, |j: int| c),
        decreases count - k,
    {
        push_char(out, c);
        k = k + 1;
        assert(out@ =~= old(out)@ + Seq::new(k as nat, |j: int| c));
    }
}

/// Appends `t` padded with spaces to `width` characters.
fn push_padded(out: &mut String, t: &String, width: usize)
    ensures
        final(out)@ == old(out)@ + padded(t@, width as nat),
{
    let n = crate::text::chars_of(t.as_str()).len();
    append_str(out, t.as_str());
    if n < width {
        push_repeated(out, ' ', width - n);
        assert(out@ =~= old(out)@ + padded(t@, width as nat));
    }
}

/// A metric as the formatters show it, its value already written.
#[derive(Debug, Clone)]
pub struct MetricRow {
    pub name: String,
    pub value: String,
    pub unit: Option<String>,
}

/// One line per metric, as the given line of each.
pub open spec fn metric_lines(ms: Seq<MetricRow>, line: spec_fn(MetricRow) -> Seq<char>) -> Seq<char>
    decreases ms.len(),
{
    if ms.len() == 0 {
        Seq::empty()
    } else {
        metric_lines(ms.drop_last(), line) + line(ms.last())
    }
}

/// A metric in a table: its name padded to thirty characters, a space and
/// its value.
pub open spec fn table_line(m: MetricRow) -> Seq<char> {
    padded(m.name@, 30) + " "@ + m.value@ + "\n"@
}

/// A metric as comma-separated values: name, value and unit.
pub open spec fn csv_line(m: MetricRow) -> Seq<char> {
    m.name@ + ","@ + m.value@ + ","@ + text_or_empty(m.unit) + "\n"@
}

/// A metric as a row of a Markdown table.
pub open spec fn markdown_line(m: MetricRow) -> Seq<char> {
    "| "@ + m.name@ + " | "@ + m.value@ + " | "@ + text_or_empty(m.unit) + " |\n"@
}

/// The metrics in a format: a table, comma-separated values under a
/// header line, or a Markdown table; JSON is written by the caller, so
/// there is no text for it.
pub open spec fn metrics_text(ms: Seq<MetricRow>, format: OutputFormat) -> Option<Seq<char>> {
    match format {
        OutputFormat::Table => Some(metric_lines(ms, |m: MetricRow| table_line(m))),
        OutputFormat::Json => None,
        OutputFormat::Csv => Some("Metric,Value,Unit\n"@ + metric_lines(ms, |m: MetricRow| csv_line(m))),
        OutputFormat::Markdown => Some(
            "| Metric | Value | Unit |\n|--------|-------|------|\n"@ + metric_lines(
                ms,
                |m: MetricRow| markdown_line(m),
            ),
        ),
    }
}

fn push_unit(out: &mut String, m: &MetricRow)
    ensures
        final(out)@ == old(out)@ + text_or_empty(m.unit),
{
    match &m.unit {
        Some(u) => append_str(out, u.as_str()),
        None => {
            assert(out@ =~= out@ + text_or_empty(m.unit));
        },
    }
}

impl DefaultAnalyticsFormatter {
    /// Writes the metrics in a format (see `metrics_text`).
    pub fn format_metrics(&self, metrics: &Vec<MetricRow>, format: OutputFormat) -> (r: Option<
        String,
    >)
        ensures
            r is None <==> metrics_text(metrics@, format) is None,
            r matches Some(t) ==> metrics_text(metrics@, format) == Some(t@),
    {
        let ghost line: spec_fn(MetricRow) -> Seq<char> = match format {
            OutputFormat::Csv => |m: MetricRow| csv_line(m),
            OutputFormat::Markdown => |m: MetricRow| markdown_line(m),
            _ => |m: MetricRow| table_line(m),
        };
        let mut out = match format {
            OutputFormat::Json => {
                return None;
            },
            OutputFormat::Table => String::new(),
            OutputFormat::Csv => String::from_str("Metric,Value,Unit\n"),
            OutputFormat::Markdown => String::from_str(
                "| Metric | Value | Unit |\n|--------|-------|------|\n",
            ),
        };
        let ghost head = out@;
        let mut i: usize = 0;
        assert(metrics@.take(0) =~= Seq::<MetricRow>::empty());
        assert(out@ =~= head + metric_lines(metrics@.take(0), line));
        while i < metrics.len()
            invariant
                i <= metrics@.len(),
                format != OutputFormat::Json,
                line == (match format {
                    OutputFormat::Csv => |m: MetricRow| csv_line(m),
                    OutputFormat::Markdown => |m: MetricRow| markdown_line(m),
                    _ => |m: MetricRow| table_line(m),
                }),
                out@ == head + metric_lines(metrics@.take(i as int), line),
            decreases metrics.len() - i,
        {
            let m = &metrics[i];
            let ghost before = out@;
            match format {
                OutputFormat::Csv => {
                    append_str(&mut out, m.name.as_str());
                    append_str(&mut out, ",");
                    append_str(&mut out, m.value.as_str());
                    append_str(&mut out, ",");
                    push_unit(&mut out, m);
                    append_str(&mut out, "\n");
                },
                OutputFormat::Markdown => {
                    append_str(&mut out, "| ");
                    append_str(&mut out, m.name.as_str());
                    append_str(&mut out, " | ");
                    append_str(&mut out, m.value.as_str());
                    append_str(&mut out, " | ");
                    push_unit(&mut out, m);
                    append_str(&mut out, " |\n");
                },
                _ => {
                    push_padded(&mut out, &m.name, 30);
                    append_str(&mut out, " ");
                    append_str(&mut out, m.value.as_str());
                    append_str(&mut out, "\n");
                },
            }
            assert(out@ =~= before + line(*m));
            assert(metrics@.take(i + 1).drop_last() =~= metrics@.take(i as int));
            assert(metrics@.take(i + 1).last() == *m);
            i = i + 1;
        }
        assert(metrics@.take(metrics@.len() as int) =~= metrics@);
        Some(out)
    }

    /// Renders rows as comma-separated values: the headers on the first line,
    /// then each row on its own line, cells joined by commas without quoting.
    pub fn format_csv(&self, headers: &Vec<String>, rows: &Vec<Vec<String>>) -> (r: String)
        ensures
            r@ == join_with(texts(headers@), ","@) + "\n"@ + csv_lines(rows@.map_values(
                |row: Vec<String>| row@,
            )),
    {
        let ghost rs = rows@.map_values(|row: Vec<String>| row@);
        let mut result = String::new();
        join_cells(&mut result, headers, ",");
        append_str(&mut result, "\n");
        let ghost head = result@;
        let mut i: usize = 0;
        while i < rows.len()
            invariant
                i <= rows@.len(),
                rs == rows@.map_values(|row: Vec<String>| row@),
                result@ == head + csv_lines(rs.take(i as int)),
            decreases rows.len() - i,
        {
            assert(rs.take(i + 1).drop_last() =~= rs.take(i as int));
            join_cells(&mut result, &rows[i], ",");
            append_str(&mut result, "\n");
            i = i + 1;
        }
        assert(rs.take(rows@.len() as int) =~= rs);
        result
    }

    /// Renders rows as a table: each column as wide as its widest entry in
    /// bytes plus two, cells padded with spaces, a dashed separator under the
    /// headers, and cells without a header left out.
    pub fn format_table(&self, headers: &Vec<String>, rows: &Vec<Vec<String>>) -> (r: String)
        requires
            forall|i: int|
                0 <= i < headers@.len() ==> byte_len(#[trigger] headers@[i]@) + 2 <= usize::MAX,
            forall|k: int, i: int|
                0 <= k < rows@.len() && 0 <= i < rows@[k]@.len() ==> byte_len(
                    #[trigger] rows@[k]@[i]@,
                ) + 2 <= usize::MAX,
        ensures
            r@ == table_text(headers@, rows@.map_values(|row: Vec<String>| row@)),
    {
        let ghost rs = rows@.map_values(|row: Vec<String>| row@);
        let nh = headers.len();
        let mut widths: Vec<usize> = Vec::new();
        let mut i: usize = 0;
        while i < nh
            invariant
                nh == headers@.len(),
                i <= nh,
                widths@.len() == i,
                forall|q: int| 0 <= q < i ==> widths@[q] == column_width(headers@, rs, q, 0),
                forall|q: int| 0 <= q < nh ==> byte_len(#[trigger] headers@[q]@) + 2 <= usize::MAX,
            decreases nh - i,
        {
            widths.push(headers[i].as_str().len());
            i = i + 1;
        }
        let mut k: usize = 0;
        while k < rows.len()
            invariant
                nh == headers@.len(),
                k <= rows@.len(),
                rs == rows@.map_values(|row: Vec<String>| row@),
                widths@.len() == nh,
                forall|q: int| 0 <= q < nh ==> widths@[q] == column_width(headers@, rs, q, k as int),
                forall|q: int| 0 <= q < nh ==> widths@[q] + 2 <= usize::MAX,
                forall|kk: int, ii: int|
                    0 <= kk < rows@.len() && 0 <= ii < rows@[kk]@.len() ==> byte_len(
                        #[trigger] rows@[kk]@[ii]@,
                    ) + 2 <= usize::MAX,
            decreases rows.len() - k,
        {
            let row = &rows[k];
            assert(rs[k as int] == row@);
            let mut j: usize = 0;
            while j < row.len()
                invariant
                    nh == headers@.len(),
                    k < rows@.len(),
                    rs == rows@.map_values(|row: Vec<String>| row@),
                    row@ == rs[k as int],
                    j <= row@.len(),
                    widths@.len() == nh,
                    forall|q: int|
                        0 <= q < nh ==> widths@[q] == if q < j {
                            column_width(headers@, rs, q, k + 1)
                        } else {
                            column_width(headers@, rs, q, k as int)
                        },
                    forall|q: int| 0 <= q < nh ==> widths@[q] + 2 <= usize::MAX,
                    forall|ii: int| 0 <= ii < row@.len() ==> byte_len(#[trigger] row@[ii]@) + 2
                        <= usize::MAX,
                decreases row.len() - j,
            {
                assert(byte_len(row@[j as int]@) + 2 <= usize::MAX);
                if j < nh {
                    let len = row[j].as_str().len();
                    if len > widths[j] {
                        widths.set(j, len);
                    }
                }
                j = j + 1;
            }
            assert forall|q: int| 0 <= q < nh implies widths@[q] == column_width(
                headers@,
                rs,
                q,
                k + 1,
            ) by {
                if q >= row@.len() {
                    assert(column_width(headers@, rs, q, k + 1) == column_width(
                        headers@,
                        rs,
                        q,
                        k as int,
                    ));
                }
            }
            k = k + 1;
        }
        let ghost ws = Seq::new(nh as nat, |q: int| column_width(headers@, rs, q, rs.len() as int));
        assert(widths@.map_values(|w: usize| w as nat) =~= ws);
        let mut result = String::new();
        let mut c: usize = 0;
        while c < nh
            invariant
                nh == headers@.len(),
                c <= nh,
                widths@.len() == nh,
                widths@.map_values(|w: usize| w as nat) == ws,
                forall|q: int| 0 <= q < nh ==> widths@[q] + 2 <= usize::MAX,
                result@ == table_cells(headers@, ws, c as int),
            decreases nh - c,
        {
            assert(ws[c as int] == widths@[c as int]);
            push_padded(&mut result, &headers[c], widths[c] + 2);
            c = c + 1;
        }
        append_str(&mut result, "\n");
        let ghost after_head = result@;
        c = 0;
        while c < nh
            invariant
                nh == headers@.len(),
                c <= nh,
                widths@.len() == nh,
                widths@.map_values(|w: usize| w as nat) == ws,
                forall|q: int| 0 <= q < nh ==> widths@[q] + 2 <= usize::MAX,
                result@ == after_head + separator(ws, c as int),
            decreases nh - c,
        {
            assert(ws[c as int] == widths@[c as int]);
            push_repeated(&mut result, '-', widths[c] + 2);
            c = c + 1;
        }
        append_str(&mut result, "\n");
        let ghost after_sep = result@;
        let mut k: usize = 0;
        while k < rows.len()
            invariant
                nh == headers@.len(),
                k <= rows@.len(),
                rs == rows@.map_values(|row: Vec<String>| row@),
                widths@.len() == nh,
                widths@.map_values(|w: usize| w as nat) == ws,
                ws.len() == nh,
                forall|q: int| 0 <= q < nh ==> widths@[q] + 2 <= usize::MAX,
                result@ == after_sep + table_rows(rs, ws, k as int),
            decreases rows.len() - k,
        {
            let row = &rows[k];
            assert(rs[k as int] == row@);
            let n = if row.len() < nh {
                row.len()
            } else {
                nh
            };
            let ghost before_row = result@;
            let mut j: usize = 0;
            while j < n
                invariant
                    nh == headers@.len(),
                    n <= nh,
                    n <= row@.len(),
                    j <= n,
                    widths@.len() == nh,
                    widths@.map_values(|w: usize| w as nat) == ws,
                    forall|q: int| 0 <= q < nh ==> widths@[q] + 2 <= usize::MAX,
                    result@ == before_row + table_cells(row@, ws, j as int),
                decreases n - j,
            {
                assert(ws[j as int] == widths@[j as int]);
                push_padded(&mut result, &row[j], widths[j] + 2);
                j = j + 1;
            }
            append_str(&mut result, "\n");
            k = k + 1;
        }
        result
    }
}

} // verus!
