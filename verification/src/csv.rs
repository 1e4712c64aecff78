//! Fields of the comma-separated export and import formats.
//!
//! The export quotes a field that holds the delimiter, a quote or a line
//! break and doubles the quotes inside it; the import trims a value, removes
//! the surrounding quotes and turns doubled quotes back into single ones.

use vstd::prelude::*;
use crate::config::texts;
use crate::text::{
    char_is_whitespace, chars_eq, chars_of, contains_char, contains_chars, contains_text,
    lines_from, parse_u32, parse_u32_text, pieces, push_char, split_by, split_lines, split_text,
    string_from_chars, trim, trimmed,
};

verus! {

/// `f` with every quote doubled.
pub open spec fn double_quotes(f: Seq<char>) -> Seq<char>
    decreases f.len(),
{
    if f.len() == 0 {
        Seq::empty()
    } else {
        (if f[0] == '"' {
            seq!['"', '"']
        } else {
            seq![f[0]]
        }) + double_quotes(f.drop_first())
    }
}

/// `s` with each pair of quotes, taken left to right, turned back into one
/// quote (what `str::replace("\"\"", "\"")` does).
pub open spec fn undouble_quotes(s: Seq<char>) -> Seq<char>
    decreases s.len(),
{
    if s.len() == 0 {
        Seq::empty()
    } else if s.len() >= 2 && s[0] == '"' && s[1] == '"' {
        seq!['"'] + undouble_quotes(s.subrange(2, s.len() as int))
    } else {
        seq![s[0]] + undouble_quotes(s.drop_first())
    }
}

/// Whether a field has to be quoted: it holds the delimiter, a quote, a
/// line feed or a carriage return.
pub open spec fn needs_quoting(f: Seq<char>, delimiter: Seq<char>) -> bool {
    contains_text(f, delimiter) || f.contains('"') || f.contains('\n') || f.contains('\r')
}

/// A field as the export writes it.
pub open spec fn escaped_field(f: Seq<char>, delimiter: Seq<char>) -> Seq<char> {
    if needs_quoting(f, delimiter) {
        seq!['"'] + double_quotes(f) + seq!['"']
    } else {
        f
    }
}

/// A value as the import reads it: trimmed, and when it is at least two
/// characters between quotes, the inside with doubled quotes undone.
pub open spec fn decoded_value(raw: Seq<char>) -> Seq<char> {
    let v = trim(raw);
    if v.len() > 1 && v[0] == '"' && v.last() == '"' {
        undouble_quotes(v.subrange(1, v.len() - 1))
    } else {
        v
    }
}

/// Appends `f` with its quotes doubled.
fn push_doubled(out: &mut String, f: &Vec<char>)
    ensures
        final(out)@ == old(out)@ + double_quotes(f@),
{
    let mut i: usize = f.len();
    let mut tail: Vec<char> = Vec::new();
    // Builds the doubled text of f[i..] from the back.
    while i > 0
        invariant
            i <= f@.len(),
            tail@ == double_quotes(f@.subrange(i as int, f@.len() as int)).reverse(),
        decreases i,
    {
        let ghost before = f@.subrange(i as int, f@.len() as int);
        i = i - 1;
        let ghost now = f@.subrange(i as int, f@.len() as int);
        assert(now.drop_first() =~= before);
        let c = f[i];
        if c == '"' {
            tail.push('"');
            tail.push('"');
            assert(tail@ =~= double_quotes(now).reverse()) by {
                assert(double_quotes(now) == seq!['"', '"'] + double_quotes(before));
                assert((seq!['"', '"'] + double_quotes(before)).reverse() =~= double_quotes(
                    before,
                ).reverse() + seq!['"', '"']);
            }
        } else {
            tail.push(c);
            assert(tail@ =~= double_quotes(now).reverse()) by {
                assert(double_quotes(now) == seq![c] + double_quotes(before));
                assert((seq![c] + double_quotes(before)).reverse() =~= double_quotes(
                    before,
                ).reverse() + seq![c]);
            }
        }
    }
    assert(f@.subrange(0, f@.len() as int) =~= f@);
    let ghost d = double_quotes(f@);
    let mut k: usize = tail.len();
    while k > 0
        invariant
            k <= tail@.len(),
            tail@ == d.reverse(),
            out@ == old(out)@ + d.take(tail@.len() - k),
        decreases k,
    {
        k = k - 1;
        push_char(out, tail[k]);
        assert(d.take(tail@.len() - k) =~= d.take(tail@.len() - k - 1).push(d[tail@.len() - k - 1]));
    }
    assert(d.take(tail@.len() as int) =~= d);
}

/// Writes a field for the export: quoted, with its quotes doubled, when it
/// holds the delimiter, a quote or a line break; unchanged otherwise.
pub fn escape_csv_field(field: &str, delimiter: &str) -> (r: String)
    ensures
        r@ == escaped_field(field@, delimiter@),
{
    let f = chars_of(field);
    let d = chars_of(delimiter);
    if contains_chars(f.as_slice(), d.as_slice()) || contains_char(f.as_slice(), '"')
        || contains_char(f.as_slice(), '\n') || contains_char(f.as_slice(), '\r') {
        let mut out = String::new();
        push_char(&mut out, '"');
        push_doubled(&mut out, &f);
        push_char(&mut out, '"');
        out
    } else {
        string_from_chars(f.as_slice())
    }
}

/// Reads a value of the import from its characters (see `decoded_value`).
pub fn decode_chars(raw: &[char]) -> (r: Vec<char>)
    ensures
        r@ == decoded_value(raw@),
{
    let v = trimmed(raw);
    let n = v.len();
    if n > 1 && v[0] == '"' && v[n - 1] == '"' {
        let ghost inner = v@.subrange(1, n - 1);
        let mut out: Vec<char> = Vec::new();
        let mut i: usize = 1;
        while i < n - 1
            invariant
                n == v@.len(),
                n > 1,
                1 <= i <= n - 1,
                inner == v@.subrange(1, n - 1),
                out@ + undouble_quotes(v@.subrange(i as int, n - 1)) == undouble_quotes(inner),
            decreases n - 1 - i,
        {
            let ghost rest = v@.subrange(i as int, n - 1);
            let ghost before = out@;
            if i + 1 < n - 1 && v[i] == '"' && v[i + 1] == '"' {
                assert(rest.subrange(2, rest.len() as int) =~= v@.subrange(i + 2, n - 1));
                out.push('"');
                assert(out@ =~= before + seq!['"']);
                i = i + 2;
            } else {
                assert(rest.drop_first() =~= v@.subrange(i + 1, n - 1));
                out.push(v[i]);
                assert(out@ =~= before + seq![v@[i - 1 + 1]]);
                i = i + 1;
            }
        }
        assert(v@.subrange(i as int, n - 1).len() == 0);
        assert(out@ =~= undouble_quotes(inner));
        out
    } else {
        v
    }
}

/// Reads a value of the import (see `decoded_value`).
pub fn decode_csv_value(raw: &str) -> (r: String)
    ensures
        r@ == decoded_value(raw@),
{
    let rc = chars_of(raw);
    let v = decode_chars(rc.as_slice());
    string_from_chars(v.as_slice())
}

proof fn lemma_undouble_double(f: Seq<char>)
    ensures
        undouble_quotes(double_quotes(f)) == f,
    decreases f.len(),
{
    if f.len() > 0 {
        lemma_undouble_double(f.drop_first());
        let d = double_quotes(f);
        let rest = double_quotes(f.drop_first());
        if f[0] == '"' {
            assert(d.subrange(2, d.len() as int) =~= rest);
        } else {
            assert(d.drop_first() =~= rest);
        }
        assert(f =~= seq![f[0]] + f.drop_first());
    }
}

proof fn lemma_trim_quoted(s: Seq<char>)
    requires
        s.len() > 1,
        s[0] == '"',
        s.last() == '"',
        !char_is_whitespace('"'),
    ensures
        trim(s) == s,
{
}

/// Law: the import reads back what the export wrote for a field, whenever
/// the field has no leading or trailing whitespace that the import would trim.
/// (The quote is not whitespace: `is_whitespace` reports exactly that.)
pub proof fn law_csv_field_round_trip(f: Seq<char>, delimiter: Seq<char>)
    requires
        !char_is_whitespace('"'),
        needs_quoting(f, delimiter) || trim(f) == f,
    ensures
        decoded_value(escaped_field(f, delimiter)) == f,
{
    if needs_quoting(f, delimiter) {
        let e = seq!['"'] + double_quotes(f) + seq!['"'];
        lemma_trim_quoted(e);
        assert(e.subrange(1, e.len() - 1) =~= double_quotes(f));
        lemma_undouble_double(f);
    } else {
        if f.len() > 1 && f[0] == '"' {
            assert(f.contains('"'));
        }
    }
}

/// One memory as the comma-separated import reads it. The confidence is
/// kept as its text; the caller reads it as a number.
#[derive(Debug, Clone)]
pub struct ImportRecord {
    pub id: Option<String>,
    pub memory_type: Option<String>,
    pub topic: String,
    pub tags: Vec<String>,
    pub content: String,
    pub examples: Vec<String>,
    pub reference_count: Option<u32>,
    pub confidence: Option<String>,
    pub source: Option<String>,
}

/// The meaning of an `ImportRecord`.
pub struct RecordView {
    pub id: Option<Seq<char>>,
    pub memory_type: Option<Seq<char>>,
    pub topic: Seq<char>,
    pub tags: Seq<Seq<char>>,
    pub content: Seq<char>,
    pub examples: Seq<Seq<char>>,
    pub reference_count: Option<u32>,
    pub confidence: Option<Seq<char>>,
    pub source: Option<Seq<char>>,
}

/// The text of an optional string.
pub open spec fn opt_view(o: Option<String>) -> Option<Seq<char>> {
    match o {
        Some(s) => Some(s@),
        None => None,
    }
}

impl View for ImportRecord {
    type V = RecordView;

    open spec fn view(&self) -> RecordView {
        RecordView {
            id: opt_view(self.id),
            memory_type: opt_view(self.memory_type),
            topic: self.topic@,
            tags: self.tags@.map_values(|t: String| t@),
            content: self.content@,
            examples: self.examples@.map_values(|t: String| t@),
            reference_count: self.reference_count,
            confidence: opt_view(self.confidence),
            source: opt_view(self.source),
        }
    }
}

/// A record before any column is read.
pub open spec fn empty_record() -> RecordView {
    RecordView {
        id: None,
        memory_type: None,
        topic: Seq::empty(),
        tags: Seq::empty(),
        content: Seq::empty(),
        examples: Seq::empty(),
        reference_count: None,
        confidence: None,
        source: None,
    }
}

/// An optional text: none when empty.
pub open spec fn non_empty(v: Seq<char>) -> Option<Seq<char>> {
    if v.len() == 0 {
        None
    } else {
        Some(v)
    }
}

/// The items of a list value: split at `;` and trimmed.
pub open spec fn list_items(v: Seq<char>) -> Seq<Seq<char>> {
    split_text(v, seq![';']).map_values(|p: Seq<char>| trim(p))
}

/// A record after reading one more column, whose (trimmed) header names the
/// field it sets; a later column overrides an earlier one, an empty list
/// leaves the list as it was, and unknown headers are ignored.
pub open spec fn apply_column(rec: RecordView, header: Seq<char>, raw: Seq<char>) -> RecordView {
    let h = trim(header);
    let v = decoded_value(raw);
    if h == "id"@ {
        RecordView { id: non_empty(v), ..rec }
    } else if h == "type"@ {
        RecordView { memory_type: non_empty(v), ..rec }
    } else if h == "topic"@ {
        RecordView { topic: v, ..rec }
    } else if h == "content"@ {
        RecordView { content: v, ..rec }
    } else if h == "tags"@ {
        if v.len() > 0 {
            RecordView { tags: list_items(v), ..rec }
        } else {
            rec
        }
    } else if h == "examples"@ {
        if v.len() > 0 {
            RecordView { examples: list_items(v), ..rec }
        } else {
            rec
        }
    } else if h == "reference_count"@ {
        RecordView { reference_count: parse_u32_text(v), ..rec }
    } else if h == "confidence"@ {
        RecordView { confidence: Some(v), ..rec }
    } else if h == "source"@ {
        RecordView { source: non_empty(v), ..rec }
    } else {
        rec
    }
}

/// The record the first `k` columns of a row make.
pub open spec fn record_of(headers: Seq<Seq<char>>, values: Seq<Seq<char>>, k: int) -> RecordView
    decreases k,
{
    if k <= 0 {
        empty_record()
    } else {
        apply_column(record_of(headers, values, k - 1), headers[k - 1], values[k - 1])
    }
}

/// Whether some header names `name` once trimmed.
pub open spec fn has_header(headers: Seq<Seq<char>>, name: Seq<char>) -> bool {
    exists|i: int| 0 <= i < headers.len() && trim(#[trigger] headers[i]) == name
}

/// A line with nothing but whitespace.
pub open spec fn is_blank(line: Seq<char>) -> bool {
    trim(line).len() == 0
}

/// A data line that has as many values as there are headers.
pub open spec fn is_well_formed(line: Seq<char>, headers: Seq<Seq<char>>, d: Seq<char>) -> bool {
    split_text(line, d).len() == headers.len()
}

/// The records of data lines `1..k`: blank lines and lines whose number of
/// values differs from the number of headers give none.
pub open spec fn records_upto(lines: Seq<Seq<char>>, d: Seq<char>, k: int) -> Seq<RecordView>
    decreases k,
{
    if k <= 1 {
        Seq::empty()
    } else {
        let line = lines[k - 1];
        let headers = split_text(lines[0], d);
        let before = records_upto(lines, d, k - 1);
        if is_blank(line) || !is_well_formed(line, headers, d) {
            before
        } else {
            before.push(record_of(headers, split_text(line, d), headers.len() as int))
        }
    }
}

/// The data lines `1..k` skipped for a wrong number of values.
pub open spec fn skipped_upto(lines: Seq<Seq<char>>, d: Seq<char>, k: int) -> Seq<Seq<char>>
    decreases k,
{
    if k <= 1 {
        Seq::empty()
    } else {
        let line = lines[k - 1];
        let before = skipped_upto(lines, d, k - 1);
        if !is_blank(line) && !is_well_formed(line, split_text(lines[0], d), d) {
            before.push(line)
        } else {
            before
        }
    }
}

/// What reading a comma-separated file gave.
#[derive(Debug, Clone)]
pub struct CsvImport {
    /// The records read.
    pub records: Vec<ImportRecord>,
    /// The required column that the header line lacks, if one does; then
    /// nothing is read.
    pub missing_field: Option<String>,
    /// The lines skipped for a wrong number of values.
    pub skipped_rows: Vec<String>,
}

/// The records of a list.
pub open spec fn record_views(v: Seq<ImportRecord>) -> Seq<RecordView> {
    v.map_values(|r: ImportRecord| r@)
}


fn is_literal(a: &Vec<char>, lit: &str) -> (r: bool)
    ensures
        r == (a@ == lit@),
{
    let l = chars_of(lit);
    chars_eq(a.as_slice(), l.as_slice())
}

fn opt_string(v: &Vec<char>) -> (r: Option<String>)
    ensures
        opt_view(r) == non_empty(v@),
{
    if v.len() == 0 {
        None
    } else {
        Some(string_from_chars(v.as_slice()))
    }
}

fn list_strings(v: &Vec<char>) -> (r: Vec<String>)
    ensures
        r@.map_values(|t: String| t@) == list_items(v@),
{
    let semi = vec![';'];
    assert(semi@ =~= seq![';']);
    let parts = split_by(v.as_slice(), semi.as_slice());
    let ghost ps = pieces(parts@);
    let mut r: Vec<String> = Vec::new();
    let mut i: usize = 0;
    while i < parts.len()
        invariant
            i <= parts@.len(),
            ps == pieces(parts@),
            ps == split_text(v@, seq![';']),
            r@.map_values(|t: String| t@) == ps.take(i as int).map_values(|p: Seq<char>| trim(p)),
        decreases parts.len() - i,
    {
        let t = trimmed(parts[i].as_slice());
        let ghost before = r@;
        r.push(string_from_chars(t.as_slice()));
        assert(r@.map_values(|t: String| t@) =~= before.map_values(|t: String| t@).push(trim(ps[i as int])));
        i = i + 1;
        assert(ps.take(i as int).map_values(|p: Seq<char>| trim(p)) =~= ps.take(i - 1).map_values(|p: Seq<char>| trim(p)).push(trim(ps[i - 1])));
    }
    assert(ps.take(parts@.len() as int) =~= ps);
    r
}

fn apply_value(rec: &mut ImportRecord, header: &Vec<char>, raw: &Vec<char>)
    ensures
        final(rec)@ == apply_column(old(rec)@, header@, raw@),
{
    let h = trimmed(header.as_slice());
    let v = decode_chars(raw.as_slice());
    if is_literal(&h, "id") {
        rec.id = opt_string(&v);
    } else if is_literal(&h, "type") {
        rec.memory_type = opt_string(&v);
    } else if is_literal(&h, "topic") {
        rec.topic = string_from_chars(v.as_slice());
    } else if is_literal(&h, "content") {
        rec.content = string_from_chars(v.as_slice());
    } else if is_literal(&h, "tags") {
        if v.len() > 0 {
            rec.tags = list_strings(&v);
        }
    } else if is_literal(&h, "examples") {
        if v.len() > 0 {
            rec.examples = list_strings(&v);
        }
    } else if is_literal(&h, "reference_count") {
        rec.reference_count = parse_u32(v.as_slice());
    } else if is_literal(&h, "confidence") {
        rec.confidence = Some(string_from_chars(v.as_slice()));
    } else if is_literal(&h, "source") {
        rec.source = opt_string(&v);
    }
}

fn build_record(headers: &Vec<Vec<char>>, values: &Vec<Vec<char>>) -> (r: ImportRecord)
    requires
        headers@.len() == values@.len(),
    ensures
        r@ == record_of(pieces(headers@), pieces(values@), headers@.len() as int),
{
    let mut rec = ImportRecord {
        id: None,
        memory_type: None,
        topic: String::new(),
        tags: Vec::new(),
        content: String::new(),
        examples: Vec::new(),
        reference_count: None,
        confidence: None,
        source: None,
    };
    assert(rec@.tags =~= Seq::<Seq<char>>::empty());
    assert(rec@.examples =~= Seq::<Seq<char>>::empty());
    let mut i: usize = 0;
    while i < headers.len()
        invariant
            headers@.len() == values@.len(),
            i <= headers@.len(),
            rec@ == record_of(pieces(headers@), pieces(values@), i as int),
        decreases headers.len() - i,
    {
        apply_value(&mut rec, &headers[i], &values[i]);
        i = i + 1;
    }
    rec
}

fn header_present(headers: &Vec<Vec<char>>, name: &str) -> (r: bool)
    ensures
        r == has_header(pieces(headers@), name@),
{
    let mut i: usize = 0;
    while i < headers.len()
        invariant
            i <= headers@.len(),
            forall|j: int| 0 <= j < i ==> trim(#[trigger] pieces(headers@)[j]) != name@,
        decreases headers.len() - i,
    {
        let h = trimmed(headers[i].as_slice());
        if is_literal(&h, name) {
            assert(trim(pieces(headers@)[i as int]) == name@);
            return true;
        }
        i = i + 1;
    }
    false
}

/// Reads memories from comma-separated text whose values are separated by
/// `delimiter`: the first line names the columns, and `topic` and `content`
/// must be among them (checked in that order; the first one missing is
/// reported and nothing is read). Each following line that is not blank
/// gives a record when it has as many values as there are headers and is
/// reported as skipped otherwise.
pub fn parse_import_csv(contents: &str, delimiter: &str) -> (r: CsvImport)
    ensures
        ({
            let lines = lines_from(contents@, 0);
            let headers = split_text(lines[0], delimiter@);
            if lines.len() == 0 {
                r.records@.len() == 0 && r.missing_field is None && r.skipped_rows@.len() == 0
            } else if !has_header(headers, "topic"@) {
                r.records@.len() == 0 && opt_view(r.missing_field) == Some("topic"@)
                    && r.skipped_rows@.len() == 0
            } else if !has_header(headers, "content"@) {
                r.records@.len() == 0 && opt_view(r.missing_field) == Some("content"@)
                    && r.skipped_rows@.len() == 0
            } else {
                &&& r.missing_field is None
                &&& record_views(r.records@) == records_upto(lines, delimiter@, lines.len() as int)
                &&& texts(r.skipped_rows@) == skipped_upto(
                    lines,
                    delimiter@,
                    lines.len() as int,
                )
            }
        }),
{
    let text = chars_of(contents);
    let d = chars_of(delimiter);
    let lines = split_lines(text.as_slice());
    let ghost ls = pieces(lines@);
    let mut records: Vec<ImportRecord> = Vec::new();
    let mut skipped: Vec<String> = Vec::new();
    if lines.len() == 0 {
        return CsvImport { records, missing_field: None, skipped_rows: skipped };
    }
    let headers = split_by(lines[0].as_slice(), d.as_slice());
    let ghost hs = pieces(headers@);
    assert(hs == split_text(ls[0], d@));
    if !header_present(&headers, "topic") {
        return CsvImport {
            records,
            missing_field: Some(string_from_chars(chars_of("topic").as_slice())),
            skipped_rows: skipped,
        };
    }
    if !header_present(&headers, "content") {
        return CsvImport {
            records,
            missing_field: Some(string_from_chars(chars_of("content").as_slice())),
            skipped_rows: skipped,
        };
    }
    let mut k: usize = 1;
    while k < lines.len()
        invariant
            1 <= k <= lines@.len(),
            ls == pieces(lines@),
            hs == pieces(headers@),
            hs == split_text(ls[0], d@),
            record_views(records@) == records_upto(ls, d@, k as int),
            texts(skipped@) == skipped_upto(ls, d@, k as int),
        decreases lines.len() - k,
    {
        let line = &lines[k];
        assert(ls[k as int] == line@);
        let t = trimmed(line.as_slice());
        if t.len() > 0 {
            let values = split_by(line.as_slice(), d.as_slice());
            if values.len() != headers.len() {
                let ghost before = skipped@;
                skipped.push(string_from_chars(line.as_slice()));
                assert(texts(skipped@) =~= texts(before).push(line@));
            } else {
                let rec = build_record(&headers, &values);
                let ghost before = records@;
                records.push(rec);
                assert(record_views(records@) =~= record_views(before).push(rec@));
            }
        }
        k = k + 1;
    }
    CsvImport { records, missing_field: None, skipped_rows: skipped }
}

/// The position of the last of the first `n` headers that names `name`
/// once trimmed, or -1 when none does.
pub open spec fn last_column(headers: Seq<Seq<char>>, name: Seq<char>, n: int) -> int
    decreases n,
{
    if n <= 0 {
        -1
    } else if trim(headers[n - 1]) == name {
        n - 1
    } else {
        last_column(headers, name, n - 1)
    }
}

/// The decoded value of the last of the first `n` columns named `name`, if
/// there is one.
pub open spec fn column_value(
    headers: Seq<Seq<char>>,
    values: Seq<Seq<char>>,
    name: Seq<char>,
    n: int,
) -> Option<Seq<char>> {
    let k = last_column(headers, name, n);
    if k < 0 {
        None
    } else {
        Some(decoded_value(values[k]))
    }
}

/// The position of the last of the first `n` columns named `name` whose
/// decoded value is not empty, or -1 when there is none.
pub open spec fn last_filled_column(
    headers: Seq<Seq<char>>,
    values: Seq<Seq<char>>,
    name: Seq<char>,
    n: int,
) -> int
    decreases n,
{
    if n <= 0 {
        -1
    } else if trim(headers[n - 1]) == name && decoded_value(values[n - 1]).len() > 0 {
        n - 1
    } else {
        last_filled_column(headers, values, name, n - 1)
    }
}

/// The items of the last filled list column named `name`: its decoded value
/// split at `;`, each item trimmed; none without such a column.
pub open spec fn list_column(
    headers: Seq<Seq<char>>,
    values: Seq<Seq<char>>,
    name: Seq<char>,
    n: int,
) -> Seq<Seq<char>> {
    let k = last_filled_column(headers, values, name, n);
    if k < 0 {
        Seq::empty()
    } else {
        split_text(decoded_value(values[k]), seq![';']).map_values(|p: Seq<char>| trim(p))
    }
}

proof fn lemma_header_names_differ()
    ensures
        "id"@ != "type"@,
        "id"@ != "topic"@,
        "id"@ != "content"@,
        "id"@ != "reference_count"@,
        "id"@ != "confidence"@,
        "id"@ != "source"@,
        "type"@ != "topic"@,
        "type"@ != "content"@,
        "type"@ != "reference_count"@,
        "type"@ != "confidence"@,
        "type"@ != "source"@,
        "topic"@ != "content"@,
        "topic"@ != "reference_count"@,
        "topic"@ != "confidence"@,
        "topic"@ != "source"@,
        "content"@ != "reference_count"@,
        "content"@ != "confidence"@,
        "content"@ != "source"@,
        "reference_count"@ != "confidence"@,
        "reference_count"@ != "source"@,
        "confidence"@ != "source"@,
        "tags"@ != "id"@,
        "tags"@ != "type"@,
        "tags"@ != "topic"@,
        "tags"@ != "content"@,
        "tags"@ != "reference_count"@,
        "tags"@ != "confidence"@,
        "tags"@ != "source"@,
        "examples"@ != "id"@,
        "examples"@ != "type"@,
        "examples"@ != "topic"@,
        "examples"@ != "content"@,
        "examples"@ != "reference_count"@,
        "examples"@ != "confidence"@,
        "examples"@ != "source"@,
        "examples"@ != "tags"@,
{
    reveal_strlit("id");
    reveal_strlit("type");
    reveal_strlit("topic");
    reveal_strlit("tags");
    reveal_strlit("content");
    reveal_strlit("examples");
    reveal_strlit("reference_count");
    reveal_strlit("confidence");
    reveal_strlit("source");
    assert("id"@.len() == 2);
    assert("type"@.len() == 4);
    assert("topic"@.len() == 5);
    assert("tags"@.len() == 4);
    assert("content"@.len() == 7);
    assert("examples"@.len() == 8);
    assert("reference_count"@.len() == 15);
    assert("confidence"@.len() == 10);
    assert("source"@.len() == 6);
    assert("type"@[1] != "tags"@[1]);
}

/// The record of a data line takes each field from the last column whose
/// trimmed header names it, decoded: the id, type and source when that
/// value is not empty (else none), the topic and content as they are
/// (empty without such a column), the confidence as written, the
/// reference count when the value is a decimal number, and the tags and
/// examples from the last such column that is not empty, split at `;` and
/// trimmed.
pub proof fn law_import_fields_from_their_columns(
    headers: Seq<Seq<char>>,
    values: Seq<Seq<char>>,
    n: int,
)
    requires
        0 <= n <= headers.len(),
        n <= values.len(),
    ensures
        ({
            let r = record_of(headers, values, n);
            &&& r.memory_type == match column_value(headers, values, "type"@, n) {
                Some(v) => if v.len() > 0 {
                    Some(v)
                } else {
                    None::<Seq<char>>
                },
                None => None,
            }
            &&& r.id == match column_value(headers, values, "id"@, n) {
                Some(v) => if v.len() > 0 {
                    Some(v)
                } else {
                    None::<Seq<char>>
                },
                None => None,
            }
            &&& r.source == match column_value(headers, values, "source"@, n) {
                Some(v) => if v.len() > 0 {
                    Some(v)
                } else {
                    None::<Seq<char>>
                },
                None => None,
            }
            &&& r.topic == match column_value(headers, values, "topic"@, n) {
                Some(v) => v,
                None => Seq::<char>::empty(),
            }
            &&& r.content == match column_value(headers, values, "content"@, n) {
                Some(v) => v,
                None => Seq::<char>::empty(),
            }
            &&& r.confidence == column_value(headers, values, "confidence"@, n)
            &&& r.reference_count == match column_value(headers, values, "reference_count"@, n) {
                Some(v) => parse_u32_text(v),
                None => None,
            }
            &&& r.tags == list_column(headers, values, "tags"@, n)
            &&& r.examples == list_column(headers, values, "examples"@, n)
        }),
    decreases n,
{
    lemma_header_names_differ();
    if n > 0 {
        law_import_fields_from_their_columns(headers, values, n - 1);
    }
}

} // verus!
