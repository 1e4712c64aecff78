//! The comma-separated export of memories: which fields are written, and
//! the text of the header and of each row.

use vstd::prelude::*;
use vstd::string::StringExecFns;
use crate::config::texts;
use crate::csv::{escape_csv_field, escaped_field};
use crate::text::{append_str, push_char, str_eq};

verus! {

/// The texts joined with `sep` between each two of them.
pub open spec fn join_with(s: Seq<Seq<char>>, sep: Seq<char>) -> Seq<char>
    decreases s.len(),
{
    if s.len() == 0 {
        Seq::empty()
    } else if s.len() == 1 {
        s[0]
    } else {
        join_with(s.drop_last(), sep) + sep + s.last()
    }
}

/// A list of the one text, if it is present; else an empty list.
pub open spec fn part_if(present: bool, text: Seq<char>) -> Seq<Seq<char>> {
    if present {
        seq![text]
    } else {
        Seq::empty()
    }
}

/// Joins strings with `sep` between each two of them.
pub fn join_strings(parts: &Vec<String>, sep: &str) -> (r: String)
    ensures
        r@ == join_with(texts(parts@), sep@),
{
    let ghost t = texts(parts@);
    let mut r = String::new();
    let mut i: usize = 0;
    while i < parts.len()
        invariant
            i <= parts@.len(),
            t == texts(parts@),
            r@ == join_with(t.take(i as int), sep@),
        decreases parts.len() - i,
    {
        assert(t.take(i + 1).drop_last() =~= t.take(i as int));
        assert(t.take(i + 1).last() == parts@[i as int]@);
        if i > 0 {
            append_str(&mut r, sep);
        } else {
            assert(t.take(1) =~= seq![parts@[0]@]);
        }
        append_str(&mut r, parts[i].as_str());
        i = i + 1;
    }
    assert(t.take(parts@.len() as int) =~= t);
    r
}

/// The character of the digit `d`.
pub open spec fn digit_char(d: nat) -> char {
    if d == 0 {
        '0'
    } else if d == 1 {
        '1'
    } else if d == 2 {
        '2'
    } else if d == 3 {
        '3'
    } else if d == 4 {
        '4'
    } else if d == 5 {
        '5'
    } else if d == 6 {
        '6'
    } else if d == 7 {
        '7'
    } else if d == 8 {
        '8'
    } else {
        '9'
    }
}

/// The decimal digits of `n`, without leading zeros.
pub open spec fn decimal(n: nat) -> Seq<char>
    decreases n,
{
    if n < 10 {
        seq![digit_char(n)]
    } else {
        decimal(n / 10).push(digit_char(n % 10))
    }
}

fn digit(d: u64) -> (c: char)
    requires
        d < 10,
    ensures
        c == digit_char(d as nat),
{
    match d {
        0 => '0',
        1 => '1',
        2 => '2',
        3 => '3',
        4 => '4',
        5 => '5',
        6 => '6',
        7 => '7',
        8 => '8',
        _ => '9',
    }
}

/// The decimal text of `n`.
pub fn decimal_text(n: u64) -> (r: String)
    ensures
        r@ == decimal(n as nat),
    decreases n,
{
    if n < 10 {
        let mut s = String::new();
        push_char(&mut s, digit(n));
        s
    } else {
        let mut s = decimal_text(n / 10);
        push_char(&mut s, digit(n % 10));
        s
    }
}

/// The decimal text of `n`, with a minus sign before a negative number.
pub open spec fn signed_decimal(n: int) -> Seq<char> {
    if n < 0 {
        seq!['-'] + decimal((-n) as nat)
    } else {
        decimal(n as nat)
    }
}

/// The decimal text of `n`, with a minus sign before a negative number.
pub fn signed_decimal_text(n: i64) -> (r: String)
    ensures
        r@ == signed_decimal(n as int),
{
    if n < 0 {
        let magnitude: u64 = if n == i64::MIN {
            9_223_372_036_854_775_808u64
        } else {
            (-n) as u64
        };
        let mut s = String::from_str("-");
        let digits = decimal_text(magnitude);
        append_str(&mut s, digits.as_str());
        proof {
            reveal_strlit("-");
        }
        s
    } else {
        decimal_text(n as u64)
    }
}

/// A memory as the export writes it; its confidence is already written
/// with two decimals.
#[derive(Debug, Clone)]
pub struct ExportRow {
    pub id: String,
    pub memory_type: String,
    pub topic: String,
    pub tags: Vec<String>,
    pub content: String,
    pub examples: Vec<String>,
    pub reference_count: Option<u32>,
    pub confidence: Option<String>,
    pub created_at: Option<String>,
    pub last_accessed: Option<String>,
    pub source: Option<String>,
    pub deleted: Option<bool>,
}

/// The fields an export can name.
pub open spec fn known_fields() -> Seq<Seq<char>> {
    seq![
        "id"@,
        "type"@,
        "topic"@,
        "tags"@,
        "content"@,
        "examples"@,
        "reference_count"@,
        "confidence"@,
        "created_at"@,
        "last_accessed"@,
        "source"@,
        "deleted"@,
    ]
}

/// The fields written when none are named: the identity and text of each
/// memory, the examples when the first memory has some, the metadata and
/// the deletion mark when asked for.
pub open spec fn default_fields(first_has_examples: bool, include_metadata: bool, include_deleted: bool) -> Seq<
    Seq<char>,
> {
    seq!["id"@, "type"@, "topic"@, "tags"@, "content"@] + (if first_has_examples {
        seq!["examples"@]
    } else {
        Seq::empty()
    }) + (if include_metadata {
        seq!["reference_count"@, "confidence"@, "created_at"@]
    } else {
        Seq::empty()
    }) + (if include_deleted {
        seq!["deleted"@]
    } else {
        Seq::empty()
    })
}

fn push_text(v: &mut Vec<String>, s: &str)
    ensures
        texts(final(v)@) == texts(old(v)@).push(s@),
{
    let ghost before = v@;
    v.push(String::from_str(s));
    assert(texts(v@) =~= texts(before).push(s@));
}

/// The fields to write: the ones named, else the default ones, where the
/// examples count when the first row has some.
pub fn export_fields(
    custom: &Option<Vec<String>>,
    rows: &Vec<ExportRow>,
    include_metadata: bool,
    include_deleted: bool,
) -> (r: Vec<String>)
    ensures
        custom matches Some(c) ==> texts(r@) == texts(c@),
        custom is None ==> texts(r@) == default_fields(
            rows@.len() > 0 && rows@[0].examples@.len() > 0,
            include_metadata,
            include_deleted,
        ),
{
    match custom {
        Some(c) => {
            let r = c.clone();
            assert(texts(r@) =~= texts(c@)) by {
                assert forall|j: int| 0 <= j < r@.len() implies r@[j]@ == c@[j]@ by {}
            }
            r
        },
        None => {
            let mut r: Vec<String> = Vec::new();
            push_text(&mut r, "id");
            push_text(&mut r, "type");
            push_text(&mut r, "topic");
            push_text(&mut r, "tags");
            push_text(&mut r, "content");
            let first_has_examples = rows.len() > 0 && rows[0].examples.len() > 0;
            if first_has_examples {
                push_text(&mut r, "examples");
            }
            if include_metadata {
                push_text(&mut r, "reference_count");
                push_text(&mut r, "confidence");
                push_text(&mut r, "created_at");
            }
            if include_deleted {
                push_text(&mut r, "deleted");
            }
            assert(texts(r@) =~= default_fields(first_has_examples, include_metadata, include_deleted));
            r
        },
    }
}

/// Whether the export can name `f`.
pub fn is_known_field(f: &str) -> (r: bool)
    ensures
        r == known_fields().contains(f@),
{
    let names = [
        "id",
        "type",
        "topic",
        "tags",
        "content",
        "examples",
        "reference_count",
        "confidence",
        "created_at",
        "last_accessed",
        "source",
        "deleted",
    ];
    let ghost k = known_fields();
    assert(names@.map_values(|s: &str| s@) =~= k);
    let mut i: usize = 0;
    while i < 12
        invariant
            i <= 12,
            k == known_fields(),
            names@.map_values(|s: &str| s@) == k,
            forall|j: int| 0 <= j < i ==> k[j] != f@,
        decreases 12 - i,
    {
        assert(names@[i as int]@ == k[i as int]);
        if str_eq(names[i], f) {
            assert(k[i as int] == f@);
            return true;
        }
        i = i + 1;
    }
    assert forall|j: int| 0 <= j < k.len() implies k[j] != f@ by {}
    false
}

/// The named fields the export does not know, in order, for a warning.
pub fn unknown_fields(fields: &Vec<String>) -> (r: Vec<String>)
    ensures
        texts(r@) == texts(fields@).filter(|f: Seq<char>| !known_fields().contains(f)),
{
    let ghost t = texts(fields@);
    let ghost unknown = |f: Seq<char>| !known_fields().contains(f);
    let mut r: Vec<String> = Vec::new();
    let mut i: usize = 0;
    while i < fields.len()
        invariant
            i <= fields@.len(),
            t == texts(fields@),
            unknown == (|f: Seq<char>| !known_fields().contains(f)),
            texts(r@) == t.take(i as int).filter(unknown),
        decreases fields.len() - i,
    {
        assert(t.take(i + 1) =~= t.take(i as int).push(t[i as int]));
        proof {
            t.take(i as int).lemma_filter_push(t[i as int], unknown);
        }
        assert(t[i as int] == fields@[i as int]@);
        if !is_known_field(fields[i].as_str()) {
            let ghost before = r@;
            r.push(fields[i].clone());
            assert(texts(r@) =~= texts(before).push(t[i as int]));
        }
        i = i + 1;
    }
    assert(t.take(fields@.len() as int) =~= t);
    r
}

/// An optional text, empty when missing.
pub open spec fn text_or_empty(o: Option<String>) -> Seq<char> {
    match o {
        Some(s) => s@,
        None => Seq::empty(),
    }
}

/// The cell of the field `f` of a row: text fields escaped for the
/// delimiter, lists joined with `"; "` and escaped, numbers and flags in
/// decimal and as `true`/`false`, missing values and unknown fields empty.
pub open spec fn cell(f: Seq<char>, m: ExportRow, d: Seq<char>) -> Seq<char> {
    if f == "id"@ {
        m.id@
    } else if f == "type"@ {
        m.memory_type@
    } else if f == "topic"@ {
        escaped_field(m.topic@, d)
    } else if f == "tags"@ {
        escaped_field(join_with(texts(m.tags@), "; "@), d)
    } else if f == "content"@ {
        escaped_field(m.content@, d)
    } else if f == "examples"@ {
        escaped_field(join_with(texts(m.examples@), "; "@), d)
    } else if f == "reference_count"@ {
        match m.reference_count {
            Some(v) => decimal(v as nat),
            None => Seq::empty(),
        }
    } else if f == "confidence"@ {
        text_or_empty(m.confidence)
    } else if f == "created_at"@ {
        text_or_empty(m.created_at)
    } else if f == "last_accessed"@ {
        text_or_empty(m.last_accessed)
    } else if f == "source"@ {
        text_or_empty(m.source)
    } else if f == "deleted"@ {
        match m.deleted {
            Some(b) => if b {
                "true"@
            } else {
                "false"@
            },
            None => Seq::empty(),
        }
    } else {
        Seq::empty()
    }
}

fn option_text(o: &Option<String>) -> (r: String)
    ensures
        r@ == text_or_empty(*o),
{
    match o {
        Some(s) => s.clone(),
        None => String::new(),
    }
}

/// The cell of the field `f` of a row (see `cell`).
pub fn cell_text(f: &str, m: &ExportRow, delimiter: &str) -> (r: String)
    ensures
        r@ == cell(f@, *m, delimiter@),
{
    if str_eq(f, "id") {
        m.id.clone()
    } else if str_eq(f, "type") {
        m.memory_type.clone()
    } else if str_eq(f, "topic") {
        escape_csv_field(m.topic.as_str(), delimiter)
    } else if str_eq(f, "tags") {
        let joined = join_strings(&m.tags, "; ");
        escape_csv_field(joined.as_str(), delimiter)
    } else if str_eq(f, "content") {
        escape_csv_field(m.content.as_str(), delimiter)
    } else if str_eq(f, "examples") {
        let joined = join_strings(&m.examples, "; ");
        escape_csv_field(joined.as_str(), delimiter)
    } else if str_eq(f, "reference_count") {
        match m.reference_count {
            Some(v) => decimal_text(v as u64),
            None => String::new(),
        }
    } else if str_eq(f, "confidence") {
        option_text(&m.confidence)
    } else if str_eq(f, "created_at") {
        option_text(&m.created_at)
    } else if str_eq(f, "last_accessed") {
        option_text(&m.last_accessed)
    } else if str_eq(f, "source") {
        option_text(&m.source)
    } else if str_eq(f, "deleted") {
        match m.deleted {
            Some(b) => if b {
                String::from_str("true")
            } else {
                String::from_str("false")
            },
            None => String::new(),
        }
    } else {
        String::new()
    }
}

/// The line of a row: its cells joined with the delimiter, then a line feed.
pub open spec fn row_line(fields: Seq<Seq<char>>, m: ExportRow, d: Seq<char>) -> Seq<char> {
    join_with(fields.map_values(|f: Seq<char>| cell(f, m, d)), d) + seq!['\n']
}

/// The lines of the rows, one after the other.
pub open spec fn row_lines(fields: Seq<Seq<char>>, rows: Seq<ExportRow>, d: Seq<char>) -> Seq<char>
    decreases rows.len(),
{
    if rows.len() == 0 {
        Seq::empty()
    } else {
        row_lines(fields, rows.drop_last(), d) + row_line(fields, rows.last(), d)
    }
}

/// The whole export: the field names joined with the delimiter as the
/// header line, then a line per row.
pub open spec fn export_text(fields: Seq<Seq<char>>, rows: Seq<ExportRow>, d: Seq<char>) -> Seq<char> {
    join_with(fields, d) + seq!['\n'] + row_lines(fields, rows, d)
}

/// The line of one row (see `row_line`).
pub fn row_text(fields: &Vec<String>, m: &ExportRow, delimiter: &str) -> (r: String)
    ensures
        r@ == row_line(texts(fields@), *m, delimiter@),
{
    let ghost cells = texts(fields@).map_values(|f: Seq<char>| cell(f, *m, delimiter@));
    let mut parts: Vec<String> = Vec::new();
    let mut i: usize = 0;
    while i < fields.len()
        invariant
            i <= fields@.len(),
            cells == texts(fields@).map_values(|f: Seq<char>| cell(f, *m, delimiter@)),
            texts(parts@) == cells.take(i as int),
        decreases fields.len() - i,
    {
        let c = cell_text(fields[i].as_str(), m, delimiter);
        let ghost before = parts@;
        parts.push(c);
        assert(texts(parts@) =~= cells.take(i + 1)) by {
            assert(cells[i as int] == cell(fields@[i as int]@, *m, delimiter@));
            assert(texts(parts@) =~= texts(before).push(cells[i as int]));
            assert(cells.take(i + 1) =~= cells.take(i as int).push(cells[i as int]));
        }
        i = i + 1;
    }
    assert(cells.take(fields@.len() as int) =~= cells);
    let mut line = join_strings(&parts, delimiter);
    push_char(&mut line, '\n');
    line
}

/// The comma-separated export of the rows with the given fields (see
/// `export_text`).
pub fn export_csv(fields: &Vec<String>, delimiter: &str, rows: &Vec<ExportRow>) -> (r: String)
    ensures
        r@ == export_text(texts(fields@), rows@, delimiter@),
{
    let mut out = join_strings(fields, delimiter);
    push_char(&mut out, '\n');
    let ghost head = out@;
    let mut i: usize = 0;
    while i < rows.len()
        invariant
            i <= rows@.len(),
            head == join_with(texts(fields@), delimiter@) + seq!['\n'],
            out@ == head + row_lines(texts(fields@), rows@.take(i as int), delimiter@),
        decreases rows.len() - i,
    {
        let line = row_text(fields, &rows[i], delimiter);
        append_str(&mut out, line.as_str());
        assert(rows@.take(i + 1).drop_last() =~= rows@.take(i as int));
        assert(rows@.take(i + 1).last() == rows@[i as int]);
        assert(out@ =~= head + row_lines(texts(fields@), rows@.take(i + 1), delimiter@));
        i = i + 1;
    }
    assert(rows@.take(rows@.len() as int) =~= rows@);
    out
}

/// Each column of an exported row holds that row's own value of the field
/// it names, and nothing of the other fields: ids and types as they are,
/// topic and content escaped for the delimiter, tags and examples joined
/// with `; ` and escaped, dates, confidence and
/// source as their text (empty when missing), the reference count in
/// decimal, the deleted flag as `true` or `false`.
pub proof fn law_export_columns_hold_their_field(m: ExportRow, d: Seq<char>)
    ensures
        cell("id"@, m, d) == m.id@,
        cell("type"@, m, d) == m.memory_type@,
        cell("topic"@, m, d) == escaped_field(m.topic@, d),
        cell("content"@, m, d) == escaped_field(m.content@, d),
        cell("tags"@, m, d) == escaped_field(join_with(texts(m.tags@), "; "@), d),
        cell("examples"@, m, d) == escaped_field(join_with(texts(m.examples@), "; "@), d),
        cell("created_at"@, m, d) == text_or_empty(m.created_at),
        cell("last_accessed"@, m, d) == text_or_empty(m.last_accessed),
        cell("confidence"@, m, d) == text_or_empty(m.confidence),
        cell("source"@, m, d) == text_or_empty(m.source),
        m.reference_count matches Some(n) ==> cell("reference_count"@, m, d) == decimal(n as nat),
        m.reference_count is None ==> cell("reference_count"@, m, d) == Seq::<char>::empty(),
        m.deleted == Some(true) ==> cell("deleted"@, m, d) == "true"@,
        m.deleted == Some(false) ==> cell("deleted"@, m, d) == "false"@,
{
    reveal_strlit("id");
    reveal_strlit("type");
    reveal_strlit("topic");
    reveal_strlit("tags");
    reveal_strlit("content");
    reveal_strlit("examples");
    reveal_strlit("reference_count");
    reveal_strlit("confidence");
    reveal_strlit("created_at");
    reveal_strlit("last_accessed");
    reveal_strlit("source");
    reveal_strlit("deleted");
    assert("id"@.len() == 2);
    assert("type"@.len() == 4);
    assert("topic"@.len() == 5);
    assert("tags"@.len() == 4);
    assert("content"@.len() == 7);
    assert("examples"@.len() == 8);
    assert("reference_count"@.len() == 15);
    assert("confidence"@.len() == 10);
    assert("created_at"@.len() == 10);
    assert("last_accessed"@.len() == 13);
    assert("source"@.len() == 6);
    assert("deleted"@.len() == 7);
    assert("type"@[0] != "tags"@[0] || "type"@[1] != "tags"@[1]);
    assert("content"@[0] != "deleted"@[0]);
    assert("confidence"@[1] != "created_at"@[1]);
}

} // verus!
