//! Report generation: every report is fetched, transformed and formatted by
//! the same steps, and each report type supplies its own format. Reports are
//! rendered to bytes here; writing them out is left to the caller.
use vstd::prelude::*;
use vstd::string::StrSliceExecFns;
use vstd::utf8::encode_utf8;
use crate::fields::Fields;
use crate::text::{
    all_ascii, ascii_lower, chars_of, contains_char, decimal, join, lowercase, owned, push_char, push_decimal,
    push_join, push_str, str_eq, strs, to_lowercase,
};
use crate::sys::write_stdout_line;

verus! {

/// A row as the database gives it: column names to values.
#[derive(Debug, Clone)]
pub struct RawRecord {
    pub fields: Fields,
}

/// The data of a report: a title, column headers and rows of cells.
#[derive(Debug, Clone)]
pub struct ReportData {
    pub title: String,
    pub headers: Vec<String>,
    pub rows: Vec<Vec<String>>,
}

/// A rendered report: its bytes and the extension of its file.
#[derive(Debug, Clone)]
pub struct RenderedReport {
    pub content: Vec<u8>,
    pub file_extension: String,
}

/// What to report on, under which title, and where.
#[derive(Debug, Clone)]
pub struct ReportRequest {
    pub query: String,
    pub title: String,
    pub output_path: String,
}

/// The step of report generation that failed, with why.
#[derive(Debug)]
pub enum ReportError {
    FetchError(String),
    TransformError(String),
    FormatError(String),
    WriteError(String),
}

pub open spec fn report_error_text(e: ReportError) -> Seq<char> {
    match e {
        ReportError::FetchError(m) => "Fetch error: "@ + m@,
        ReportError::TransformError(m) => "Transform error: "@ + m@,
        ReportError::FormatError(m) => "Format error: "@ + m@,
        ReportError::WriteError(m) => "Write error: "@ + m@,
    }
}

impl ReportError {
    /// The step that failed and why.
    pub fn to_string(&self) -> (r: String)
        ensures
            r@ == report_error_text(*self),
    {
        let mut s = String::new();
        match self {
            ReportError::FetchError(m) => {
                push_str(&mut s, "Fetch error: ");
                push_str(&mut s, m.as_str());
            },
            ReportError::TransformError(m) => {
                push_str(&mut s, "Transform error: ");
                push_str(&mut s, m.as_str());
            },
            ReportError::FormatError(m) => {
                push_str(&mut s, "Format error: ");
                push_str(&mut s, m.as_str());
            },
            ReportError::WriteError(m) => {
                push_str(&mut s, "Write error: ");
                push_str(&mut s, m.as_str());
            },
        }
        s
    }
}

/// The cells of each row.
pub open spec fn rows_view(rows: Seq<Vec<String>>) -> Seq<Seq<Seq<char>>> {
    rows.map_values(|r: Vec<String>| strs(r@))
}

/// The value of `key` in a record, or nothing.
pub open spec fn field_or_empty(m: Map<Seq<char>, Seq<char>>, key: Seq<char>) -> Seq<char> {
    if m.dom().contains(key) {
        m[key]
    } else {
        Seq::empty()
    }
}

/// The records of the data source: two, with their `id`, `name` and `amount`.
pub open spec fn are_sample_records(r: Seq<RawRecord>) -> bool {
    &&& r.len() == 2
    &&& r[0].fields.map() == map!["id"@ => "1"@, "name"@ => "Alice"@, "amount"@ => "1500.00"@]
    &&& r[1].fields.map() == map!["id"@ => "2"@, "name"@ => "Bob"@, "amount"@ => "2300.50"@]
}

/// `d` is the report data of `raw` under `title`, as `to_report_data` makes it.
pub open spec fn is_report_data_of(d: ReportData, raw: Seq<RawRecord>, title: Seq<char>) -> bool {
    &&& d.title@ == title
    &&& strs(d.headers@) == seq!["ID"@, "Name"@, "Amount"@]
    &&& d.rows@.len() == raw.len()
    &&& forall|k: int| 0 <= k < raw.len() ==> #[trigger] strs(d.rows@[k]@) == seq![
        field_or_empty(raw[k].fields.map(), "id"@),
        field_or_empty(raw[k].fields.map(), "name"@),
        field_or_empty(raw[k].fields.map(), "amount"@),
    ]
}

/// The records the data source gives.
pub fn sample_records() -> (r: Vec<RawRecord>)
    ensures
        r@.len() == 2,
        r@[0].fields.map() == map!["id"@ => "1"@, "name"@ => "Alice"@, "amount"@ => "1500.00"@],
        r@[1].fields.map() == map!["id"@ => "2"@, "name"@ => "Bob"@, "amount"@ => "2300.50"@],
{
    let mut row1 = Fields::new();
    row1.insert("id", "1");
    row1.insert("name", "Alice");
    row1.insert("amount", "1500.00");
    let mut row2 = Fields::new();
    row2.insert("id", "2");
    row2.insert("name", "Bob");
    row2.insert("amount", "2300.50");
    proof {
        assert(row1.map() =~= map!["id"@ => "1"@, "name"@ => "Alice"@, "amount"@ => "1500.00"@]);
        assert(row2.map() =~= map!["id"@ => "2"@, "name"@ => "Bob"@, "amount"@ => "2300.50"@]);
    }
    let mut r: Vec<RawRecord> = Vec::new();
    r.push(RawRecord { fields: row1 });
    r.push(RawRecord { fields: row2 });
    r
}

/// The value of `key`, or an empty string.
fn value_or_empty(f: &Fields, key: &str) -> (r: String)
    ensures
        r@ == field_or_empty(f.map(), key@),
{
    match f.get(key) {
        Some(v) => v.clone(),
        None => String::new(),
    }
}

/// The report data of records: headers `ID`, `Name`, `Amount`, and for each
/// record its `id`, `name` and `amount`, empty where missing.
pub fn to_report_data(raw: &Vec<RawRecord>, title: &str) -> (r: ReportData)
    ensures
        r.title@ == title@,
        strs(r.headers@) == seq!["ID"@, "Name"@, "Amount"@],
        r.rows@.len() == raw@.len(),
        forall|k: int| 0 <= k < raw@.len() ==> #[trigger] strs(r.rows@[k]@) == seq![
            field_or_empty(raw@[k].fields.map(), "id"@),
            field_or_empty(raw@[k].fields.map(), "name"@),
            field_or_empty(raw@[k].fields.map(), "amount"@),
        ],
{
    let mut headers: Vec<String> = Vec::new();
    headers.push(owned("ID"));
    headers.push(owned("Name"));
    headers.push(owned("Amount"));
    proof {
        assert(strs(headers@) =~= seq!["ID"@, "Name"@, "Amount"@]);
    }
    let mut rows: Vec<Vec<String>> = Vec::new();
    let mut i: usize = 0;
    while i < raw.len()
        invariant
            0 <= i <= raw@.len(),
            rows@.len() == i,
            forall|k: int| 0 <= k < i ==> #[trigger] strs(rows@[k]@) == seq![
                field_or_empty(raw@[k].fields.map(), "id"@),
                field_or_empty(raw@[k].fields.map(), "name"@),
                field_or_empty(raw@[k].fields.map(), "amount"@),
            ],
        decreases raw@.len() - i,
    {
        let f = &raw[i].fields;
        let mut row: Vec<String> = Vec::new();
        row.push(value_or_empty(f, "id"));
        row.push(value_or_empty(f, "name"));
        row.push(value_or_empty(f, "amount"));
        proof {
            assert(strs(row@) =~= seq![
                field_or_empty(raw@[i as int].fields.map(), "id"@),
                field_or_empty(raw@[i as int].fields.map(), "name"@),
                field_or_empty(raw@[i as int].fields.map(), "amount"@),
            ]);
        }
        rows.push(row);
        i = i + 1;
    }
    ReportData { title: owned(title), headers, rows }
}

// ---------------------------------------------------------------------------
// CSV
// ---------------------------------------------------------------------------

/// `f` with each double quote doubled.
pub open spec fn double_quotes(f: Seq<char>) -> Seq<char>
    decreases f.len(),
{
    if f.len() == 0 {
        Seq::empty()
    } else if f.last() == '\u{22}' {
        double_quotes(f.drop_last()) + "\"\""@
    } else {
        double_quotes(f.drop_last()).push(f.last())
    }
}

/// A CSV field: quoted, with its quotes doubled, when it holds a comma or a
/// double quote.
pub open spec fn csv_field(f: Seq<char>) -> Seq<char> {
    if f.contains(',') || f.contains('\u{22}') {
        "\""@ + double_quotes(f) + "\""@
    } else {
        f
    }
}

/// The CSV lines of the rows.
pub open spec fn csv_lines(rows: Seq<Seq<Seq<char>>>) -> Seq<char>
    decreases rows.len(),
{
    if rows.len() == 0 {
        Seq::empty()
    } else {
        csv_lines(rows.drop_last()) + join(rows.last().map_values(|f: Seq<char>| csv_field(f)), ","@) + "\n"@
    }
}

/// CSV rows are written in input order: the rows of `a` then those of `b`
/// give the lines of `a` then those of `b`, and one row gives one line, its
/// fields escaped and joined by commas.
pub proof fn lemma_csv_lines_in_order(a: Seq<Seq<Seq<char>>>, b: Seq<Seq<Seq<char>>>, r: Seq<Seq<char>>)
    ensures
        csv_lines(a + b) == csv_lines(a) + csv_lines(b),
        csv_lines(seq![r]) == join(r.map_values(|f: Seq<char>| csv_field(f)), ","@) + "\n"@,
        csv_lines(Seq::empty()) == Seq::<char>::empty(),
    decreases b.len(),
{
    if b.len() == 0 {
        assert(a + b =~= a);
        assert(csv_lines(a) + Seq::<char>::empty() =~= csv_lines(a));
    } else {
        lemma_csv_lines_in_order(a, b.drop_last(), r);
        assert((a + b).drop_last() =~= a + b.drop_last());
        assert((a + b).last() == b.last());
        let la = csv_lines(a);
        let lb = csv_lines(b.drop_last());
        let line = join(b.last().map_values(|f: Seq<char>| csv_field(f)), ","@) + "\n"@;
        assert(la + lb + join(b.last().map_values(|f: Seq<char>| csv_field(f)), ","@) + "\n"@ =~= la + (lb + line));
    }
    assert(seq![r].drop_last() =~= Seq::<Seq<Seq<char>>>::empty());
    assert(seq![r].last() == r);
    assert(csv_lines(seq![r].drop_last()) == Seq::<char>::empty());
    assert(Seq::<char>::empty() + join(r.map_values(|f: Seq<char>| csv_field(f)), ","@) + "\n"@
        =~= join(r.map_values(|f: Seq<char>| csv_field(f)), ","@) + "\n"@);
}

/// The CSV text of a report: the header line, then a line for each row.
pub open spec fn csv_text(title: Seq<char>, headers: Seq<Seq<char>>, rows: Seq<Seq<Seq<char>>>) -> Seq<char> {
    join(headers, ","@) + "\n"@ + csv_lines(rows)
}

/// A field as CSV writes it.
pub fn csv_escape(f: &str) -> (r: String)
    ensures
        r@ == csv_field(f@),
{
    let cs = chars_of(f);
    if contains_char(cs.as_slice(), ',') || contains_char(cs.as_slice(), '\u{22}') {
        let mut s = String::new();
        push_str(&mut s, "\"");
        let ghost head = s@;
        let mut i: usize = 0;
        while i < cs.len()
            invariant
                cs@ == f@,
                0 <= i <= cs@.len(),
                s@ == head + double_quotes(cs@.take(i as int)),
            decreases cs@.len() - i,
        {
            proof {
                assert(cs@.take(i + 1).drop_last() == cs@.take(i as int));
            }
            if cs[i] == '\u{22}' {
                push_str(&mut s, "\"\"");
            } else {
                push_char(&mut s, cs[i]);
            }
            i = i + 1;
        }
        proof {
            assert(cs@.take(i as int) == cs@);
        }
        push_str(&mut s, "\"");
        s
    } else {
        owned(f)
    }
}

/// The UTF-8 bytes of `s`.
fn utf8_bytes(s: &String) -> (r: Vec<u8>)
    ensures
        r@ == encode_utf8(s@),
{
    s.as_str().as_bytes_vec()
}

/// Writes reports as comma-separated values.
#[derive(Debug, Clone, Copy)]
pub struct CsvReportGenerator;

impl CsvReportGenerator {
    /// The report in CSV, as `csv_text` says.
    pub fn render(&self, data: &ReportData) -> (r: RenderedReport)
        ensures
            r.content@ == encode_utf8(csv_text(data.title@, strs(data.headers@), rows_view(data.rows@))),
            r.file_extension@ == "csv"@,
    {
        let mut out = String::new();
        push_join(&mut out, data.headers.as_slice(), ",");
        push_str(&mut out, "\n");
        let ghost head = out@;
        let mut i: usize = 0;
        while i < data.rows.len()
            invariant
                0 <= i <= data.rows@.len(),
                out@ == head + csv_lines(rows_view(data.rows@.take(i as int))),
            decreases data.rows@.len() - i,
        {
            let row = &data.rows[i];
            let mut escaped: Vec<String> = Vec::new();
            let mut j: usize = 0;
            while j < row.len()
                invariant
                    0 <= j <= row@.len(),
                    escaped@.len() == j,
                    forall|k: int| 0 <= k < j ==> (#[trigger] escaped@[k])@ == csv_field(row@[k]@),
                decreases row@.len() - j,
            {
                escaped.push(csv_escape(row[j].as_str()));
                j = j + 1;
            }
            push_join(&mut out, escaped.as_slice(), ",");
            push_str(&mut out, "\n");
            proof {
                assert(strs(escaped@) =~= strs(row@).map_values(|f: Seq<char>| csv_field(f)));
                assert(rows_view(data.rows@.take(i + 1)).drop_last() =~= rows_view(data.rows@.take(i as int)));
                assert(rows_view(data.rows@.take(i + 1)).last() == strs(row@));
            }
            i = i + 1;
        }
        proof {
            assert(data.rows@.take(i as int) == data.rows@);
        }
        RenderedReport { content: utf8_bytes(&out), file_extension: owned("csv") }
    }
}

// ---------------------------------------------------------------------------
// HTML
// ---------------------------------------------------------------------------

/// Each part between `open` and `close`, one after the other.
pub open spec fn enclose_each(parts: Seq<Seq<char>>, open: Seq<char>, close: Seq<char>) -> Seq<char>
    decreases parts.len(),
{
    if parts.len() == 0 {
        Seq::empty()
    } else {
        enclose_each(parts.drop_last(), open, close) + open + parts.last() + close
    }
}

/// Appends each string between `open` and `close`.
fn push_enclosed(s: &mut String, parts: &[String], open: &str, close: &str)
    ensures
        final(s)@ == old(s)@ + enclose_each(strs(parts@), open@, close@),
{
    let ghost head = s@;
    let mut i: usize = 0;
    while i < parts.len()
        invariant
            0 <= i <= parts@.len(),
            s@ == head + enclose_each(strs(parts@.take(i as int)), open@, close@),
        decreases parts@.len() - i,
    {
        proof {
            assert(strs(parts@.take(i + 1)).drop_last() == strs(parts@.take(i as int)));
        }
        push_str(s, open);
        push_str(s, parts[i].as_str());
        push_str(s, close);
        i = i + 1;
    }
    proof {
        assert(parts@.take(i as int) == parts@);
    }
}

/// The table rows of an HTML report.
pub open spec fn html_rows(rows: Seq<Seq<Seq<char>>>) -> Seq<char>
    decreases rows.len(),
{
    if rows.len() == 0 {
        Seq::empty()
    } else {
        html_rows(rows.drop_last()) + "<tr>"@ + enclose_each(rows.last(), "<td>"@, "</td>"@) + "</tr>\n"@
    }
}

/// Cells are written in input order: the cells of `a` then those of `b`
/// give the enclosed cells of `a` then those of `b`, and one cell is written
/// between `open` and `close`.
pub proof fn lemma_enclose_each_in_order(a: Seq<Seq<char>>, b: Seq<Seq<char>>, x: Seq<char>, open: Seq<char>, close: Seq<char>)
    ensures
        enclose_each(a + b, open, close) == enclose_each(a, open, close) + enclose_each(b, open, close),
        enclose_each(seq![x], open, close) == open + x + close,
        enclose_each(Seq::empty(), open, close) == Seq::<char>::empty(),
    decreases b.len(),
{
    if b.len() == 0 {
        assert(a + b =~= a);
        assert(enclose_each(a, open, close) + Seq::<char>::empty() =~= enclose_each(a, open, close));
    } else {
        lemma_enclose_each_in_order(a, b.drop_last(), x, open, close);
        assert((a + b).drop_last() =~= a + b.drop_last());
        assert((a + b).last() == b.last());
        let ea = enclose_each(a, open, close);
        let eb = enclose_each(b.drop_last(), open, close);
        assert(ea + eb + open + b.last() + close =~= ea + (eb + open + b.last() + close));
    }
    assert(seq![x].drop_last() =~= Seq::<Seq<char>>::empty());
    assert(seq![x].last() == x);
    assert(enclose_each(seq![x].drop_last(), open, close) == Seq::<char>::empty());
    assert(enclose_each(seq![x], open, close) == Seq::<char>::empty() + open + x + close);
    assert(Seq::<char>::empty() + open + x + close =~= open + x + close);
}

/// Rows are written in input order: the rows of `a` then those of `b` give
/// the lines of `a` then those of `b`, and one row gives one table line, its
/// cells in order.
pub proof fn lemma_html_rows_in_order(a: Seq<Seq<Seq<char>>>, b: Seq<Seq<Seq<char>>>, r: Seq<Seq<char>>)
    ensures
        html_rows(a + b) == html_rows(a) + html_rows(b),
        html_rows(seq![r]) == "<tr>"@ + enclose_each(r, "<td>"@, "</td>"@) + "</tr>\n"@,
        html_rows(Seq::empty()) == Seq::<char>::empty(),
    decreases b.len(),
{
    if b.len() == 0 {
        assert(a + b =~= a);
        assert(html_rows(a) + Seq::<char>::empty() =~= html_rows(a));
    } else {
        lemma_html_rows_in_order(a, b.drop_last(), r);
        assert((a + b).drop_last() =~= a + b.drop_last());
        assert((a + b).last() == b.last());
        let ha = html_rows(a);
        let hb = html_rows(b.drop_last());
        assert(ha + hb + "<tr>"@ + enclose_each(b.last(), "<td>"@, "</td>"@) + "</tr>\n"@ =~= ha + (hb + "<tr>"@
            + enclose_each(b.last(), "<td>"@, "</td>"@) + "</tr>\n"@));
    }
    assert(seq![r].drop_last() =~= Seq::<Seq<Seq<char>>>::empty());
    assert(seq![r].last() == r);
    assert(html_rows(seq![r].drop_last()) == Seq::<char>::empty());
    assert(html_rows(seq![r]) == Seq::<char>::empty() + "<tr>"@ + enclose_each(r, "<td>"@, "</td>"@) + "</tr>\n"@);
    assert(Seq::<char>::empty() + "<tr>"@ + enclose_each(r, "<td>"@, "</td>"@) + "</tr>\n"@
        =~= "<tr>"@ + enclose_each(r, "<td>"@, "</td>"@) + "</tr>\n"@);
}

/// The start of every HTML report, up to its title.
pub open spec fn html_head() -> Seq<char> {
    "<!DOCTYPE html>\n<html><head><meta charset=\"utf-8\">\n"@
}

/// The style sheet of every HTML report.
pub open spec fn html_style() -> Seq<char> {
    "<style>\n"@ + "  table { border-collapse: collapse; width: 100%; }\n"@
        + "  th, td { border: 1px solid #ddd; padding: 8px; text-align: left; }\n"@
        + "  th { background-color: #4CAF50; color: white; }\n"@ + "</style>\n</head><body>\n"@
}

/// The HTML text of a report: a page with the title and a table.
pub open spec fn html_text(title: Seq<char>, headers: Seq<Seq<char>>, rows: Seq<Seq<Seq<char>>>) -> Seq<char> {
    html_head() + "<title>"@ + title + "</title>\n"@ + html_style() + "<h1>"@ + title + "</h1>\n<table>\n<tr>"@
        + enclose_each(headers, "<th>"@, "</th>"@) + "</tr>\n"@ + html_rows(rows) + "</table>\n</body></html>"@
}

/// Writes reports as an HTML page with a table.
#[derive(Debug, Clone, Copy)]
pub struct HtmlReportGenerator;

impl HtmlReportGenerator {
    /// The report in HTML, as `html_text` says.
    pub fn render(&self, data: &ReportData) -> (r: RenderedReport)
        ensures
            r.content@ == encode_utf8(html_text(data.title@, strs(data.headers@), rows_view(data.rows@))),
            r.file_extension@ == "html"@,
    {
        let mut h = String::new();
        push_str(&mut h, "<!DOCTYPE html>\n<html><head><meta charset=\"utf-8\">\n");
        push_str(&mut h, "<title>");
        push_str(&mut h, data.title.as_str());
        push_str(&mut h, "</title>\n");
        push_str(&mut h, "<style>\n");
        push_str(&mut h, "  table { border-collapse: collapse; width: 100%; }\n");
        push_str(&mut h, "  th, td { border: 1px solid #ddd; padding: 8px; text-align: left; }\n");
        push_str(&mut h, "  th { background-color: #4CAF50; color: white; }\n");
        push_str(&mut h, "</style>\n</head><body>\n");
        push_str(&mut h, "<h1>");
        push_str(&mut h, data.title.as_str());
        push_str(&mut h, "</h1>\n<table>\n<tr>");
        push_enclosed(&mut h, data.headers.as_slice(), "<th>", "</th>");
        push_str(&mut h, "</tr>\n");
        let ghost head = h@;
        let mut i: usize = 0;
        while i < data.rows.len()
            invariant
                0 <= i <= data.rows@.len(),
                h@ == head + html_rows(rows_view(data.rows@.take(i as int))),
            decreases data.rows@.len() - i,
        {
            push_str(&mut h, "<tr>");
            push_enclosed(&mut h, data.rows[i].as_slice(), "<td>", "</td>");
            push_str(&mut h, "</tr>\n");
            proof {
                assert(rows_view(data.rows@.take(i + 1)).drop_last() =~= rows_view(data.rows@.take(i as int)));
                assert(rows_view(data.rows@.take(i + 1)).last() == strs(data.rows@[i as int]@));
            }
            i = i + 1;
        }
        proof {
            assert(data.rows@.take(i as int) == data.rows@);
        }
        push_str(&mut h, "</table>\n</body></html>");
        proof {
            assert(h@ =~= html_text(data.title@, strs(data.headers@), rows_view(data.rows@)));
        }
        RenderedReport { content: utf8_bytes(&h), file_extension: owned("html") }
    }
}

// ---------------------------------------------------------------------------
// PDF (a placeholder layout)
// ---------------------------------------------------------------------------

/// The row lines of a PDF report.
pub open spec fn pdf_rows(rows: Seq<Seq<Seq<char>>>) -> Seq<char>
    decreases rows.len(),
{
    if rows.len() == 0 {
        Seq::empty()
    } else {
        pdf_rows(rows.drop_last()) + "Row: "@ + join(rows.last(), " | "@) + "\n"@
    }
}

/// PDF rows are written in input order: the rows of `a` then those of `b`
/// give the lines of `a` then those of `b`, and one row gives one line, its
/// cells joined by ` | `.
pub proof fn lemma_pdf_rows_in_order(a: Seq<Seq<Seq<char>>>, b: Seq<Seq<Seq<char>>>, r: Seq<Seq<char>>)
    ensures
        pdf_rows(a + b) == pdf_rows(a) + pdf_rows(b),
        pdf_rows(seq![r]) == "Row: "@ + join(r, " | "@) + "\n"@,
        pdf_rows(Seq::empty()) == Seq::<char>::empty(),
    decreases b.len(),
{
    if b.len() == 0 {
        assert(a + b =~= a);
        assert(pdf_rows(a) + Seq::<char>::empty() =~= pdf_rows(a));
    } else {
        lemma_pdf_rows_in_order(a, b.drop_last(), r);
        assert((a + b).drop_last() =~= a + b.drop_last());
        assert((a + b).last() == b.last());
        let pa = pdf_rows(a);
        let pb = pdf_rows(b.drop_last());
        assert(pa + pb + "Row: "@ + join(b.last(), " | "@) + "\n"@ =~= pa + (pb + "Row: "@ + join(b.last(), " | "@) + "\n"@));
    }
    assert(seq![r].drop_last() =~= Seq::<Seq<Seq<char>>>::empty());
    assert(seq![r].last() == r);
    assert(pdf_rows(seq![r].drop_last()) == Seq::<char>::empty());
    assert(Seq::<char>::empty() + "Row: "@ + join(r, " | "@) + "\n"@ =~= "Row: "@ + join(r, " | "@) + "\n"@);
}

/// The text of a PDF report: a marker, the title, the columns, then a line
/// for each row.
pub open spec fn pdf_text(title: Seq<char>, headers: Seq<Seq<char>>, rows: Seq<Seq<Seq<char>>>) -> Seq<char> {
    "%%PDF-PLACEHOLDER\nTitle: "@ + title + "\n"@ + "Columns: "@ + join(headers, " | "@) + "\n"@ + pdf_rows(rows)
}

/// Writes reports in a placeholder PDF layout.
#[derive(Debug, Clone, Copy)]
pub struct PdfReportGenerator;

impl PdfReportGenerator {
    /// The report in the PDF layout, as `pdf_text` says.
    pub fn render(&self, data: &ReportData) -> (r: RenderedReport)
        ensures
            r.content@ == encode_utf8(pdf_text(data.title@, strs(data.headers@), rows_view(data.rows@))),
            r.file_extension@ == "pdf"@,
    {
        let mut c = String::new();
        push_str(&mut c, "%%PDF-PLACEHOLDER\nTitle: ");
        push_str(&mut c, data.title.as_str());
        push_str(&mut c, "\n");
        push_str(&mut c, "Columns: ");
        push_join(&mut c, data.headers.as_slice(), " | ");
        push_str(&mut c, "\n");
        let ghost head = c@;
        let mut i: usize = 0;
        while i < data.rows.len()
            invariant
                0 <= i <= data.rows@.len(),
                c@ == head + pdf_rows(rows_view(data.rows@.take(i as int))),
            decreases data.rows@.len() - i,
        {
            push_str(&mut c, "Row: ");
            push_join(&mut c, data.rows[i].as_slice(), " | ");
            push_str(&mut c, "\n");
            proof {
                assert(rows_view(data.rows@.take(i + 1)).drop_last() =~= rows_view(data.rows@.take(i as int)));
                assert(rows_view(data.rows@.take(i + 1)).last() == strs(data.rows@[i as int]@));
            }
            i = i + 1;
        }
        proof {
            assert(data.rows@.take(i as int) == data.rows@);
            assert(c@ =~= pdf_text(data.title@, strs(data.headers@), rows_view(data.rows@)));
        }
        RenderedReport { content: utf8_bytes(&c), file_extension: owned("pdf") }
    }
}

// ---------------------------------------------------------------------------
// JSON
// ---------------------------------------------------------------------------

/// The `"header": "value"` pairs of a row, as far as both go.
pub open spec fn json_pairs(headers: Seq<Seq<char>>, row: Seq<Seq<char>>) -> Seq<Seq<char>> {
    let n = if headers.len() <= row.len() { headers.len() } else { row.len() };
    Seq::new(n, |k: int| "\""@ + headers[k] + "\": \""@ + row[k] + "\""@)
}

/// The record lines of a JSON report; every record but the last of `total`
/// is followed by a comma.
pub open spec fn json_records(headers: Seq<Seq<char>>, rows: Seq<Seq<Seq<char>>>, total: int) -> Seq<char>
    decreases rows.len(),
{
    if rows.len() == 0 {
        Seq::empty()
    } else {
        json_records(headers, rows.drop_last(), total) + "    {"@ + join(json_pairs(headers, rows.last()), ", "@) + "}"@
            + (if rows.len() - 1 < total - 1 { ","@ } else { Seq::empty() }) + "\n"@
    }
}

/// The JSON text of a report: its title and a record for each row.
pub open spec fn json_text(title: Seq<char>, headers: Seq<Seq<char>>, rows: Seq<Seq<Seq<char>>>) -> Seq<char> {
    "{\n"@ + "  \"title\": \""@ + title + "\",\n"@ + "  \"records\": [\n"@ + json_records(headers, rows, rows.len() as int)
        + "  ]\n}"@
}

/// Writes reports as JSON.
#[derive(Debug, Clone, Copy)]
pub struct JsonReportGenerator;

impl JsonReportGenerator {
    /// The report in JSON, as `json_text` says.
    pub fn render(&self, data: &ReportData) -> (r: RenderedReport)
        ensures
            r.content@ == encode_utf8(json_text(data.title@, strs(data.headers@), rows_view(data.rows@))),
            r.file_extension@ == "json"@,
    {
        let ghost hs = strs(data.headers@);
        let ghost total = data.rows@.len() as int;
        let mut j = String::new();
        push_str(&mut j, "{\n");
        push_str(&mut j, "  \"title\": \"");
        push_str(&mut j, data.title.as_str());
        push_str(&mut j, "\",\n");
        push_str(&mut j, "  \"records\": [\n");
        let ghost head = j@;
        let n = data.rows.len();
        let mut i: usize = 0;
        while i < n
            invariant
                n == data.rows@.len(),
                total == n,
                hs == strs(data.headers@),
                0 <= i <= n,
                j@ == head + json_records(hs, rows_view(data.rows@.take(i as int)), total),
            decreases n - i,
        {
            let row = &data.rows[i];
            let m = if data.headers.len() <= row.len() { data.headers.len() } else { row.len() };
            let mut pairs: Vec<String> = Vec::new();
            let mut k: usize = 0;
            while k < m
                invariant
                    m <= data.headers@.len(),
                    m <= row@.len(),
                    0 <= k <= m,
                    pairs@.len() == k,
                    forall|q: int| 0 <= q < k ==> (#[trigger] pairs@[q])@ == "\""@ + data.headers@[q]@ + "\": \""@
                        + row@[q]@ + "\""@,
                decreases m - k,
            {
                let mut p = String::new();
                push_str(&mut p, "\"");
                push_str(&mut p, data.headers[k].as_str());
                push_str(&mut p, "\": \"");
                push_str(&mut p, row[k].as_str());
                push_str(&mut p, "\"");
                pairs.push(p);
                k = k + 1;
            }
            push_str(&mut j, "    {");
            push_join(&mut j, pairs.as_slice(), ", ");
            push_str(&mut j, "}");
            if i < n - 1 {
                push_str(&mut j, ",");
            }
            push_str(&mut j, "\n");
            proof {
                assert(strs(pairs@) =~= json_pairs(hs, strs(row@)));
                assert(rows_view(data.rows@.take(i + 1)).drop_last() =~= rows_view(data.rows@.take(i as int)));
                assert(rows_view(data.rows@.take(i + 1)).last() == strs(row@));
                assert(j@ =~= head + json_records(hs, rows_view(data.rows@.take(i + 1)), total));
            }
            i = i + 1;
        }
        push_str(&mut j, "  ]\n}");
        proof {
            assert(data.rows@.take(i as int) == data.rows@);
            assert(j@ =~= json_text(data.title@, hs, rows_view(data.rows@)));
        }
        RenderedReport { content: utf8_bytes(&j), file_extension: owned("json") }
    }
}


// ---------------------------------------------------------------------------
// The steps of generation
// ---------------------------------------------------------------------------

/// A type of report. Every report goes through the same steps, fetch,
/// transform and format, in `generate`; the first two are shared, and each
/// type supplies its format.
pub trait ReportGenerator {
    /// The name of the report type.
    fn name(&self) -> &str;

    /// Fetches, transforms and formats the report the request asks for.
    fn generate(&self, request: &ReportRequest) -> Result<RenderedReport, ReportError> {
        let raw = match self.fetch_data(request.query.as_str()) {
            Ok(r) => r,
            Err(e) => {
                return Err(e);
            },
        };
        let data = match self.transform_data(raw, request.title.as_str()) {
            Ok(d) => d,
            Err(e) => {
                return Err(e);
            },
        };
        self.format(&data)
    }

    /// The records the query gives, announced on standard output.
    fn fetch_data(&self, query: &str) -> (r: Result<Vec<RawRecord>, ReportError>)
        default_ensures
            r matches Ok(v) && are_sample_records(v@),
    {
        let mut line = String::new();
        push_str(&mut line, "[");
        push_str(&mut line, self.name());
        push_str(&mut line, "] Fetching data with query: ");
        push_str(&mut line, query);
        let _ = write_stdout_line(line.as_str());
        Ok(sample_records())
    }

    /// The report data of the records, announced on standard output.
    fn transform_data(&self, raw: Vec<RawRecord>, title: &str) -> (r: Result<ReportData, ReportError>)
        default_ensures
            r matches Ok(d) && is_report_data_of(d, raw@, title@),
    {
        let mut line = String::new();
        push_str(&mut line, "[");
        push_str(&mut line, self.name());
        push_str(&mut line, "] Transforming ");
        push_decimal(&mut line, raw.len() as u64);
        push_str(&mut line, " records");
        let _ = write_stdout_line(line.as_str());
        Ok(to_report_data(&raw, title))
    }

    /// The report rendered in this type's format.
    fn format(&self, data: &ReportData) -> Result<RenderedReport, ReportError>;
}

impl ReportGenerator for CsvReportGenerator {
    fn name(&self) -> &str {
        "CSV"
    }

    fn format(&self, data: &ReportData) -> (r: Result<RenderedReport, ReportError>)
        ensures
            r matches Ok(rep) && rep.content@ == encode_utf8(csv_text(data.title@, strs(data.headers@), rows_view(data.rows@)))
                && rep.file_extension@ == "csv"@,
    {
        Ok(self.render(data))
    }
}

impl ReportGenerator for HtmlReportGenerator {
    fn name(&self) -> &str {
        "HTML"
    }

    fn format(&self, data: &ReportData) -> (r: Result<RenderedReport, ReportError>)
        ensures
            r matches Ok(rep) && rep.content@ == encode_utf8(html_text(data.title@, strs(data.headers@), rows_view(data.rows@)))
                && rep.file_extension@ == "html"@,
    {
        Ok(self.render(data))
    }
}

impl ReportGenerator for PdfReportGenerator {
    fn name(&self) -> &str {
        "PDF"
    }

    fn format(&self, data: &ReportData) -> (r: Result<RenderedReport, ReportError>)
        ensures
            r matches Ok(rep) && rep.content@ == encode_utf8(pdf_text(data.title@, strs(data.headers@), rows_view(data.rows@)))
                && rep.file_extension@ == "pdf"@,
    {
        Ok(self.render(data))
    }
}

impl ReportGenerator for JsonReportGenerator {
    fn name(&self) -> &str {
        "JSON"
    }

    fn format(&self, data: &ReportData) -> (r: Result<RenderedReport, ReportError>)
        ensures
            r matches Ok(rep) && rep.content@ == encode_utf8(json_text(data.title@, strs(data.headers@), rows_view(data.rows@)))
                && rep.file_extension@ == "json"@,
    {
        Ok(self.render(data))
    }
}

/// The file a report goes to: the requested path with the report's extension.
pub fn output_file(path: &str, report: &RenderedReport) -> (r: String)
    ensures
        r@ == path@ + "."@ + report.file_extension@,
{
    let mut s = owned(path);
    push_str(&mut s, ".");
    push_str(&mut s, report.file_extension.as_str());
    s
}

/// Adding a key that is not there keeps the keys distinct.
pub proof fn lemma_push_new_key(keys: Seq<Seq<char>>, k: Seq<char>)
    requires
        keys.no_duplicates(),
        !keys.contains(k),
    ensures
        keys.push(k).no_duplicates(),
{
    let s = keys.push(k);
    assert forall|a: int, b: int| 0 <= a < s.len() && 0 <= b < s.len() && a != b implies s[a] != s[b] by {
        if a == keys.len() as int {
            assert(keys[b] != k);
        } else if b == keys.len() as int {
            assert(keys[a] != k);
        }
    }
}

/// The report types by key: a key in lower case names one generator. `G` is
/// the type of generator kept, most often `dyn ReportGenerator`.
pub struct ReportEngine<G: ReportGenerator + ?Sized> {
    keys: Vec<String>,
    generators: Vec<Box<G>>,
}

impl<G: ReportGenerator + ?Sized> ReportEngine<G> {
    /// The keys, in the order they were first registered.
    pub closed spec fn keys(&self) -> Seq<Seq<char>> {
        strs(self.keys@)
    }

    /// One generator per key, and no key twice.
    pub closed spec fn wf(&self) -> bool {
        &&& self.keys@.len() == self.generators@.len()
        &&& self.keys().no_duplicates()
    }

    pub fn new() -> (r: Self)
        ensures
            r.wf(),
            r.keys() == Seq::<Seq<char>>::empty(),
    {
        let r = ReportEngine { keys: Vec::new(), generators: Vec::new() };
        proof {
            assert(r.keys() =~= Seq::<Seq<char>>::empty());
        }
        r
    }

    /// The position of `key`, if registered.
    fn position(&self, key: &str) -> (r: Option<usize>)
        requires
            self.wf(),
        ensures
            r matches Some(i) ==> i < self.keys().len() && self.keys()[i as int] == key@,
            r is None ==> !self.keys().contains(key@),
    {
        let mut i: usize = 0;
        while i < self.keys.len()
            invariant
                self.wf(),
                0 <= i <= self.keys@.len(),
                forall|j: int| 0 <= j < i ==> self.keys()[j] != key@,
            decreases self.keys@.len() - i,
        {
            if str_eq(self.keys[i].as_str(), key) {
                return Some(i);
            }
            i = i + 1;
        }
        None
    }

    /// Registers `generator` under `key` in lower case, replacing the
    /// generator that key had.
    pub fn register(&mut self, key: &str, generator: Box<G>)
        requires
            old(self).wf(),
        ensures
            final(self).wf(),
            old(self).keys().contains(lowercase(key@)) ==> final(self).keys() == old(self).keys(),
            !old(self).keys().contains(lowercase(key@)) ==> final(self).keys() == old(self).keys().push(
                lowercase(key@),
            ),
            all_ascii(key@) ==> lowercase(key@) == ascii_lower(key@),
    {
        let k = to_lowercase(key);
        match self.position(k.as_str()) {
            Some(i) => {
                self.generators.set(i, generator);
            },
            None => {
                let ghost k0 = self.keys();
                self.keys.push(k);
                self.generators.push(generator);
                proof {
                    assert(self.keys() =~= k0.push(k@));
                    lemma_push_new_key(k0, k@);
                }
            },
        }
    }

    /// Generates a report with the generator of `report_type` in lower case;
    /// an unknown type is a format error.
    pub fn generate(&self, report_type: &str, request: &ReportRequest) -> (r: Result<RenderedReport, ReportError>)
        requires
            self.wf(),
        ensures
            !self.keys().contains(lowercase(report_type@)) ==> (r matches Err(ReportError::FormatError(m)) && m@
                == "Unknown report type: "@ + report_type@),
    {
        let k = to_lowercase(report_type);
        match self.position(k.as_str()) {
            Some(i) => self.generators[i].generate(request),
            None => {
                let mut m = String::new();
                push_str(&mut m, "Unknown report type: ");
                push_str(&mut m, report_type);
                Err(ReportError::FormatError(m))
            },
        }
    }

    /// The names of the registered generators, one per key, in key order.
    pub fn available_types(&self) -> (r: Vec<&str>)
        requires
            self.wf(),
        ensures
            r@.len() == self.keys().len(),
    {
        let mut r: Vec<&str> = Vec::new();
        let mut i: usize = 0;
        while i < self.generators.len()
            invariant
                self.wf(),
                0 <= i <= self.generators@.len(),
                r@.len() == i,
            decreases self.generators@.len() - i,
        {
            r.push(self.generators[i].name());
            i = i + 1;
        }
        r
    }
}

impl ReportEngine<dyn ReportGenerator> {
    /// An engine with the four built-in types: `csv`, `html`, `pdf`, `json`.
    pub fn with_builtin_types() -> (r: Self)
        ensures
            r.wf(),
            r.keys() == seq!["csv"@, "html"@, "pdf"@, "json"@],
    {
        let mut e: ReportEngine<dyn ReportGenerator> = ReportEngine::new();
        proof {
            reveal_strlit("csv");
            reveal_strlit("html");
            reveal_strlit("pdf");
            reveal_strlit("json");
            assert(ascii_lower("csv"@) =~= "csv"@);
            assert(ascii_lower("html"@) =~= "html"@);
            assert(ascii_lower("pdf"@) =~= "pdf"@);
            assert(ascii_lower("json"@) =~= "json"@);
            assert(all_ascii("csv"@) && all_ascii("html"@) && all_ascii("pdf"@) && all_ascii("json"@));
            assert("pdf"@[0] != "csv"@[0] && "json"@[0] != "html"@[0]);
            assert("pdf"@ != "csv"@ && "json"@ != "html"@);
        }
        let g: Box<dyn ReportGenerator> = Box::new(CsvReportGenerator);
        e.register("csv", g);
        assert(e.keys() =~= seq!["csv"@]);
        let g: Box<dyn ReportGenerator> = Box::new(HtmlReportGenerator);
        e.register("html", g);
        assert(e.keys() =~= seq!["csv"@, "html"@]);
        let g: Box<dyn ReportGenerator> = Box::new(PdfReportGenerator);
        e.register("pdf", g);
        assert(e.keys() =~= seq!["csv"@, "html"@, "pdf"@]);
        let g: Box<dyn ReportGenerator> = Box::new(JsonReportGenerator);
        e.register("json", g);
        e
    }
}

} // verus!
