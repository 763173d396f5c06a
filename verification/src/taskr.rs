//! Output of a task-tracking command line: the choice between a table and
//! JSON, aligned tables for people, and hints on standard error.
use vstd::prelude::*;
use crate::text::{byte_len, decimal, join, owned, pad_right, push_decimal, push_padded, push_str, strs};
use crate::sys::{write_stderr_line, write_stdout_line};
use vstd::string::StringSliceAdditionalSpecFns;

verus! {

/// How results are shown.
#[derive(Debug, Clone, Copy, PartialEq, Eq, Structural)]
pub enum OutputFormat {
    Table,
    Json,
}

/// The options of the `list` command.
#[derive(Debug, Clone)]
pub struct ListArgs {
    /// Only tasks with this status, when given.
    pub status: Option<String>,
    /// JSON in place of a table.
    pub json: bool,
}

impl ListArgs {
    /// JSON when asked for, a table otherwise.
    pub fn output_format(&self) -> (r: OutputFormat)
        ensures
            r == (if self.json { OutputFormat::Json } else { OutputFormat::Table }),
    {
        if self.json {
            OutputFormat::Json
        } else {
            OutputFormat::Table
        }
    }
}

// ---------------------------------------------------------------------------
// Tables whose last column is not padded
// ---------------------------------------------------------------------------

/// The cells of each row.
pub open spec fn cells_of(rows: Seq<Vec<String>>) -> Seq<Seq<Seq<char>>> {
    rows.map_values(|r: Vec<String>| strs(r@))
}

/// The width of column `i`: the most bytes of its header and of its cells.
pub open spec fn col_width(headers: Seq<Seq<char>>, rows: Seq<Seq<Seq<char>>>, i: int) -> nat
    decreases rows.len(),
{
    if rows.len() == 0 {
        byte_len(headers[i])
    } else {
        let w = col_width(headers, rows.drop_last(), i);
        let r = rows.last();
        if i < r.len() && byte_len(r[i]) > w {
            byte_len(r[i])
        } else {
            w
        }
    }
}

/// A line of the table: the cells joined by two spaces, each padded to its
/// column's width but the one in the last column.
pub open spec fn table_line(cells: Seq<Seq<char>>, widths: Seq<nat>, n: int) -> Seq<char> {
    join(Seq::new(cells.len(), |i: int| if i == n - 1 { cells[i] } else { pad_right(cells[i], widths[i]) }), "  "@)
}

/// The lines of a table: `(none)` when there are no rows, else the header
/// line and a line for each row.
pub open spec fn table_lines(headers: Seq<Seq<char>>, rows: Seq<Seq<Seq<char>>>) -> Seq<Seq<char>> {
    if rows.len() == 0 {
        seq!["(none)"@]
    } else {
        let widths = Seq::new(headers.len(), |i: int| col_width(headers, rows, i));
        seq![table_line(headers, widths, headers.len() as int)] + Seq::new(
            rows.len(),
            |k: int| table_line(rows[k], widths, headers.len() as int),
        )
    }
}

/// The bytes of `s` (what `str::len` gives).
fn bytes_of(s: &str) -> (r: usize)
    ensures
        r == byte_len(s@),
{
    let l = s.as_bytes().len();
    proof {
        assert(s.spec_bytes() == vstd::utf8::encode_utf8(s@));
    }
    l
}

/// One line of a table, as `table_line` says.
fn render_line(cells: &Vec<String>, widths: &Vec<usize>, n: usize) -> (r: String)
    requires
        cells@.len() <= widths@.len(),
    ensures
        r@ == table_line(strs(cells@), widths@.map_values(|w: usize| w as nat), n as int),
{
    let ghost c = strs(cells@);
    let ghost ws = widths@.map_values(|w: usize| w as nat);
    let ghost parts = Seq::new(c.len(), |i: int| if i == n - 1 { c[i] } else { pad_right(c[i], ws[i]) });
    let mut s = String::new();
    let mut i: usize = 0;
    while i < cells.len()
        invariant
            cells@.len() <= widths@.len(),
            c == strs(cells@),
            ws == widths@.map_values(|w: usize| w as nat),
            parts == Seq::new(c.len(), |i: int| if i == n - 1 { c[i] } else { pad_right(c[i], ws[i]) }),
            0 <= i <= cells@.len(),
            s@ == join(parts.take(i as int), "  "@),
        decreases cells@.len() - i,
    {
        proof {
            assert(parts.take(i + 1).drop_last() == parts.take(i as int));
            assert(parts.take(i + 1).last() == parts[i as int]);
            if i == 0 {
                assert(parts.take(1)[0] == parts[0]);
            }
        }
        if i > 0 {
            push_str(&mut s, "  ");
        }
        if n > 0 && i == n - 1 {
            push_str(&mut s, cells[i].as_str());
        } else {
            push_padded(&mut s, cells[i].as_str(), widths[i]);
        }
        i = i + 1;
    }
    proof {
        assert(parts.take(i as int) == parts);
    }
    s
}

/// The width of each column, as `col_width` says. Every row has at most as
/// many cells as there are headers.
pub fn column_widths(headers: &Vec<String>, rows: &Vec<Vec<String>>) -> (widths: Vec<usize>)
    requires
        forall|k: int| 0 <= k < rows@.len() ==> (#[trigger] rows@[k])@.len() <= headers@.len(),
    ensures
        widths@.len() == headers@.len(),
        forall|q: int| 0 <= q < headers@.len() ==> (#[trigger] widths@[q]) as nat == col_width(
            strs(headers@),
            cells_of(rows@),
            q,
        ),
{
    let ghost h = strs(headers@);
    let ghost rs = cells_of(rows@);
    let n = headers.len();
    let mut widths: Vec<usize> = Vec::new();
    let mut i: usize = 0;
    while i < n
        invariant
            n == headers@.len(),
            h == strs(headers@),
            0 <= i <= n,
            widths@.len() == i,
            forall|q: int| 0 <= q < i ==> (#[trigger] widths@[q]) as nat == col_width(h, Seq::empty(), q),
        decreases n - i,
    {
        widths.push(bytes_of(headers[i].as_str()));
        i = i + 1;
    }
    let mut k: usize = 0;
    while k < rows.len()
        invariant
            n == headers@.len(),
            h == strs(headers@),
            rs == cells_of(rows@),
            forall|q: int| 0 <= q < rows@.len() ==> (#[trigger] rows@[q])@.len() <= headers@.len(),
            0 <= k <= rows@.len(),
            widths@.len() == n,
            forall|q: int| 0 <= q < n ==> (#[trigger] widths@[q]) as nat == col_width(h, rs.take(k as int), q),
        decreases rows@.len() - k,
    {
        let row = &rows[k];
        let mut j: usize = 0;
        let ghost before = widths@;
        while j < row.len()
            invariant
                n == headers@.len(),
                row@.len() <= n,
                widths@.len() == n,
                0 <= j <= row@.len(),
                forall|q: int| j <= q < n ==> widths@[q] == before[q],
                forall|q: int| 0 <= q < j ==> (#[trigger] widths@[q]) as nat == (if byte_len(row@[q]@) > before[q] {
                    byte_len(row@[q]@)
                } else {
                    before[q] as nat
                }),
            decreases row@.len() - j,
        {
            let l = bytes_of(row[j].as_str());
            if l > widths[j] {
                widths.set(j, l);
            }
            j = j + 1;
        }
        proof {
            assert(rs.take(k + 1).drop_last() == rs.take(k as int));
            assert(rs.take(k + 1).last() == strs(row@));
            assert forall|q: int| 0 <= q < n implies (#[trigger] widths@[q]) as nat == col_width(h, rs.take(k + 1), q) by {
                if q >= row@.len() {
                    assert(widths@[q] == before[q]);
                }
            }
        }
        k = k + 1;
    }
    proof {
        assert(rs.take(k as int) == rs);
    }
    widths
}

/// The lines of a table, as `table_lines` says. Every row has at most as
/// many cells as there are headers.
pub fn table_text(headers: &Vec<String>, rows: &Vec<Vec<String>>) -> (r: Vec<String>)
    requires
        forall|k: int| 0 <= k < rows@.len() ==> (#[trigger] rows@[k])@.len() <= headers@.len(),
    ensures
        strs(r@) == table_lines(strs(headers@), cells_of(rows@)),
{
    let ghost h = strs(headers@);
    let ghost rs = cells_of(rows@);
    let mut out: Vec<String> = Vec::new();
    if rows.len() == 0 {
        out.push(owned("(none)"));
        proof {
            assert(strs(out@) =~= seq!["(none)"@]);
        }
        return out;
    }
    let n = headers.len();
    let widths = column_widths(headers, rows);
    let ghost ws = Seq::new(h.len(), |i: int| col_width(h, rs, i));
    proof {
        assert(widths@.map_values(|w: usize| w as nat) =~= ws);
    }
    out.push(render_line(headers, &widths, n));
    let mut k: usize = 0;
    while k < rows.len()
        invariant
            n == headers@.len(),
            h == strs(headers@),
            rs == cells_of(rows@),
            forall|q: int| 0 <= q < rows@.len() ==> (#[trigger] rows@[q])@.len() <= headers@.len(),
            widths@.len() == n,
            widths@.map_values(|w: usize| w as nat) == ws,
            ws == Seq::new(h.len(), |i: int| col_width(h, rs, i)),
            0 <= k <= rows@.len(),
            strs(out@) == seq![table_line(h, ws, n as int)] + Seq::new(
                k as nat,
                |q: int| table_line(rs[q], ws, n as int),
            ),
        decreases rows@.len() - k,
    {
        let line = render_line(&rows[k], &widths, n);
        let ghost o0 = out@;
        out.push(line);
        proof {
            assert(rs[k as int] == strs(rows@[k as int]@));
            assert(strs(out@) =~= strs(o0).push(line@));
            assert(strs(out@) =~= seq![table_line(h, ws, n as int)] + Seq::new(
                (k + 1) as nat,
                |q: int| table_line(rs[q], ws, n as int),
            ));
        }
        k = k + 1;
    }
    out
}

/// Prints a table on standard output, as `table_text` lays it out.
pub fn print_table(headers: &Vec<String>, rows: &Vec<Vec<String>>)
    requires
        forall|k: int| 0 <= k < rows@.len() ==> (#[trigger] rows@[k])@.len() <= headers@.len(),
{
    let lines = table_text(headers, rows);
    let mut i: usize = 0;
    while i < lines.len()
        decreases lines@.len() - i,
    {
        let _ = write_stdout_line(lines[i].as_str());
        i = i + 1;
    }
}

// ---------------------------------------------------------------------------
// Hints
// ---------------------------------------------------------------------------

/// The lines of the hints: an empty line, the first after `hint: `, the
/// others aligned under it. No hints, no lines.
pub open spec fn hint_lines(items: Seq<Seq<char>>) -> Seq<Seq<char>> {
    if items.len() == 0 {
        Seq::empty()
    } else {
        seq![Seq::<char>::empty()] + Seq::new(
            items.len(),
            |i: int| if i == 0 { "hint: "@ + items[i] } else { "      "@ + items[i] },
        )
    }
}

/// The lines of the hints, as `hint_lines` says.
pub fn hint_text(items: &Vec<String>) -> (r: Vec<String>)
    ensures
        strs(r@) == hint_lines(strs(items@)),
{
    let ghost it = strs(items@);
    let mut out: Vec<String> = Vec::new();
    if items.len() == 0 {
        proof {
            assert(strs(out@) =~= hint_lines(it));
        }
        return out;
    }
    out.push(String::new());
    let mut i: usize = 0;
    while i < items.len()
        invariant
            it == strs(items@),
            items@.len() > 0,
            0 <= i <= items@.len(),
            strs(out@) == seq![Seq::<char>::empty()] + Seq::new(
                i as nat,
                |q: int| if q == 0 { "hint: "@ + it[q] } else { "      "@ + it[q] },
            ),
        decreases items@.len() - i,
    {
        let mut line = String::new();
        if i == 0 {
            push_str(&mut line, "hint: ");
        } else {
            push_str(&mut line, "      ");
        }
        push_str(&mut line, items[i].as_str());
        let ghost o0 = out@;
        out.push(line);
        proof {
            assert(it[i as int] == items@[i as int]@);
            assert(strs(out@) =~= strs(o0).push(line@));
            assert(strs(out@) =~= seq![Seq::<char>::empty()] + Seq::new(
                (i + 1) as nat,
                |q: int| if q == 0 { "hint: "@ + it[q] } else { "      "@ + it[q] },
            ));
        }
        i = i + 1;
    }
    out
}

/// Prints the hints on standard error.
pub fn hint(items: &Vec<String>) {
    let lines = hint_text(items);
    let mut i: usize = 0;
    while i < lines.len()
        decreases lines@.len() - i,
    {
        write_stderr_line(lines[i].as_str());
        i = i + 1;
    }
}

// ---------------------------------------------------------------------------
// Fixed-width rows
// ---------------------------------------------------------------------------

/// The column headers of the task table.
pub fn task_headers() -> (r: Vec<String>)
    ensures
        strs(r@) == seq!["ID"@, "TITLE"@, "STATUS"@, "DUE"@, "PRIORITY"@],
{
    let mut r: Vec<String> = Vec::new();
    r.push(owned("ID"));
    r.push(owned("TITLE"));
    r.push(owned("STATUS"));
    r.push(owned("DUE"));
    r.push(owned("PRIORITY"));
    proof {
        assert(strs(r@) =~= seq!["ID"@, "TITLE"@, "STATUS"@, "DUE"@, "PRIORITY"@]);
    }
    r
}

/// A row whose every cell is padded to its width, two spaces between cells,
/// ending the line.
pub open spec fn padded_row(cells: Seq<Seq<char>>, widths: Seq<nat>) -> Seq<char> {
    join(Seq::new(cells.len(), |i: int| pad_right(cells[i], widths[i])), "  "@) + "\n"@
}

/// A row of the task table, as `padded_row` says.
pub fn row_text(cells: &Vec<String>, widths: &Vec<usize>) -> (r: String)
    requires
        cells@.len() <= widths@.len(),
    ensures
        r@ == padded_row(strs(cells@), widths@.map_values(|w: usize| w as nat)),
{
    let ghost c = strs(cells@);
    let ghost ws = widths@.map_values(|w: usize| w as nat);
    let ghost parts = Seq::new(c.len(), |i: int| pad_right(c[i], ws[i]));
    let mut s = String::new();
    let mut i: usize = 0;
    while i < cells.len()
        invariant
            cells@.len() <= widths@.len(),
            c == strs(cells@),
            ws == widths@.map_values(|w: usize| w as nat),
            parts == Seq::new(c.len(), |i: int| pad_right(c[i], ws[i])),
            0 <= i <= cells@.len(),
            s@ == join(parts.take(i as int), "  "@),
        decreases cells@.len() - i,
    {
        proof {
            assert(parts.take(i + 1).drop_last() == parts.take(i as int));
            assert(parts.take(i + 1).last() == parts[i as int]);
            if i == 0 {
                assert(parts.take(1)[0] == parts[0]);
            }
        }
        if i > 0 {
            push_str(&mut s, "  ");
        }
        push_padded(&mut s, cells[i].as_str(), widths[i]);
        i = i + 1;
    }
    proof {
        assert(parts.take(i as int) == parts);
    }
    push_str(&mut s, "\n");
    s
}

// ---------------------------------------------------------------------------
// Requests
// ---------------------------------------------------------------------------

/// `tag` followed by the value, when there is one.
pub open spec fn query_part(tag: Seq<char>, v: Option<Seq<char>>) -> Seq<char> {
    match v {
        Some(x) => tag + x,
        None => Seq::empty(),
    }
}

/// The URL that lists tasks: at most `limit` of them, with the given status
/// and priority, archived ones included with `all`.
pub open spec fn list_url_text(base: Seq<char>, limit: nat, status: Option<Seq<char>>, priority: Option<Seq<char>>, all: bool) -> Seq<char> {
    base + "/tasks?limit="@ + decimal(limit) + query_part("&status="@, status) + query_part("&priority="@, priority)
        + if all { "&include_archived=true"@ } else { Seq::empty() }
}

/// The URL that lists tasks, as `list_url_text` says.
pub fn list_url(base_url: &str, limit: u64, status: Option<&str>, priority: Option<&str>, all: bool) -> (r: String)
    ensures
        r@ == list_url_text(
            base_url@,
            limit as nat,
            match status { Some(x) => Some(x@), None => None },
            match priority { Some(x) => Some(x@), None => None },
            all,
        ),
{
    let mut url = String::new();
    push_str(&mut url, base_url);
    push_str(&mut url, "/tasks?limit=");
    push_decimal(&mut url, limit);
    match status {
        Some(x) => {
            push_str(&mut url, "&status=");
            push_str(&mut url, x);
        },
        None => {},
    }
    match priority {
        Some(x) => {
            push_str(&mut url, "&priority=");
            push_str(&mut url, x);
        },
        None => {},
    }
    if all {
        push_str(&mut url, "&include_archived=true");
    }
    url
}

} // verus!

verus! {

/// What chrono makes of a `--due` text: the instant it names, written back in
/// RFC 3339, or the text of the parse error. A function of the text alone.
pub uninterp spec fn rfc3339_of(text: Seq<char>) -> Result<Seq<char>, Seq<char>>;

/// Parses `text` as a `DateTime<Utc>` (`str::parse`, chrono's RFC 3339
/// reading) and writes it back with `to_rfc3339`; on failure, the `Display`
/// text of chrono's error. The result is named `rfc3339_of`.
#[verifier::external_body]
fn parse_rfc3339(text: &str) -> (r: Result<String, String>)
    ensures
        match r {
            Ok(s) => rfc3339_of(text@) == Ok::<Seq<char>, Seq<char>>(s@),
            Err(m) => rfc3339_of(text@) == Err::<Seq<char>, Seq<char>>(m@),
        },
{
    match text.parse::<chrono::DateTime<chrono::Utc>>() {
        Ok(d) => Ok(d.to_rfc3339()),
        Err(e) => Err(e.to_string()),
    }
}

/// The due date of an update: `none` clears it (`Ok(None)`), any other text
/// must be an RFC 3339 instant.
pub open spec fn due_field_of(due: Seq<char>) -> Result<Option<Seq<char>>, Seq<char>> {
    if due == "none"@ {
        Ok(None)
    } else {
        match rfc3339_of(due) {
            Ok(s) => Ok(Some(s)),
            Err(m) => Err("invalid --due date (expected RFC 3339 or \u{22}none\u{22}): "@ + m),
        }
    }
}

/// An optional text by its characters, inside a result.
pub open spec fn opt_result_view(r: Result<Option<String>, String>) -> Result<Option<Seq<char>>, Seq<char>> {
    match r {
        Ok(Some(s)) => Ok(Some(s@)),
        Ok(None) => Ok(None),
        Err(m) => Err(m@),
    }
}

/// The due date of an update (see `due_field_of`).
pub fn due_field(due: &str) -> (r: Result<Option<String>, String>)
    ensures
        opt_result_view(r) == due_field_of(due@),
{
    proof { reveal_strlit("none"); }
    if crate::text::str_eq(due, "none") {
        return Ok(None);
    }
    match parse_rfc3339(due) {
        Ok(s) => Ok(Some(s)),
        Err(m) => {
            let mut e = String::new();
            push_str(&mut e, "invalid --due date (expected RFC 3339 or \u{22}none\u{22}): ");
            push_str(&mut e, m.as_str());
            proof { reveal_strlit("invalid --due date (expected RFC 3339 or \u{22}none\u{22}): "); }
            Err(e)
        },
    }
}

/// The due date of a new task: no text gives none, any text must be an RFC
/// 3339 instant.
pub open spec fn create_due_of(due: Option<Seq<char>>) -> Result<Option<Seq<char>>, Seq<char>> {
    match due {
        None => Ok(None),
        Some(t) => match rfc3339_of(t) {
            Ok(s) => Ok(Some(s)),
            Err(m) => Err("invalid --due date (expected RFC 3339): "@ + m),
        },
    }
}

/// The due date of a new task (see `create_due_of`).
pub fn create_due(due: Option<&str>) -> (r: Result<Option<String>, String>)
    ensures
        opt_result_view(r) == create_due_of(match due {
            Some(t) => Some(t@),
            None => None,
        }),
{
    match due {
        None => Ok(None),
        Some(t) => match parse_rfc3339(t) {
            Ok(s) => Ok(Some(s)),
            Err(m) => {
                let mut e = String::new();
                push_str(&mut e, "invalid --due date (expected RFC 3339): ");
                push_str(&mut e, m.as_str());
                proof { reveal_strlit("invalid --due date (expected RFC 3339): "); }
                Err(e)
            },
        },
    }
}

/// A member of an update body by its characters; `None` is JSON `null`.
pub open spec fn member_view(m: (String, Option<String>)) -> (Seq<char>, Option<Seq<char>>) {
    (m.0@, match m.1 {
        Some(v) => Some(v@),
        None => None,
    })
}

/// The members of an update body: `title`, `status`, `priority` for the
/// fields given, then `due_date` when a due text is given (`null` for `none`),
/// or the error of the due text.
pub open spec fn update_members_of(
    title: Option<Seq<char>>,
    status: Option<Seq<char>>,
    priority: Option<Seq<char>>,
    due: Option<Seq<char>>,
) -> Result<Seq<(Seq<char>, Option<Seq<char>>)>, Seq<char>> {
    let a: Seq<(Seq<char>, Option<Seq<char>>)> = match title {
        Some(t) => seq![("title"@, Some(t))],
        None => Seq::empty(),
    };
    let b = match status {
        Some(s) => a.push(("status"@, Some(s))),
        None => a,
    };
    let c = match priority {
        Some(p) => b.push(("priority"@, Some(p))),
        None => b,
    };
    match due {
        None => Ok(c),
        Some(d) => match due_field_of(d) {
            Ok(v) => Ok(c.push(("due_date"@, v))),
            Err(m) => Err(m),
        },
    }
}

/// An optional string by its characters.
pub open spec fn opt_chars(o: Option<String>) -> Option<Seq<char>> {
    match o {
        Some(s) => Some(s@),
        None => None,
    }
}

/// The members of an update body (see `update_members_of`); the status and
/// priority are given as their serialized names.
pub fn update_members(
    title: Option<String>,
    status: Option<String>,
    priority: Option<String>,
    due: Option<String>,
) -> (r: Result<Vec<(String, Option<String>)>, String>)
    ensures
        match update_members_of(opt_chars(title), opt_chars(status), opt_chars(priority), opt_chars(due)) {
            Ok(ms) => r matches Ok(v) && v@.map_values(|m: (String, Option<String>)| member_view(m)) == ms,
            Err(e) => r matches Err(m) && m@ == e,
        },
{
    let ghost t0 = opt_chars(title);
    let ghost s0 = opt_chars(status);
    let ghost p0 = opt_chars(priority);
    let mut v: Vec<(String, Option<String>)> = Vec::new();
    let ghost mut expect: Seq<(Seq<char>, Option<Seq<char>>)> = Seq::empty();
    proof {
        reveal_strlit("title");
        reveal_strlit("status");
        reveal_strlit("priority");
        reveal_strlit("due_date");
    }
    match title {
        Some(t) => {
            proof { expect = expect.push(("title"@, Some(t@))); }
            v.push((owned("title"), Some(t)));
        },
        None => {},
    }
    match status {
        Some(s) => {
            proof { expect = expect.push(("status"@, Some(s@))); }
            v.push((owned("status"), Some(s)));
        },
        None => {},
    }
    match priority {
        Some(p) => {
            proof { expect = expect.push(("priority"@, Some(p@))); }
            v.push((owned("priority"), Some(p)));
        },
        None => {},
    }
    assert(v@.map_values(|m: (String, Option<String>)| member_view(m)) =~= expect);
    match due {
        None => {
            Ok(v)
        },
        Some(d) => match due_field(d.as_str()) {
            Ok(x) => {
                let ghost before = v@;
                let ghost xv = opt_chars(x);
                v.push((owned("due_date"), x));
                assert(v@.map_values(|m: (String, Option<String>)| member_view(m)) =~= expect.push(("due_date"@, xv)));
                Ok(v)
            },
            Err(m) => Err(m),
        },
    }
}

/// The tasks to show: all of them with `all`, else those not archived
/// (`archived` marks each task).
pub fn visible_tasks<T>(tasks: Vec<T>, archived: &Vec<bool>, all: bool) -> (r: Vec<T>)
    requires
        archived@.len() == tasks@.len(),
    ensures
        r@ == if all {
            tasks@
        } else {
            crate::rows::kept(tasks@, archived@.map_values(|a: bool| !a), tasks@.len() as int)
        },
{
    if all {
        return tasks;
    }
    let mut keep: Vec<bool> = Vec::new();
    let mut i: usize = 0;
    while i < archived.len()
        invariant
            0 <= i <= archived@.len(),
            keep@ == archived@.take(i as int).map_values(|a: bool| !a),
        decreases archived@.len() - i,
    {
        keep.push(!archived[i]);
        assert(archived@.take(i + 1) =~= archived@.take(i as int).push(archived@[i as int]));
        assert(keep@ =~= archived@.take(i + 1).map_values(|a: bool| !a));
        i = i + 1;
    }
    assert(archived@.take(i as int) =~= archived@);
    crate::rows::retain_marked(tasks, &keep)
}

} // verus!
