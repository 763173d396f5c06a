//! A data-file processor with a derived command line: the table it works on,
//! the detection of file formats, and renaming of columns.
use vstd::prelude::*;
use crate::text::{debug_strings, strings_debug_text, push_str, str_eq, to_lowercase, lowercase, chars_of, trim, trimmed, strs};
use crate::table_ops::Order;
use crate::rows::{cell_or_empty, kept, may_give, placed_after, retain_marked, sort_rows_by};
use crate::dtool::{column_position, position_of, path_extension, extension_of, split_once_trimmed, split_trimmed};

verus! {

/// An error with a message for the user.
#[derive(Debug)]
pub struct CliError(pub String);

impl CliError {
    pub fn to_string(&self) -> (r: String)
        ensures
            r@ == self.0@,
    {
        self.0.clone()
    }
}

/// Column names plus rows of cells.
#[derive(Debug, Clone)]
pub struct Table {
    pub columns: Vec<String>,
    pub rows: Vec<Vec<String>>,
}

impl Table {
    /// The position of the column named `name`, or an error listing the columns.
    pub fn col_index(&self, name: &str) -> (r: Result<usize, CliError>)
        ensures
            column_position(self.columns@, name@) matches Some(i) ==> r == Ok::<usize, CliError>(i as usize),
            column_position(self.columns@, name@) is None ==> (r matches Err(e) && e.0@ == "Column '"@ + name@
                + "' not found. Available: "@ + debug_strings(self.columns@.map_values(|s: String| s@))),
    {
        match position_of(&self.columns, name) {
            Some(i) => Ok(i),
            None => {
                let mut m = String::new();
                push_str(&mut m, "Column '");
                push_str(&mut m, name);
                push_str(&mut m, "' not found. Available: ");
                let cols = strings_debug_text(&self.columns);
                push_str(&mut m, cols.as_str());
                Err(CliError(m))
            },
        }
    }
}

/// The file formats; tab-separated files are read as CSV.
#[derive(Debug, Clone, Copy, PartialEq, Eq, Structural)]
pub enum Format {
    Csv,
    Json,
    Yaml,
}

pub open spec fn format_named(e: Seq<char>) -> Option<Format> {
    if e == "csv"@ || e == "tsv"@ {
        Some(Format::Csv)
    } else if e == "json"@ {
        Some(Format::Json)
    } else if e == "yaml"@ || e == "yml"@ {
        Some(Format::Yaml)
    } else {
        None
    }
}

/// The extension in lower case; empty when there is none.
pub open spec fn lower_extension(path: Seq<char>) -> Seq<char> {
    match extension_of(path) {
        Some(x) => lowercase(x),
        None => Seq::empty(),
    }
}

/// The format of a file from its extension in lower case.
pub fn detect_format(path: &str) -> (r: Result<Format, CliError>)
    ensures
        match format_named(lower_extension(path@)) {
            Some(f) => r == Ok::<Format, CliError>(f),
            None => r matches Err(e) && e.0@ == "Unsupported file extension '."@ + lower_extension(path@)
                + "'. Use .csv, .json, or .yaml"@,
        },
{
    let ext = match path_extension(path) {
        Some(x) => to_lowercase(x.as_str()),
        None => String::new(),
    };
    if str_eq(ext.as_str(), "csv") || str_eq(ext.as_str(), "tsv") {
        Ok(Format::Csv)
    } else if str_eq(ext.as_str(), "json") {
        Ok(Format::Json)
    } else if str_eq(ext.as_str(), "yaml") || str_eq(ext.as_str(), "yml") {
        Ok(Format::Yaml)
    } else {
        let mut m = String::new();
        push_str(&mut m, "Unsupported file extension '.");
        push_str(&mut m, ext.as_str());
        push_str(&mut m, "'. Use .csv, .json, or .yaml");
        Err(CliError(m))
    }
}

/// Renames a column given `old_name:new_name`; the rows are unchanged.
pub fn apply_rename(table: &mut Table, spec: &str) -> (r: Result<(), CliError>)
    ensures
        split_trimmed(spec@, ':') is None ==> (r matches Err(e) && e.0@ == "Invalid rename spec: '"@ + spec@
            + "'. Expected 'old_name:new_name'"@ && *final(table) == *old(table)),
        split_trimmed(spec@, ':') matches Some((a, b)) ==> match column_position(old(table).columns@, a) {
            Some(i) => r is Ok && final(table).rows == old(table).rows
                && final(table).columns@ == old(table).columns@.update(i, final(table).columns@[i])
                && final(table).columns@[i]@ == b,
            None => r is Err && *final(table) == *old(table),
        },
{
    match split_once_trimmed(spec, ':') {
        None => {
            let mut m = String::new();
            push_str(&mut m, "Invalid rename spec: '");
            push_str(&mut m, spec);
            push_str(&mut m, "'. Expected 'old_name:new_name'");
            Err(CliError(m))
        },
        Some((old, new)) => {
            match table.col_index(old.as_str()) {
                Ok(idx) => {
                    proof {
                        crate::dtool::lemma_column_position(table.columns@, old@, table.columns@.len() as int);
                    }
                    table.columns.set(idx, new);
                    Ok(())
                },
                Err(e) => Err(e),
            }
        },
    }
}

// ---------------------------------------------------------------------------
// Filter and computed-column expressions, matched by regular expressions
// ---------------------------------------------------------------------------

/// What `regex::Regex::new(pattern)` and then `captures(text)` give: the
/// error's message when the pattern does not compile; else nothing when the
/// text does not match, or the groups of the match, the whole match first,
/// each with its text when it took part in the match.
pub uninterp spec fn regex_captures_of(pattern: Seq<char>, text: Seq<char>) -> Result<
    Option<Seq<Option<Seq<char>>>>,
    Seq<char>,
>;

/// The groups of a match, by their text.
pub open spec fn groups_view(g: Seq<Option<String>>) -> Seq<Option<Seq<char>>> {
    g.map_values(|o: Option<String>| match o {
        Some(s) => Some(s@),
        None => None,
    })
}

/// The outcome of a match, by its texts.
pub open spec fn captures_view(r: Result<Option<Vec<Option<String>>>, String>) -> Result<
    Option<Seq<Option<Seq<char>>>>,
    Seq<char>,
> {
    match r {
        Err(m) => Err(m@),
        Ok(None) => Ok(None),
        Ok(Some(g)) => Ok(Some(groups_view(g@))),
    }
}

/// Compiles `pattern` with `regex::Regex::new` and matches it against `text`
/// with `Regex::captures`; a compile error comes back as its `Display` text.
/// The outcome is a function of the pattern and the text alone, named
/// `regex_captures_of`.
#[verifier::external_body]
fn regex_captures(pattern: &str, text: &str) -> (r: Result<Option<Vec<Option<String>>>, String>)
    ensures
        captures_view(r) == regex_captures_of(pattern@, text@),
{
    match regex::Regex::new(pattern) {
        Err(e) => Err(e.to_string()),
        Ok(re) => Ok(re.captures(text).map(|c| c.iter().map(|m| m.map(|m| m.as_str().to_string())).collect())),
    }
}

/// The groups `1..=n` all took part in the match.
pub open spec fn groups_ok(g: Seq<Option<Seq<char>>>, n: int) -> bool {
    g.len() > n && forall|i: int| 1 <= i <= n ==> (#[trigger] g[i]) is Some
}

/// The pattern of a filter: a word, an operator, a value.
pub open spec fn filter_pattern() -> Seq<char> {
    r"^(\w+)\s*(>=|<=|!=|==|>|<)\s*(.+)$"@
}

/// The pattern of a computed column: a word, an operator, a word.
pub open spec fn add_pattern() -> Seq<char> {
    r"^(\w+)\s*([+\-*/])\s*(\w+)$"@
}

/// The comparison of a filter.
#[derive(Debug, Clone, Copy, PartialEq, Eq, Structural)]
pub enum CmpOp {
    Gt,
    Lt,
    Ge,
    Le,
    Eq,
    Ne,
    /// Any other text: every row passes.
    Any,
}

pub open spec fn cmp_op_named(t: Seq<char>) -> CmpOp {
    if t == ">"@ {
        CmpOp::Gt
    } else if t == "<"@ {
        CmpOp::Lt
    } else if t == ">="@ {
        CmpOp::Ge
    } else if t == "<="@ {
        CmpOp::Le
    } else if t == "=="@ {
        CmpOp::Eq
    } else if t == "!="@ {
        CmpOp::Ne
    } else {
        CmpOp::Any
    }
}

fn cmp_op_of(t: &str) -> (r: CmpOp)
    ensures
        r == cmp_op_named(t@),
{
    if str_eq(t, ">") {
        CmpOp::Gt
    } else if str_eq(t, "<") {
        CmpOp::Lt
    } else if str_eq(t, ">=") {
        CmpOp::Ge
    } else if str_eq(t, "<=") {
        CmpOp::Le
    } else if str_eq(t, "==") {
        CmpOp::Eq
    } else if str_eq(t, "!=") {
        CmpOp::Ne
    } else {
        CmpOp::Any
    }
}

/// A filter: the column, the comparison and the value, trimmed.
#[derive(Debug, Clone)]
pub struct CliFilter {
    pub column: String,
    pub op: CmpOp,
    pub target: String,
}

/// What a filter expression gives, from the outcome of matching it against
/// `filter_pattern`: `None` when a group did not take part in the match.
pub open spec fn filter_outcome(expr: Seq<char>, caps: Result<Option<Seq<Option<Seq<char>>>>, Seq<char>>) -> Option<
    Result<(Seq<char>, CmpOp, Seq<char>), Seq<char>>,
> {
    match caps {
        Err(m) => Some(Err(m)),
        Ok(None) => Some(Err("Invalid filter expression: '"@ + expr + "'. Expected format: column>value"@)),
        Ok(Some(g)) => if groups_ok(g, 3) {
            Some(Ok((g[1]->Some_0, cmp_op_named(g[2]->Some_0), trim(g[3]->Some_0))))
        } else {
            None
        },
    }
}

/// A filter, or its error, by its texts.
pub open spec fn filter_view(r: Result<CliFilter, CliError>) -> Result<(Seq<char>, CmpOp, Seq<char>), Seq<char>> {
    match r {
        Ok(f) => Ok((f.column@, f.op, f.target@)),
        Err(e) => Err(e.0@),
    }
}

/// The filter that the outcome of a match describes, as `filter_outcome` says.
pub fn filter_from_captures(expr: &str, caps: Result<Option<Vec<Option<String>>>, String>) -> (r: Option<
    Result<CliFilter, CliError>,
>)
    ensures
        match filter_outcome(expr@, captures_view(caps)) {
            None => r is None,
            Some(o) => r matches Some(x) && filter_view(x) == o,
        },
{
    match caps {
        Err(m) => Some(Err(CliError(m))),
        Ok(None) => {
            let mut m = String::new();
            push_str(&mut m, "Invalid filter expression: '");
            push_str(&mut m, expr);
            push_str(&mut m, "'. Expected format: column>value");
            Some(Err(CliError(m)))
        },
        Ok(Some(g)) => {
            let ghost gv = groups_view(g@);
            if g.len() <= 3 {
                return None;
            }
            proof {
                assert(gv[1] == (match g@[1] { Some(s) => Some(s@), None => None }));
                assert(gv[2] == (match g@[2] { Some(s) => Some(s@), None => None }));
                assert(gv[3] == (match g@[3] { Some(s) => Some(s@), None => None }));
            }
            match (&g[1], &g[2], &g[3]) {
                (Some(c), Some(o), Some(t)) => {
                    let tc = chars_of(t.as_str());
                    Some(Ok(CliFilter { column: c.clone(), op: cmp_op_of(o.as_str()), target: trimmed(tc.as_slice()) }))
                },
                _ => None,
            }
        },
    }
}

/// Reads a filter expression such as `age>30` or `name==Alice` by matching
/// it against `filter_pattern`. `None` when a group of the match is missing.
pub fn parse_filter(expr: &str) -> (r: Option<Result<CliFilter, CliError>>)
    ensures
        match filter_outcome(expr@, regex_captures_of(filter_pattern(), expr@)) {
            None => r is None,
            Some(o) => r matches Some(x) && filter_view(x) == o,
        },
{
    let caps = regex_captures(r"^(\w+)\s*(>=|<=|!=|==|>|<)\s*(.+)$", expr);
    filter_from_captures(expr, caps)
}

/// Whether a row passes the filter, given how its cell compares with the
/// value.
pub fn keeps(op: CmpOp, order: Order) -> (r: bool)
    ensures
        r == match op {
            CmpOp::Gt => order == Order::Greater,
            CmpOp::Lt => order == Order::Less,
            CmpOp::Ge => order == Order::Greater || order == Order::Equal,
            CmpOp::Le => order == Order::Less || order == Order::Equal,
            CmpOp::Eq => order == Order::Equal,
            CmpOp::Ne => order != Order::Equal,
            CmpOp::Any => true,
        },
{
    match op {
        CmpOp::Gt => order == Order::Greater,
        CmpOp::Lt => order == Order::Less,
        CmpOp::Ge => order == Order::Greater || order == Order::Equal,
        CmpOp::Le => order == Order::Less || order == Order::Equal,
        CmpOp::Eq => order == Order::Equal,
        CmpOp::Ne => order != Order::Equal,
        CmpOp::Any => true,
    }
}

/// How the cells of a computed column are made: an operator between two
/// columns, or a constant.
#[derive(Debug, Clone)]
pub enum CliAddExpr {
    Binary { left: String, op: String, right: String },
    Constant(String),
}

/// A computed column: its name and its cells.
#[derive(Debug, Clone)]
pub struct CliAdd {
    pub name: String,
    pub expr: CliAddExpr,
}

/// The column a computed-column spec describes, from its name, its trimmed
/// expression, and the outcome of matching the expression against
/// `add_pattern`: `None` when a group did not take part in the match.
pub open spec fn add_outcome(name: Seq<char>, e: Seq<char>, caps: Result<Option<Seq<Option<Seq<char>>>>, Seq<char>>) -> Option<
    Result<(Seq<char>, Option<(Seq<char>, Seq<char>, Seq<char>)>, Seq<char>), Seq<char>>,
> {
    match caps {
        Err(m) => Some(Err(m)),
        Ok(None) => Some(Ok((name, None, e))),
        Ok(Some(g)) => if groups_ok(g, 3) {
            Some(Ok((name, Some((g[1]->Some_0, g[2]->Some_0, g[3]->Some_0)), e)))
        } else {
            None
        },
    }
}

/// A computed column, or its error, by its texts: the name, the operands
/// and operator when there are some, and the constant.
pub open spec fn add_view(r: Result<CliAdd, CliError>, e: Seq<char>) -> Result<
    (Seq<char>, Option<(Seq<char>, Seq<char>, Seq<char>)>, Seq<char>),
    Seq<char>,
> {
    match r {
        Ok(a) => match a.expr {
            CliAddExpr::Binary { left, op, right } => Ok((a.name@, Some((left@, op@, right@)), e)),
            CliAddExpr::Constant(c) => Ok((a.name@, None, c@)),
        },
        Err(x) => Err(x.0@),
    }
}

/// The computed column the outcome of a match describes, as `add_outcome`
/// says.
pub fn add_from_captures(name: String, e: String, caps: Result<Option<Vec<Option<String>>>, String>) -> (r: Option<
    Result<CliAdd, CliError>,
>)
    ensures
        match add_outcome(name@, e@, captures_view(caps)) {
            None => r is None,
            Some(o) => r matches Some(x) && add_view(x, e@) == o,
        },
{
    match caps {
        Err(m) => Some(Err(CliError(m))),
        Ok(None) => Some(Ok(CliAdd { name, expr: CliAddExpr::Constant(e) })),
        Ok(Some(g)) => {
            let ghost gv = groups_view(g@);
            if g.len() <= 3 {
                return None;
            }
            proof {
                assert(gv[1] == (match g@[1] { Some(s) => Some(s@), None => None }));
                assert(gv[2] == (match g@[2] { Some(s) => Some(s@), None => None }));
                assert(gv[3] == (match g@[3] { Some(s) => Some(s@), None => None }));
            }
            match (&g[1], &g[2], &g[3]) {
                (Some(l), Some(o), Some(rt)) => Some(Ok(CliAdd {
                    name,
                    expr: CliAddExpr::Binary { left: l.clone(), op: o.clone(), right: rt.clone() },
                })),
                _ => None,
            }
        },
    }
}

/// Reads `new_col=expression`, both trimmed; an expression that matches
/// `add_pattern` is an operator between two columns, any other a constant.
/// `None` when a group of the match is missing.
pub fn parse_add(spec: &str) -> (r: Option<Result<CliAdd, CliError>>)
    ensures
        split_trimmed(spec@, '=') is None ==> (r matches Some(Err(x)) && x.0@ == "Invalid add spec: '"@ + spec@
            + "'. Expected 'new_col=expression'"@),
        split_trimmed(spec@, '=') matches Some((n, e)) ==> match add_outcome(n, e, regex_captures_of(add_pattern(), e)) {
            None => r is None,
            Some(o) => r matches Some(x) && add_view(x, e) == o,
        },
{
    match split_once_trimmed(spec, '=') {
        None => {
            let mut m = String::new();
            push_str(&mut m, "Invalid add spec: '");
            push_str(&mut m, spec);
            push_str(&mut m, "'. Expected 'new_col=expression'");
            Some(Err(CliError(m)))
        },
        Some((name, e)) => {
            let caps = regex_captures(r"^(\w+)\s*([+\-*/])\s*(\w+)$", e.as_str());
            add_from_captures(name, e, caps)
        },
    }
}

// ---------------------------------------------------------------------------
// Transforms, with the comparison and arithmetic of cells supplied by the
// caller
// ---------------------------------------------------------------------------

/// Every row has a cell for each column.
pub open spec fn rows_fit(t: Table) -> bool {
    forall|k: int| 0 <= k < t.rows@.len() ==> (#[trigger] t.rows@[k])@.len() >= t.columns@.len()
}

/// The message of a column that is not there.
pub open spec fn missing_column(t: Table, name: Seq<char>) -> Seq<char> {
    "Column '"@ + name + "' not found. Available: "@ + debug_strings(t.columns@.map_values(|s: String| s@))
}

/// Whether a row passes, as `keeps` says.
pub open spec fn op_keeps(op: CmpOp, order: Order) -> bool {
    match op {
        CmpOp::Gt => order == Order::Greater,
        CmpOp::Lt => order == Order::Less,
        CmpOp::Ge => order == Order::Greater || order == Order::Equal,
        CmpOp::Le => order == Order::Less || order == Order::Equal,
        CmpOp::Eq => order == Order::Equal,
        CmpOp::Ne => order != Order::Equal,
        CmpOp::Any => true,
    }
}

/// A call of `order` on the cell and the value may have given an order by
/// which the row passes exactly when `mark` is set.
pub open spec fn op_mark_ok<F: Fn(&str, &str) -> Order>(order: F, op: CmpOp, cell: Seq<char>, value: Seq<char>, mark: bool) -> bool {
    exists|o: Order| #[trigger] may_give(order, cell, value, o) && mark == op_keeps(op, o)
}

/// Keeps the rows that pass the filter `expr` (see `parse_filter`); `order`
/// says how a cell compares with the value. `None`, with the table
/// unchanged, when a group of the match is missing.
pub fn apply_filter<F: Fn(&str, &str) -> Order>(table: &mut Table, expr: &str, order: F) -> (r: Option<Result<(), CliError>>)
    requires
        forall|x: &str, y: &str| #[trigger] order.requires((x, y)),
        rows_fit(*old(table)),
    ensures
        match filter_outcome(expr@, regex_captures_of(filter_pattern(), expr@)) {
            None => r is None && *final(table) == *old(table),
            Some(Err(m)) => r matches Some(Err(e)) && e.0@ == m && *final(table) == *old(table),
            Some(Ok((column, op, target))) => match column_position(old(table).columns@, column) {
                None => r matches Some(Err(e)) && e.0@ == missing_column(*old(table), column)
                    && *final(table) == *old(table),
                Some(i) => r matches Some(Ok(())) && final(table).columns == old(table).columns
                    && exists|marks: Seq<bool>| {
                    &&& marks.len() == old(table).rows@.len()
                    &&& final(table).rows@ == kept(old(table).rows@, marks, marks.len() as int)
                    &&& forall|k: int| 0 <= k < marks.len() ==> op_mark_ok(
                        order,
                        op,
                        old(table).rows@[k]@[i]@,
                        target,
                        #[trigger] marks[k],
                    )
                },
            },
        },
{
    let f = match parse_filter(expr) {
        None => return None,
        Some(Err(e)) => return Some(Err(e)),
        Some(Ok(f)) => f,
    };
    let i = match table.col_index(f.column.as_str()) {
        Ok(i) => i,
        Err(e) => return Some(Err(e)),
    };
    let _nc = table.columns.len();
    proof {
        crate::dtool::lemma_column_position(table.columns@, f.column@, table.columns@.len() as int);
    }
    let ghost t0 = *table;
    let mut marks: Vec<bool> = Vec::new();
    let mut k: usize = 0;
    while k < table.rows.len()
        invariant
            *table == t0,
            rows_fit(t0),
            i < t0.columns@.len(),
            forall|x: &str, y: &str| #[trigger] order.requires((x, y)),
            0 <= k <= t0.rows@.len(),
            marks@.len() == k,
            forall|q: int| 0 <= q < k ==> op_mark_ok(order, f.op, t0.rows@[q]@[i as int]@, f.target@, #[trigger] marks@[q]),
        decreases t0.rows@.len() - k,
    {
        let o = order(table.rows[k][i].as_str(), f.target.as_str());
        proof {
            assert(may_give(order, t0.rows@[k as int]@[i as int]@, f.target@, o));
        }
        marks.push(keeps(f.op, o));
        k = k + 1;
    }
    let mut rows: Vec<Vec<String>> = Vec::new();
    std::mem::swap(&mut rows, &mut table.rows);
    table.rows = retain_marked(rows, &marks);
    proof {
        let ms = marks@;
        assert(column_position(t0.columns@, f.column@) == Some(i as int));
        assert(ms.len() == t0.rows@.len());
        assert(forall|q: int| 0 <= q < ms.len() ==> op_mark_ok(order, f.op, t0.rows@[q]@[i as int]@, f.target@, #[trigger] ms[q]));
    }
    Some(Ok(()))
}

/// Puts the rows in order by column `col`, as `sort_rows_by` does; `order`
/// says how two cells compare.
pub fn apply_sort<F: Fn(&str, &str) -> Order>(table: &mut Table, col: &str, order: F) -> (r: Result<(), CliError>)
    requires
        forall|x: &str, y: &str| #[trigger] order.requires((x, y)),
        rows_fit(*old(table)),
    ensures
        match column_position(old(table).columns@, col@) {
            None => r matches Err(e) && e.0@ == missing_column(*old(table), col@) && *final(table) == *old(table),
            Some(i) => r is Ok && final(table).columns == old(table).columns
                && final(table).rows@.to_multiset() == old(table).rows@.to_multiset()
                && final(table).rows@.len() == old(table).rows@.len()
                && forall|j: int| 1 <= j < final(table).rows@.len() ==> placed_after(
                    order,
                    cell_or_empty(final(table).rows@[j - 1]@, i),
                    cell_or_empty((#[trigger] final(table).rows@[j])@, i),
                    false,
                ),
        },
{
    let i = match table.col_index(col) {
        Ok(i) => i,
        Err(e) => return Err(e),
    };
    let _nc = table.columns.len();
    proof {
        crate::dtool::lemma_column_position(table.columns@, col@, table.columns@.len() as int);
        assert(column_position(table.columns@, col@) == Some(i as int));
    }
    let mut rows: Vec<Vec<String>> = Vec::new();
    std::mem::swap(&mut rows, &mut table.rows);
    let sorted = sort_rows_by(rows, i, false, order);
    table.rows = sorted;
    Ok(())
}

/// `v` is what `arith` may give for two cells and an operator.
pub open spec fn arith_gives<F: Fn(&str, &str, &str) -> String>(arith: F, a: Seq<char>, op: Seq<char>, b: Seq<char>, v: Seq<char>) -> bool {
    exists|x: &str, o: &str, y: &str, s: String| x@ == a && o@ == op && y@ == b && s@ == v && #[trigger] arith.ensures((x, o, y), s)
}

/// Adds the column `new_col=expression` (see `parse_add`): for an operator
/// between two columns each cell is what `arith` gives for the two cells and
/// the operator; for a constant every cell is the constant. `None`, with the
/// table unchanged, when a group of the match is missing.
pub fn apply_add<F: Fn(&str, &str, &str) -> String>(table: &mut Table, spec: &str, arith: F) -> (r: Option<Result<(), CliError>>)
    requires
        forall|x: &str, o: &str, y: &str| #[trigger] arith.requires((x, o, y)),
        rows_fit(*old(table)),
    ensures
        split_trimmed(spec@, '=') is None ==> (r matches Some(Err(x)) && x.0@ == "Invalid add spec: '"@ + spec@
            + "'. Expected 'new_col=expression'"@ && *final(table) == *old(table)),
        split_trimmed(spec@, '=') matches Some((n, e)) ==> match add_outcome(n, e, regex_captures_of(add_pattern(), e)) {
            None => r is None && *final(table) == *old(table),
            Some(Err(m)) => r matches Some(Err(x)) && x.0@ == m && *final(table) == *old(table),
            Some(Ok((name, parts, c))) => match parts {
                Some((left, op, right)) => if column_position(old(table).columns@, left) is None {
                    r matches Some(Err(x)) && x.0@ == missing_column(*old(table), left) && *final(table) == *old(table)
                } else if column_position(old(table).columns@, right) is None {
                    r matches Some(Err(x)) && x.0@ == missing_column(*old(table), right) && *final(table) == *old(table)
                } else {
                    r matches Some(Ok(())) && added(*old(table), *final(table), name) && forall|k: int|
                        0 <= k < old(table).rows@.len() ==> arith_gives(
                        arith,
                        old(table).rows@[k]@[column_position(old(table).columns@, left)->Some_0]@,
                        op,
                        old(table).rows@[k]@[column_position(old(table).columns@, right)->Some_0]@,
                        (#[trigger] final(table).rows@[k])@.last()@,
                    )
                },
                None => r matches Some(Ok(())) && added(*old(table), *final(table), name) && forall|k: int|
                    0 <= k < old(table).rows@.len() ==> (#[trigger] final(table).rows@[k])@.last()@ == c,
            },
        },
{
    let add = match parse_add(spec) {
        None => return None,
        Some(Err(e)) => return Some(Err(e)),
        Some(Ok(a)) => a,
    };
    let ghost t0 = *table;
    let _nc = table.columns.len();
    let mut values: Vec<String> = Vec::new();
    let mut k: usize = 0;
    match &add.expr {
        CliAddExpr::Binary { left, op, right } => {
            let li = match table.col_index(left.as_str()) {
                Ok(i) => i,
                Err(e) => return Some(Err(e)),
            };
            let ri = match table.col_index(right.as_str()) {
                Ok(i) => i,
                Err(e) => return Some(Err(e)),
            };
            proof {
                crate::dtool::lemma_column_position(t0.columns@, left@, t0.columns@.len() as int);
                crate::dtool::lemma_column_position(t0.columns@, right@, t0.columns@.len() as int);
            }
            while k < table.rows.len()
                invariant
                    *table == t0,
                    rows_fit(t0),
                    forall|x: &str, o: &str, y: &str| #[trigger] arith.requires((x, o, y)),
                    li < t0.columns@.len(),
                    ri < t0.columns@.len(),
                    column_position(t0.columns@, left@) == Some(li as int),
                    column_position(t0.columns@, right@) == Some(ri as int),
                    0 <= k <= t0.rows@.len(),
                    values@.len() == k,
                    forall|q: int| 0 <= q < k ==> arith_gives(
                        arith,
                        t0.rows@[q]@[li as int]@,
                        op@,
                        t0.rows@[q]@[ri as int]@,
                        (#[trigger] values@[q])@,
                    ),
                decreases t0.rows@.len() - k,
            {
                let v = arith(table.rows[k][li].as_str(), op.as_str(), table.rows[k][ri].as_str());
                proof {
                    assert(arith_gives(arith, t0.rows@[k as int]@[li as int]@, op@, t0.rows@[k as int]@[ri as int]@, v@));
                }
                values.push(v);
                k = k + 1;
            }
        },
        CliAddExpr::Constant(c) => {
            while k < table.rows.len()
                invariant
                    *table == t0,
                    0 <= k <= t0.rows@.len(),
                    values@.len() == k,
                    forall|q: int| 0 <= q < k ==> (#[trigger] values@[q])@ == c@,
                decreases t0.rows@.len() - k,
            {
                values.push(c.clone());
                k = k + 1;
            }
        },
    }
    let mut rows: Vec<Vec<String>> = Vec::new();
    std::mem::swap(&mut rows, &mut table.rows);
    table.rows = append_cells(rows, values);
    let ghost name = add.name@;
    table.columns.push(add.name);
    proof {
        assert(strs(table.columns@) =~= strs(t0.columns@).push(name));
        assert forall|k: int| 0 <= k < t0.rows@.len() implies (#[trigger] table.rows@[k])@.len() == t0.rows@[k]@.len() + 1
            && table.rows@[k]@.take(t0.rows@[k]@.len() as int) == t0.rows@[k]@ && table.rows@[k]@.last() == values@[k] by {
            assert(table.rows@[k]@ == t0.rows@[k]@.push(values@[k]));
            assert(table.rows@[k]@.take(t0.rows@[k]@.len() as int) =~= t0.rows@[k]@);
        }
    }
    Some(Ok(()))
}

/// `after` is `before` with one more column, named `name`, and each row one
/// more cell.
pub open spec fn added(before: Table, after: Table, name: Seq<char>) -> bool {
    &&& strs(after.columns@) == strs(before.columns@).push(name)
    &&& after.rows@.len() == before.rows@.len()
    &&& forall|k: int| 0 <= k < before.rows@.len() ==> (#[trigger] after.rows@[k])@.len() == before.rows@[k]@.len() + 1
        && after.rows@[k]@.take(before.rows@[k]@.len() as int) == before.rows@[k]@
}

/// Each row with its value appended.
fn append_cells(rows: Vec<Vec<String>>, values: Vec<String>) -> (r: Vec<Vec<String>>)
    requires
        values@.len() == rows@.len(),
    ensures
        r@.len() == rows@.len(),
        forall|k: int| 0 <= k < rows@.len() ==> (#[trigger] r@[k])@ == rows@[k]@.push(values@[k]),
{
    let ghost r0 = rows@;
    let ghost v0 = values@;
    let n = rows.len();
    let mut rest = rows;
    let mut vals = values;
    let mut back: Vec<(Vec<String>, String)> = Vec::new();
    while rest.len() > 0
        invariant
            rest@ == r0.take(rest@.len() as int),
            vals@ == v0.take(vals@.len() as int),
            vals@.len() == rest@.len(),
            rest@.len() + back@.len() == r0.len(),
            r0.len() == v0.len(),
            forall|q: int| 0 <= q < back@.len() ==> back@[q] == (r0[r0.len() - 1 - q], v0[r0.len() - 1 - q]),
        decreases rest@.len(),
    {
        let row = rest.pop().unwrap();
        let v = vals.pop().unwrap();
        back.push((row, v));
    }
    let mut out: Vec<Vec<String>> = Vec::new();
    let mut k: usize = 0;
    while back.len() > 0
        invariant
            k + back@.len() == r0.len(),
            r0.len() == n,
            forall|q: int| 0 <= q < back@.len() ==> back@[q] == (r0[r0.len() - 1 - q], v0[r0.len() - 1 - q]),
            out@.len() == k,
            forall|q: int| 0 <= q < k ==> (#[trigger] out@[q])@ == r0[q]@.push(v0[q]),
        decreases back@.len(),
    {
        let (mut row, v) = back.pop().unwrap();
        row.push(v);
        out.push(row);
        k = k + 1;
    }
    out
}

} // verus!
