//! A data-file processor: reads CSV, JSON or YAML into a table, applies a
//! pipeline of transforms given on the command line, and writes the result.
//! This module holds the table, the parsing of transform specifications and
//! arguments, and the transforms that involve no arithmetic.
use vstd::prelude::*;
use crate::text::{
    chars_of, find_sub, find_sub_chars, trim, trimmed, split_first, split_first_at, str_eq, owned, push_str,
    to_lowercase, lowercase, string_from_range, slice_chars, find_from, lemma_find_from, all_ws, is_ws,
    is_whitespace, strs, join, push_join, has_infix, contains_run, text_lt, text_less, lemma_text_lt_total, lemma_text_lt_transitive,
};
use crate::table_ops::{all_keys, entry_view, fill_rows, keys_of, records_view, value_of, Order, RecordEntry};
use crate::rows::{cell_or_empty, cell_text, kept, placed_after, retain_marked, sort_rows_by};

verus! {

/// An error with a message for the user.
#[derive(Debug)]
pub struct ToolError(pub String);

impl ToolError {
    pub fn to_string(&self) -> (r: String)
        ensures
            r@ == self.0@,
    {
        self.0.clone()
    }
}

/// A table: column names and rows of string cells.
#[derive(Debug, Clone)]
pub struct DataFrame {
    pub columns: Vec<String>,
    pub rows: Vec<Vec<String>>,
}

/// The position of the first column named `name`, if any.
pub open spec fn column_position(columns: Seq<String>, name: Seq<char>) -> Option<int>
    decreases columns.len(),
{
    if columns.len() == 0 {
        None
    } else {
        match column_position(columns.drop_last(), name) {
            Some(i) => Some(i),
            None => if columns.last()@ == name { Some(columns.len() - 1) } else { None },
        }
    }
}

pub proof fn lemma_column_position(columns: Seq<String>, name: Seq<char>, n: int)
    requires
        0 <= n <= columns.len(),
    ensures
        column_position(columns.take(n), name) matches Some(i) ==> column_position(columns, name) == Some(i)
            && 0 <= i < n && columns[i]@ == name,
        column_position(columns, name) matches Some(i) ==> 0 <= i < columns.len() && columns[i]@ == name,
    decreases columns.len() - n,
{
    if n < columns.len() {
        assert(columns.take(n + 1).drop_last() == columns.take(n));
        lemma_column_position(columns, name, n + 1);
    } else {
        assert(columns.take(n) == columns);
    }
    lemma_column_position_bound(columns.take(n), name);
    lemma_column_position_bound(columns, name);
}

proof fn lemma_column_position_bound(columns: Seq<String>, name: Seq<char>)
    ensures
        column_position(columns, name) matches Some(i) ==> 0 <= i < columns.len() && columns[i]@ == name,
    decreases columns.len(),
{
    if columns.len() > 0 {
        lemma_column_position_bound(columns.drop_last(), name);
    }
}

/// The position of the first column named `name`.
pub fn position_of(columns: &Vec<String>, name: &str) -> (r: Option<usize>)
    ensures
        r matches Some(i) ==> column_position(columns@, name@) == Some(i as int),
        r is None ==> column_position(columns@, name@) is None,
{
    let mut i: usize = 0;
    while i < columns.len()
        invariant
            0 <= i <= columns@.len(),
            column_position(columns@.take(i as int), name@) is None,
        decreases columns@.len() - i,
    {
        proof {
            assert(columns@.take(i + 1).drop_last() == columns@.take(i as int));
        }
        if str_eq(columns[i].as_str(), name) {
            proof {
                lemma_column_position(columns@, name@, i + 1);
            }
            return Some(i);
        }
        i = i + 1;
    }
    proof {
        assert(columns@.take(i as int) == columns@);
    }
    None
}

impl DataFrame {
    pub fn column_index(&self, name: &str) -> (r: Option<usize>)
        ensures
            r matches Some(i) ==> column_position(self.columns@, name@) == Some(i as int),
            r is None ==> column_position(self.columns@, name@) is None,
    {
        position_of(&self.columns, name)
    }
}

/// What `Path::extension` gives for a path, if it is valid Unicode.
pub uninterp spec fn extension_of(path: Seq<char>) -> Option<Seq<char>>;

/// The extension of the file a path names: `Path::extension`, kept only when
/// it is valid Unicode. A function of the path alone, named `extension_of`.
#[verifier::external_body]
pub(crate) fn path_extension(path: &str) -> (r: Option<String>)
    ensures
        r is Some <==> extension_of(path@) is Some,
        r matches Some(e) ==> e@ == extension_of(path@)->Some_0,
{
    std::path::Path::new(path).extension().and_then(|e| e.to_str()).map(|e| e.to_string())
}

/// The file formats the tool reads and writes.
#[derive(Debug, Clone, Copy, PartialEq, Eq, Structural)]
pub enum FormatKind {
    Csv,
    Json,
    Yaml,
}

/// The format named by an extension already in lower case.
pub open spec fn format_named(e: Seq<char>) -> Option<FormatKind> {
    if e == "csv"@ {
        Some(FormatKind::Csv)
    } else if e == "json"@ {
        Some(FormatKind::Json)
    } else if e == "yaml"@ || e == "yml"@ {
        Some(FormatKind::Yaml)
    } else {
        None
    }
}

/// The format of a file from its extension, matched without regard to case.
pub fn detect_format(path: &str) -> (r: Result<FormatKind, ToolError>)
    ensures
        extension_of(path@) is None ==> (r matches Err(e) && e.0@ == "Cannot detect format: no file extension"@),
        extension_of(path@) matches Some(x) ==> match format_named(lowercase(x)) {
            Some(f) => r == Ok::<FormatKind, ToolError>(f),
            None => r matches Err(e) && e.0@ == "Unsupported format: ."@ + lowercase(x),
        },
{
    match path_extension(path) {
        None => Err(ToolError(owned("Cannot detect format: no file extension"))),
        Some(x) => {
            let e = to_lowercase(x.as_str());
            if str_eq(e.as_str(), "csv") {
                Ok(FormatKind::Csv)
            } else if str_eq(e.as_str(), "json") {
                Ok(FormatKind::Json)
            } else if str_eq(e.as_str(), "yaml") || str_eq(e.as_str(), "yml") {
                Ok(FormatKind::Yaml)
            } else {
                let mut m = String::new();
                push_str(&mut m, "Unsupported format: .");
                push_str(&mut m, e.as_str());
                Err(ToolError(m))
            }
        },
    }
}

/// Comparison operators of filter expressions.
#[derive(Debug, Clone, Copy, PartialEq, Eq, Structural)]
pub enum FilterOp {
    Eq,
    Ne,
    Gt,
    Lt,
    Ge,
    Le,
    Contains,
}

/// The operator tokens, in the order they are looked for: two-character
/// tokens before their one-character prefixes.
pub open spec fn op_tokens() -> Seq<(Seq<char>, FilterOp)> {
    seq![
        (">="@, FilterOp::Ge),
        ("<="@, FilterOp::Le),
        ("!="@, FilterOp::Ne),
        (">"@, FilterOp::Gt),
        ("<"@, FilterOp::Lt),
        ("="@, FilterOp::Eq),
        ("~"@, FilterOp::Contains),
    ]
}

/// The first operator token, in the order of `op_tokens`, that occurs in `e`.
pub open spec fn first_token(e: Seq<char>, k: int) -> Option<int>
    decreases 7 - k,
{
    if k < 0 || k >= 7 {
        None
    } else if find_sub(e, op_tokens()[k].0) is Some {
        Some(k)
    } else {
        first_token(e, k + 1)
    }
}

/// A filter: keep the rows whose cell in `column` compares to `value` by `op`.
#[derive(Debug, Clone)]
pub struct FilterTransform {
    pub column: String,
    pub op: FilterOp,
    pub value: String,
}

/// What parsing a filter expression gives.
pub open spec fn filter_parse(expr: Seq<char>, r: Result<FilterTransform, ToolError>) -> bool {
    match first_token(expr, 0) {
        None => r matches Err(e) && e.0@ == "Cannot parse filter expression: '"@ + expr
            + "'. Use col>val, col=val, col!=val, col~val, etc."@,
        Some(k) => {
            let tok = op_tokens()[k].0;
            let p = find_sub(expr, tok)->Some_0;
            let column = trim(expr.take(p));
            let value = trim(expr.skip(p + tok.len()));
            if column.len() == 0 {
                r matches Err(e) && e.0@ == "Filter expression missing column name: '"@ + expr + "'"@
            } else {
                r matches Ok(f) && f.column@ == column && f.op == op_tokens()[k].1 && f.value@ == value
            }
        },
    }
}

fn token_text(k: usize) -> (r: &'static str)
    requires
        k < 7,
    ensures
        r@ == op_tokens()[k as int].0,
{
    if k == 0 { ">=" }
    else if k == 1 { "<=" }
    else if k == 2 { "!=" }
    else if k == 3 { ">" }
    else if k == 4 { "<" }
    else if k == 5 { "=" }
    else { "~" }
}

fn token_op(k: usize) -> (r: FilterOp)
    requires
        k < 7,
    ensures
        r == op_tokens()[k as int].1,
{
    if k == 0 { FilterOp::Ge }
    else if k == 1 { FilterOp::Le }
    else if k == 2 { FilterOp::Ne }
    else if k == 3 { FilterOp::Gt }
    else if k == 4 { FilterOp::Lt }
    else if k == 5 { FilterOp::Eq }
    else { FilterOp::Contains }
}

impl FilterTransform {
    /// Parses an expression such as `age>30`, `name=Alice`, `city!=London` or
    /// `name~Ali` (contains).
    pub fn parse(expr: &str) -> (r: Result<Self, ToolError>)
        ensures
            filter_parse(expr@, r),
    {
        let cs = chars_of(expr);
        let mut k: usize = 0;
        while k < 7
            invariant
                cs@ == expr@,
                0 <= k <= 7,
                first_token(expr@, 0) == first_token(expr@, k as int),
            decreases 7 - k,
        {
            let tok = chars_of(token_text(k));
            match find_sub_chars(cs.as_slice(), tok.as_slice()) {
                Some(p) => {
                    let before = slice_chars(cs.as_slice(), 0, p);
                    let n = cs.len();
                    let tl = tok.len();
                    let after = slice_chars(cs.as_slice(), p + tl, n);
                    let column = trimmed(before.as_slice());
                    let value = trimmed(after.as_slice());
                    proof {
                        assert(cs@.subrange(0, p as int) == expr@.take(p as int));
                        assert(cs@.subrange(p + tok@.len(), cs@.len() as int) == expr@.skip(p + tok@.len()));
                    }
                    if column.as_str().is_empty() {
                        let mut m = String::new();
                        push_str(&mut m, "Filter expression missing column name: '");
                        push_str(&mut m, expr);
                        push_str(&mut m, "'");
                        return Err(ToolError(m));
                    }
                    return Ok(FilterTransform { column, op: token_op(k), value });
                },
                None => {},
            }
            k = k + 1;
        }
        let mut m = String::new();
        push_str(&mut m, "Cannot parse filter expression: '");
        push_str(&mut m, expr);
        push_str(&mut m, "'. Use col>val, col=val, col!=val, col~val, etc.");
        Err(ToolError(m))
    }
}

/// The name `{:?}` prints for an operator.
pub open spec fn op_name(op: FilterOp) -> Seq<char> {
    match op {
        FilterOp::Eq => "Eq"@,
        FilterOp::Ne => "Ne"@,
        FilterOp::Gt => "Gt"@,
        FilterOp::Lt => "Lt"@,
        FilterOp::Ge => "Ge"@,
        FilterOp::Le => "Le"@,
        FilterOp::Contains => "Contains"@,
    }
}

impl FilterOp {
    pub fn name(&self) -> (r: &'static str)
        ensures
            r@ == op_name(*self),
    {
        match self {
            FilterOp::Eq => "Eq",
            FilterOp::Ne => "Ne",
            FilterOp::Gt => "Gt",
            FilterOp::Lt => "Lt",
            FilterOp::Ge => "Ge",
            FilterOp::Le => "Le",
            FilterOp::Contains => "Contains",
        }
    }
}

impl FilterTransform {
    /// A description for dry-run output: `filter: <column> <op> <value>`.
    pub fn describe(&self) -> (r: String)
        ensures
            r@ == "filter: "@ + self.column@ + " "@ + op_name(self.op) + " "@ + self.value@,
    {
        let mut s = String::new();
        push_str(&mut s, "filter: ");
        push_str(&mut s, self.column.as_str());
        push_str(&mut s, " ");
        push_str(&mut s, self.op.name());
        push_str(&mut s, " ");
        push_str(&mut s, self.value.as_str());
        s
    }
}

/// Sorts the rows by a column, ascending unless the spec starts with `-`.
#[derive(Debug, Clone)]
pub struct SortTransform {
    pub column: String,
    pub descending: bool,
}

impl SortTransform {
    /// Parses `col` (ascending) or `-col` (descending).
    pub fn parse(spec: &str) -> (r: Self)
        ensures
            spec@.len() > 0 && spec@[0] == '-' ==> r.descending && r.column@ == spec@.skip(1),
            !(spec@.len() > 0 && spec@[0] == '-') ==> !r.descending && r.column@ == spec@,
    {
        let cs = chars_of(spec);
        if cs.len() > 0 && cs[0] == '-' {
            let rest = slice_chars(cs.as_slice(), 1, cs.len());
            let column = string_from_range(rest.as_slice(), 0, rest.len());
            proof {
                assert(rest@.subrange(0, rest@.len() as int) == rest@);
                assert(cs@.subrange(1, cs@.len() as int) == spec@.skip(1));
            }
            SortTransform { column, descending: true }
        } else {
            SortTransform { column: owned(spec), descending: false }
        }
    }

    /// `sort: <column> (asc|desc)`.
    pub fn describe(&self) -> (r: String)
        ensures
            r@ == "sort: "@ + self.column@ + " ("@ + (if self.descending { "desc"@ } else { "asc"@ }) + ")"@,
    {
        let mut s = String::new();
        push_str(&mut s, "sort: ");
        push_str(&mut s, self.column.as_str());
        push_str(&mut s, " (");
        push_str(&mut s, if self.descending { "desc" } else { "asc" });
        push_str(&mut s, ")");
        s
    }
}

/// Renames a column.
#[derive(Debug, Clone)]
pub struct RenameTransform {
    pub old_name: String,
    pub new_name: String,
}

/// The trimmed text before and after the first `sep`.
pub open spec fn split_trimmed(s: Seq<char>, sep: char) -> Option<(Seq<char>, Seq<char>)> {
    match split_first(s, seq![sep]) {
        Some((a, b)) => Some((trim(a), trim(b))),
        None => None,
    }
}

/// Splits at the first `sep` and trims both parts.
pub fn split_once_trimmed(s: &str, sep: char) -> (r: Option<(String, String)>)
    ensures
        r matches Some((a, b)) ==> split_trimmed(s@, sep) == Some((a@, b@)),
        r is None ==> split_trimmed(s@, sep) is None,
{
    let cs = chars_of(s);
    let mut sv: Vec<char> = Vec::new();
    sv.push(sep);
    proof {
        assert(sv@ == seq![sep]);
    }
    match split_first_at(cs.as_slice(), sv.as_slice()) {
        Some((a, b)) => Some((trimmed(a.as_slice()), trimmed(b.as_slice()))),
        None => None,
    }
}

impl RenameTransform {
    /// Parses `old_name:new_name`.
    pub fn parse(spec: &str) -> (r: Result<Self, ToolError>)
        ensures
            split_trimmed(spec@, ':') matches Some((a, b)) ==> (r matches Ok(t) && t.old_name@ == a && t.new_name@ == b),
            split_trimmed(spec@, ':') is None ==> (r matches Err(e) && e.0@
                == "Rename spec must be 'old_name:new_name', got '"@ + spec@ + "'"@),
    {
        match split_once_trimmed(spec, ':') {
            Some((old_name, new_name)) => Ok(RenameTransform { old_name, new_name }),
            None => {
                let mut m = String::new();
                push_str(&mut m, "Rename spec must be 'old_name:new_name', got '");
                push_str(&mut m, spec);
                push_str(&mut m, "'");
                Err(ToolError(m))
            },
        }
    }

    /// Renames the first column named `old_name` to `new_name`; the rows are
    /// unchanged. An error when no column has that name.
    pub fn apply(&self, data: DataFrame) -> (r: Result<DataFrame, ToolError>)
        ensures
            column_position(data.columns@, self.old_name@) matches Some(i) ==> (r matches Ok(d)
                && d.rows == data.rows && d.columns@.len() == data.columns@.len()
                && d.columns@[i]@ == self.new_name@
                && forall|j: int| 0 <= j < d.columns@.len() && j != i ==> d.columns@[j] == data.columns@[j]),
            column_position(data.columns@, self.old_name@) is None ==> (r matches Err(e)
                && e.0@ == "Rename: column '"@ + self.old_name@ + "' not found"@),
    {
        let mut data = data;
        match data.column_index(self.old_name.as_str()) {
            Some(i) => {
                proof {
                    lemma_column_position_bound(data.columns@, self.old_name@);
                }
                data.columns.set(i, self.new_name.clone());
                Ok(data)
            },
            None => {
                let mut m = String::new();
                push_str(&mut m, "Rename: column '");
                push_str(&mut m, self.old_name.as_str());
                push_str(&mut m, "' not found");
                Err(ToolError(m))
            },
        }
    }

    /// `rename: <old> -> <new>`.
    pub fn describe(&self) -> (r: String)
        ensures
            r@ == "rename: "@ + self.old_name@ + " -> "@ + self.new_name@,
    {
        let mut s = String::new();
        push_str(&mut s, "rename: ");
        push_str(&mut s, self.old_name.as_str());
        push_str(&mut s, " -> ");
        push_str(&mut s, self.new_name.as_str());
        s
    }
}

/// The expression of a computed column: two column names and how they combine.
#[derive(Debug, Clone)]
pub enum ComputedExpr {
    Add(String, String),
    Sub(String, String),
    Mul(String, String),
    Concat(String, String),
}

/// Adds a column computed from two existing columns.
#[derive(Debug, Clone)]
pub struct ComputedColumnTransform {
    pub new_column: String,
    pub expression: ComputedExpr,
}

/// The expression of `e`: split at the first `&`, else `+`, else `*`, else `-`.
pub open spec fn computed_expr(e: Seq<char>, r: ComputedExpr) -> bool {
    if split_trimmed(e, '&') is Some {
        r matches ComputedExpr::Concat(a, b) && (a@, b@) == split_trimmed(e, '&')->Some_0
    } else if split_trimmed(e, '+') is Some {
        r matches ComputedExpr::Add(a, b) && (a@, b@) == split_trimmed(e, '+')->Some_0
    } else if split_trimmed(e, '*') is Some {
        r matches ComputedExpr::Mul(a, b) && (a@, b@) == split_trimmed(e, '*')->Some_0
    } else {
        r matches ComputedExpr::Sub(a, b) && (a@, b@) == split_trimmed(e, '-')->Some_0
    }
}

impl ComputedColumnTransform {
    /// Parses `new_col=a+b` (addition), `a-b`, `a*b`, or `a&b` (concatenation).
    pub fn parse(spec: &str) -> (r: Result<Self, ToolError>)
        ensures
            split_trimmed(spec@, '=') is None ==> (r matches Err(e) && e.0@
                == "Computed column must be 'new_col=expr', got '"@ + spec@ + "'"@),
            split_trimmed(spec@, '=') matches Some((name, e)) ==> {
                &&& (split_trimmed(e, '&') is None && split_trimmed(e, '+') is None
                    && split_trimmed(e, '*') is None && split_trimmed(e, '-') is None) ==> (r matches Err(x)
                    && x.0@ == "Computed expression must use +, -, *, or & operator: '"@ + e + "'"@)
                &&& !(split_trimmed(e, '&') is None && split_trimmed(e, '+') is None
                    && split_trimmed(e, '*') is None && split_trimmed(e, '-') is None) ==> (r matches Ok(t)
                    && t.new_column@ == name && computed_expr(e, t.expression))
            },
    {
        match split_once_trimmed(spec, '=') {
            None => {
                let mut m = String::new();
                push_str(&mut m, "Computed column must be 'new_col=expr', got '");
                push_str(&mut m, spec);
                push_str(&mut m, "'");
                Err(ToolError(m))
            },
            Some((new_column, e)) => {
                let expression = match split_once_trimmed(e.as_str(), '&') {
                    Some((a, b)) => ComputedExpr::Concat(a, b),
                    None => match split_once_trimmed(e.as_str(), '+') {
                        Some((a, b)) => ComputedExpr::Add(a, b),
                        None => match split_once_trimmed(e.as_str(), '*') {
                            Some((a, b)) => ComputedExpr::Mul(a, b),
                            None => match split_once_trimmed(e.as_str(), '-') {
                                Some((a, b)) => ComputedExpr::Sub(a, b),
                                None => {
                                    let mut m = String::new();
                                    push_str(&mut m, "Computed expression must use +, -, *, or & operator: '");
                                    push_str(&mut m, e.as_str());
                                    push_str(&mut m, "'");
                                    return Err(ToolError(m));
                                },
                            },
                        },
                    },
                };
                Ok(ComputedColumnTransform { new_column, expression })
            },
        }
    }

    /// `computed column: <name>`.
    pub fn describe(&self) -> (r: String)
        ensures
            r@ == "computed column: "@ + self.new_column@,
    {
        let mut s = String::new();
        push_str(&mut s, "computed column: ");
        push_str(&mut s, self.new_column.as_str());
        s
    }
}

/// The message of a filter expression that does not parse, if it does not.
pub open spec fn filter_error(expr: Seq<char>) -> Option<Seq<char>> {
    match first_token(expr, 0) {
        None => Some("Cannot parse filter expression: '"@ + expr + "'. Use col>val, col=val, col!=val, col~val, etc."@),
        Some(k) => {
            let tok = op_tokens()[k].0;
            let p = find_sub(expr, tok)->Some_0;
            if trim(expr.take(p)).len() == 0 {
                Some("Filter expression missing column name: '"@ + expr + "'"@)
            } else {
                None
            }
        },
    }
}

/// The message of a rename spec that does not parse, if it does not.
pub open spec fn rename_error(spec: Seq<char>) -> Option<Seq<char>> {
    if split_trimmed(spec, ':') is None {
        Some("Rename spec must be 'old_name:new_name', got '"@ + spec + "'"@)
    } else {
        None
    }
}

/// The message of a computed-column spec that does not parse, if it does not.
pub open spec fn compute_error(spec: Seq<char>) -> Option<Seq<char>> {
    match split_trimmed(spec, '=') {
        None => Some("Computed column must be 'new_col=expr', got '"@ + spec + "'"@),
        Some((_, e)) => if split_trimmed(e, '&') is None && split_trimmed(e, '+') is None
            && split_trimmed(e, '*') is None && split_trimmed(e, '-') is None {
            Some("Computed expression must use +, -, *, or & operator: '"@ + e + "'"@)
        } else {
            None
        },
    }
}

/// The options of the command line.
#[derive(Debug, Clone, Copy, PartialEq, Eq, Structural)]
pub enum Flag {
    Filter,
    Sort,
    Rename,
    Compute,
    Output,
}

pub open spec fn flag_named(a: Seq<char>) -> Option<Flag> {
    if a == "--filter"@ || a == "-f"@ {
        Some(Flag::Filter)
    } else if a == "--sort"@ || a == "-s"@ {
        Some(Flag::Sort)
    } else if a == "--rename"@ || a == "-r"@ {
        Some(Flag::Rename)
    } else if a == "--compute"@ || a == "-c"@ {
        Some(Flag::Compute)
    } else if a == "--output"@ || a == "-o"@ {
        Some(Flag::Output)
    } else {
        None
    }
}

/// The message when an option has no value after it.
pub open spec fn missing_value(f: Flag) -> Seq<char> {
    match f {
        Flag::Filter => "--filter requires a value"@,
        Flag::Sort => "--sort requires a column name"@,
        Flag::Rename => "--rename requires 'old:new'"@,
        Flag::Compute => "--compute requires 'new_col=expr'"@,
        Flag::Output => "--output requires a file path"@,
    }
}

/// The message of an option's value that does not parse, if it does not.
pub open spec fn value_error(f: Flag, v: Seq<char>) -> Option<Seq<char>> {
    match f {
        Flag::Filter => filter_error(v),
        Flag::Rename => rename_error(v),
        Flag::Compute => compute_error(v),
        _ => None,
    }
}

/// The options from position `i` on, each with its value, or the first error
/// met reading them from left to right.
pub open spec fn scan_options(args: Seq<Seq<char>>, i: int) -> Result<Seq<(Flag, Seq<char>)>, Seq<char>>
    decreases args.len() - i,
{
    if i < 0 || i >= args.len() {
        Ok(Seq::empty())
    } else {
        match flag_named(args[i]) {
            None => Err("Unknown argument: "@ + args[i]),
            Some(f) => if i + 1 >= args.len() {
                Err(missing_value(f))
            } else {
                match value_error(f, args[i + 1]) {
                    Some(m) => Err(m),
                    None => match scan_options(args, i + 2) {
                        Ok(rest) => Ok(seq![(f, args[i + 1])] + rest),
                        Err(m) => Err(m),
                    },
                }
            },
        }
    }
}

/// The value of the last `--output`, if any.
pub open spec fn last_output(steps: Seq<(Flag, Seq<char>)>) -> Option<Seq<char>>
    decreases steps.len(),
{
    if steps.len() == 0 {
        None
    } else if steps.last().0 == Flag::Output {
        Some(steps.last().1)
    } else {
        last_output(steps.drop_last())
    }
}

/// The options that add a transform, in order.
pub open spec fn transform_options(steps: Seq<(Flag, Seq<char>)>) -> Seq<(Flag, Seq<char>)>
    decreases steps.len(),
{
    if steps.len() == 0 {
        Seq::empty()
    } else if steps.last().0 == Flag::Output {
        transform_options(steps.drop_last())
    } else {
        transform_options(steps.drop_last()).push(steps.last())
    }
}

/// A transform of the pipeline, as given on the command line.
#[derive(Debug, Clone)]
pub enum TransformStep {
    Filter(FilterTransform),
    Sort(SortTransform),
    Rename(RenameTransform),
    Compute(ComputedColumnTransform),
}

/// `step` is what option `f` with value `v` makes.
pub open spec fn step_from(step: TransformStep, f: Flag, v: Seq<char>) -> bool {
    match step {
        TransformStep::Filter(t) => f == Flag::Filter && filter_parse(v, Ok(t)),
        TransformStep::Sort(t) => f == Flag::Sort && t.descending == (v.len() > 0 && v[0] == '-')
            && t.column@ == (if v.len() > 0 && v[0] == '-' { v.skip(1) } else { v }),
        TransformStep::Rename(t) => f == Flag::Rename && split_trimmed(v, ':') == Some((t.old_name@, t.new_name@)),
        TransformStep::Compute(t) => f == Flag::Compute && (split_trimmed(v, '=') matches Some((name, e))
            && t.new_column@ == name && computed_expr(e, t.expression)),
    }
}

/// The parsed command line.
#[derive(Debug)]
pub struct CliArgs {
    pub input_path: String,
    pub output_path: Option<String>,
    pub transforms: Vec<TransformStep>,
}

/// `done` followed by the outcome of scanning the rest.
pub open spec fn after(done: Seq<(Flag, Seq<char>)>, rest: Result<Seq<(Flag, Seq<char>)>, Seq<char>>) -> Result<
    Seq<(Flag, Seq<char>)>,
    Seq<char>,
> {
    match rest {
        Ok(r) => Ok(done + r),
        Err(m) => Err(m),
    }
}

pub open spec fn opt_view(o: Option<String>) -> Option<Seq<char>> {
    match o {
        Some(s) => Some(s@),
        None => None,
    }
}

/// The usage message.
pub open spec fn usage() -> Seq<char> {
    "Usage: dtool <input> [--filter 'col>val'] [--sort col] [--rename 'old:new'] [--compute 'new=a+b'] [--output out.json]"@
}

/// Parses the command line: the input path, then options, each with a value.
pub fn parse_args(args: Vec<String>) -> (r: Result<CliArgs, ToolError>)
    ensures
        args@.len() < 2 ==> (r matches Err(e) && e.0@ == usage()),
        args@.len() >= 2 ==> match scan_options(crate::taskgraph::names(args@), 2) {
            Err(m) => r matches Err(e) && e.0@ == m,
            Ok(steps) => r matches Ok(cli) && cli.input_path@ == args@[1]@
                && opt_view(cli.output_path) == last_output(steps)
                && cli.transforms@.len() == transform_options(steps).len()
                && forall|k: int| 0 <= k < cli.transforms@.len() ==> step_from(
                    #[trigger] cli.transforms@[k],
                    transform_options(steps)[k].0,
                    transform_options(steps)[k].1,
                ),
        },
{
    let ghost a = crate::taskgraph::names(args@);
    if args.len() < 2 {
        return Err(ToolError(owned("Usage: dtool <input> [--filter 'col>val'] [--sort col] [--rename 'old:new'] [--compute 'new=a+b'] [--output out.json]")));
    }
    let input_path = args[1].clone();
    let mut output_path: Option<String> = None;
    let mut transforms: Vec<TransformStep> = Vec::new();
    let ghost mut done: Seq<(Flag, Seq<char>)> = Seq::empty();
    let mut i: usize = 2;
    proof {
        assert(done + Seq::<(Flag, Seq<char>)>::empty() == done);
    }
    while i < args.len()
        invariant
            a == crate::taskgraph::names(args@),
            2 <= i <= args@.len(),
            scan_options(a, 2) == after(done, scan_options(a, i as int)),
            opt_view(output_path) == last_output(done),
            transforms@.len() == transform_options(done).len(),
            forall|k: int| 0 <= k < transforms@.len() ==> step_from(
                #[trigger] transforms@[k],
                transform_options(done)[k].0,
                transform_options(done)[k].1,
            ),
        decreases args@.len() - i,
    {
        let flag = args[i].as_str();
        proof {
            assert(a[i as int] == args@[i as int]@);
        }
        let f = if str_eq(flag, "--filter") || str_eq(flag, "-f") {
            Flag::Filter
        } else if str_eq(flag, "--sort") || str_eq(flag, "-s") {
            Flag::Sort
        } else if str_eq(flag, "--rename") || str_eq(flag, "-r") {
            Flag::Rename
        } else if str_eq(flag, "--compute") || str_eq(flag, "-c") {
            Flag::Compute
        } else if str_eq(flag, "--output") || str_eq(flag, "-o") {
            Flag::Output
        } else {
            let mut m = String::new();
            push_str(&mut m, "Unknown argument: ");
            push_str(&mut m, flag);
            return Err(ToolError(m));
        };
        if i + 1 >= args.len() {
            let m = match f {
                Flag::Filter => "--filter requires a value",
                Flag::Sort => "--sort requires a column name",
                Flag::Rename => "--rename requires 'old:new'",
                Flag::Compute => "--compute requires 'new_col=expr'",
                Flag::Output => "--output requires a file path",
            };
            return Err(ToolError(owned(m)));
        }
        let value = args[i + 1].as_str();
        proof {
            assert(a[i + 1] == args@[i + 1]@);
        }
        let ghost step = (f, value@);
        let ghost d0 = done;
        match f {
            Flag::Filter => {
                match FilterTransform::parse(value) {
                    Ok(t) => {
                        transforms.push(TransformStep::Filter(t));
                    },
                    Err(e) => {
                        return Err(e);
                    },
                }
            },
            Flag::Sort => {
                transforms.push(TransformStep::Sort(SortTransform::parse(value)));
            },
            Flag::Rename => {
                match RenameTransform::parse(value) {
                    Ok(t) => {
                        transforms.push(TransformStep::Rename(t));
                    },
                    Err(e) => {
                        return Err(e);
                    },
                }
            },
            Flag::Compute => {
                match ComputedColumnTransform::parse(value) {
                    Ok(t) => {
                        transforms.push(TransformStep::Compute(t));
                    },
                    Err(e) => {
                        return Err(e);
                    },
                }
            },
            Flag::Output => {
                output_path = Some(owned(value));
            },
        }
        proof {
            done = done.push(step);
            assert(done.drop_last() == d0);
            assert(scan_options(a, i as int) == after(seq![step], scan_options(a, i + 2)));
            assert(d0 + (seq![step] + Seq::empty()) == done + Seq::<(Flag, Seq<char>)>::empty());
            assert forall|rest: Seq<(Flag, Seq<char>)>| d0 + (seq![step] + rest) == done + rest by {
                assert(d0 + (seq![step] + rest) =~= done + rest);
            }
            if f != Flag::Output {
                assert(transform_options(done) == transform_options(d0).push(step));
            }
        }
        i = i + 2;
    }
    proof {
        assert(done + Seq::<(Flag, Seq<char>)>::empty() == done);
    }
    Ok(CliArgs { input_path, output_path, transforms })
}

// ---------------------------------------------------------------------------
// CSV text
// ---------------------------------------------------------------------------

/// `l` without a final carriage return.
pub open spec fn strip_cr(l: Seq<char>) -> Seq<char> {
    if l.len() > 0 && l.last() == '\r' {
        l.drop_last()
    } else {
        l
    }
}

/// The lines of `s` from position `i` on, as `str::lines` gives them: split
/// at each newline, a carriage return before it dropped, and no line after
/// a final newline.
pub open spec fn lines_from(s: Seq<char>, i: int) -> Seq<Seq<char>>
    decreases s.len() - i,
{
    if i < 0 || i >= s.len() {
        Seq::empty()
    } else {
        let p = find_from(s, '\n', i);
        if p >= s.len() {
            seq![s.subrange(i, s.len() as int)]
        } else {
            proof {
                lemma_find_from(s, '\n', i);
            }
            seq![strip_cr(s.subrange(i, p))] + lines_from(s, p + 1)
        }
    }
}

/// The pieces of `s` from position `i` on between the occurrences of `c`,
/// as `str::split` gives them.
pub open spec fn pieces_from(s: Seq<char>, c: char, i: int) -> Seq<Seq<char>>
    decreases s.len() + 1 - i,
{
    if i < 0 || i > s.len() {
        Seq::empty()
    } else {
        let p = find_from(s, c, i);
        if p >= s.len() {
            seq![s.subrange(i, s.len() as int)]
        } else {
            proof {
                lemma_find_from(s, c, i);
            }
            seq![s.subrange(i, p)] + pieces_from(s, c, p + 1)
        }
    }
}

/// The cells of a CSV line: its pieces between commas, trimmed.
pub open spec fn csv_cells(line: Seq<char>) -> Seq<Seq<char>> {
    pieces_from(line, ',', 0).map_values(|p: Seq<char>| trim(p))
}

/// The rows of CSV lines: the cells of each line that is not blank.
pub open spec fn csv_rows(lines: Seq<Seq<char>>) -> Seq<Seq<Seq<char>>>
    decreases lines.len(),
{
    if lines.len() == 0 {
        Seq::empty()
    } else if all_ws(lines[0]) {
        csv_rows(lines.drop_first())
    } else {
        seq![csv_cells(lines[0])] + csv_rows(lines.drop_first())
    }
}

/// The cells of the rows of a table.
pub open spec fn row_cells(rows: Seq<Vec<String>>) -> Seq<Seq<Seq<char>>> {
    rows.map_values(|r: Vec<String>| strs(r@))
}

/// The position of the first `c` in `cs` at or after `i`, as `find_from`
/// says.
fn next_index(cs: &[char], i: usize, c: char) -> (r: usize)
    requires
        i <= cs@.len(),
    ensures
        r == find_from(cs@, c, i as int),
        i <= r <= cs@.len(),
{
    proof {
        lemma_find_from(cs@, c, i as int);
    }
    let mut j: usize = i;
    while j < cs.len()
        invariant
            i <= j <= cs@.len(),
            find_from(cs@, c, i as int) == find_from(cs@, c, j as int),
        decreases cs@.len() - j,
    {
        if cs[j] == c {
            return j;
        }
        j = j + 1;
    }
    j
}

/// The lines of `cs`, as `lines_from` says.
fn lines_of(cs: &[char]) -> (r: Vec<Vec<char>>)
    ensures
        r@.map_values(|l: Vec<char>| l@) == lines_from(cs@, 0),
{
    let mut r: Vec<Vec<char>> = Vec::new();
    let mut i: usize = 0;
    let n = cs.len();
    while i < n
        invariant
            n == cs@.len(),
            0 <= i <= n,
            lines_from(cs@, 0) == r@.map_values(|l: Vec<char>| l@) + lines_from(cs@, i as int),
        decreases n - i,
    {
        let p = next_index(cs, i, '\n');
        let ghost r0 = r@.map_values(|l: Vec<char>| l@);
        if p >= n {
            let line = slice_chars(cs, i, n);
            r.push(line);
            proof {
                assert(r@.map_values(|l: Vec<char>| l@) == r0.push(line@));
                assert(lines_from(cs@, n as int) == Seq::<Seq<char>>::empty());
                assert(lines_from(cs@, i as int) == seq![line@]);
                assert(r0 + seq![line@] == r0.push(line@));
                assert(r0.push(line@) + Seq::<Seq<char>>::empty() == r0.push(line@));
            }
            i = n;
        } else {
            let mut line = slice_chars(cs, i, p);
            if line.len() > 0 && line[line.len() - 1] == '\r' {
                line.pop();
            }
            proof {
                assert(line@ == strip_cr(cs@.subrange(i as int, p as int)));
            }
            r.push(line);
            proof {
                assert(r@.map_values(|l: Vec<char>| l@) == r0.push(line@));
                assert(lines_from(cs@, i as int) == seq![line@] + lines_from(cs@, p + 1));
                assert(r0 + (seq![line@] + lines_from(cs@, p + 1)) == r0.push(line@) + lines_from(cs@, p + 1));
            }
            i = p + 1;
        }
    }
    proof {
        assert(lines_from(cs@, i as int) == Seq::<Seq<char>>::empty());
        assert(r@.map_values(|l: Vec<char>| l@) + Seq::<Seq<char>>::empty() == r@.map_values(|l: Vec<char>| l@));
    }
    r
}

/// The cells of a CSV line, as `csv_cells` says.
fn cells_of_line(line: &[char]) -> (r: Vec<String>)
    ensures
        strs(r@) == csv_cells(line@),
{
    let mut r: Vec<String> = Vec::new();
    let mut i: usize = 0;
    let n = line.len();
    let ghost all = pieces_from(line@, ',', 0);
    loop
        invariant_except_break
            all.map_values(|p: Seq<char>| trim(p)) == strs(r@) + pieces_from(line@, ',', i as int).map_values(
                |p: Seq<char>| trim(p),
            ),
        invariant
            n == line@.len(),
            0 <= i <= n,
            all == pieces_from(line@, ',', 0),
        ensures
            all.map_values(|p: Seq<char>| trim(p)) == strs(r@),
        decreases n + 1 - i,
    {
        let p = next_index(line, i, ',');
        let piece = slice_chars(line, i, p);
        let ghost r0 = strs(r@);
        let cell = trimmed(piece.as_slice());
        r.push(cell);
        proof {
            assert(strs(r@) == r0.push(trim(piece@)));
        }
        if p >= n {
            proof {
                assert(pieces_from(line@, ',', i as int) == seq![piece@]);
                assert(seq![piece@].map_values(|p: Seq<char>| trim(p)) == seq![trim(piece@)]);
                assert(r0 + seq![trim(piece@)] == r0.push(trim(piece@)));
                assert(all.map_values(|p: Seq<char>| trim(p)) == strs(r@));
            }
            break;
        }
        proof {
            let rest = pieces_from(line@, ',', p + 1);
            assert(pieces_from(line@, ',', i as int) == seq![piece@] + rest);
            assert((seq![piece@] + rest).map_values(|p: Seq<char>| trim(p)) == seq![trim(piece@)]
                + rest.map_values(|p: Seq<char>| trim(p)));
            assert(r0 + (seq![trim(piece@)] + rest.map_values(|p: Seq<char>| trim(p))) == r0.push(trim(piece@))
                + rest.map_values(|p: Seq<char>| trim(p)));
        }
        i = p + 1;
    }
    r
}

/// Whether every character of `cs` is whitespace.
fn blank(cs: &[char]) -> (r: bool)
    ensures
        r == all_ws(cs@),
{
    let mut i: usize = 0;
    while i < cs.len()
        invariant
            0 <= i <= cs@.len(),
            forall|j: int| 0 <= j < i ==> is_ws(#[trigger] cs@[j]),
        decreases cs@.len() - i,
    {
        if !is_whitespace(cs[i]) {
            return false;
        }
        i = i + 1;
    }
    true
}

/// Reads CSV text: the first line names the columns, each other line that is
/// not blank is a row; cells are split at commas and trimmed.
pub fn parse_csv(content: &str) -> (r: Result<DataFrame, ToolError>)
    ensures
        lines_from(content@, 0).len() == 0 ==> (r matches Err(e) && e.0@ == "CSV file is empty"@),
        lines_from(content@, 0).len() > 0 ==> (r matches Ok(d) && strs(d.columns@) == csv_cells(
            lines_from(content@, 0)[0],
        ) && row_cells(d.rows@) == csv_rows(lines_from(content@, 0).drop_first())),
{
    let cs = chars_of(content);
    let lines = lines_of(cs.as_slice());
    let ghost lv = lines@.map_values(|l: Vec<char>| l@);
    if lines.len() == 0 {
        return Err(ToolError(owned("CSV file is empty")));
    }
    let columns = cells_of_line(lines[0].as_slice());
    let mut rows: Vec<Vec<String>> = Vec::new();
    let mut k: usize = lines.len();
    // The rows of lines[k..] are built from the last line back.
    let ghost mut built: Seq<Seq<Seq<char>>> = Seq::empty();
    while k > 1
        invariant
            1 <= k <= lines@.len(),
            lv == lines@.map_values(|l: Vec<char>| l@),
            row_cells(rows@).reverse() == csv_rows(lv.subrange(k as int, lv.len() as int)),
        decreases k,
    {
        k = k - 1;
        let ghost sub = lv.subrange(k as int, lv.len() as int);
        proof {
            assert(sub.drop_first() == lv.subrange(k + 1, lv.len() as int));
            assert(sub[0] == lines@[k as int]@);
        }
        if !blank(lines[k].as_slice()) {
            let ghost before = row_cells(rows@);
            let cells = cells_of_line(lines[k].as_slice());
            rows.push(cells);
            proof {
                assert(row_cells(rows@) == before.push(strs(cells@)));
                assert(before.push(strs(cells@)).reverse() == seq![strs(cells@)] + before.reverse());
            }
        }
    }
    proof {
        assert(lv.subrange(1, lv.len() as int) == lv.drop_first());
    }
    let mut ordered: Vec<Vec<String>> = Vec::new();
    let ghost all = row_cells(rows@);
    while rows.len() > 0
        invariant
            all.reverse() == row_cells(ordered@) + row_cells(rows@).reverse(),
        decreases rows@.len(),
    {
        let ghost before = row_cells(rows@);
        let ghost done = row_cells(ordered@);
        let last = rows.pop().unwrap();
        ordered.push(last);
        proof {
            assert(before == row_cells(rows@).push(strs(last@)));
            assert(before.reverse() == seq![strs(last@)] + row_cells(rows@).reverse());
            assert(row_cells(ordered@) == done.push(strs(last@)));
            assert(done + (seq![strs(last@)] + row_cells(rows@).reverse()) == done.push(strs(last@))
                + row_cells(rows@).reverse());
        }
    }
    proof {
        assert(row_cells(rows@).reverse() == Seq::<Seq<Seq<char>>>::empty());
        assert(row_cells(ordered@) + Seq::<Seq<Seq<char>>>::empty() == row_cells(ordered@));
    }
    Ok(DataFrame { columns, rows: ordered })
}

/// CSV text of a table: the columns, then each row, joined by commas, each
/// line ending in a newline.
pub open spec fn csv_text(columns: Seq<Seq<char>>, rows: Seq<Seq<Seq<char>>>) -> Seq<char>
    decreases rows.len(),
{
    if rows.len() == 0 {
        join(columns, ","@) + "\n"@
    } else {
        csv_text(columns, rows.drop_last()) + join(rows.last(), ","@) + "\n"@
    }
}

/// The table as CSV text, as `csv_text` says.
pub fn write_csv_text(data: &DataFrame) -> (r: String)
    ensures
        r@ == csv_text(strs(data.columns@), row_cells(data.rows@)),
{
    let mut out = String::new();
    push_join(&mut out, data.columns.as_slice(), ",");
    push_str(&mut out, "\n");
    let mut i: usize = 0;
    while i < data.rows.len()
        invariant
            0 <= i <= data.rows@.len(),
            out@ == csv_text(strs(data.columns@), row_cells(data.rows@.take(i as int))),
        decreases data.rows@.len() - i,
    {
        proof {
            assert(row_cells(data.rows@.take(i + 1)).drop_last() == row_cells(data.rows@.take(i as int)));
            assert(row_cells(data.rows@.take(i + 1)).last() == strs(data.rows@[i as int]@));
        }
        push_join(&mut out, data.rows[i].as_slice(), ",");
        push_str(&mut out, "\n");
        i = i + 1;
    }
    proof {
        assert(data.rows@.take(i as int) == data.rows@);
    }
    out
}

// ---------------------------------------------------------------------------
// Tables from records, with the columns in order
// ---------------------------------------------------------------------------

/// The texts of `s` are in strictly ascending order.
pub open spec fn ascending_texts(s: Seq<Seq<char>>) -> bool {
    forall|i: int, j: int| 0 <= i < j < s.len() ==> text_lt(#[trigger] s[i], #[trigger] s[j])
}

/// Puts `key` at its place in the ascending `cols`, unless it is there.
fn insert_sorted(cols: &mut Vec<String>, key: &str)
    requires
        ascending_texts(strs(old(cols)@)),
    ensures
        ascending_texts(strs(final(cols)@)),
        forall|x: Seq<char>| strs(final(cols)@).contains(x) <==> (strs(old(cols)@).contains(x) || x == key@),
{
    let ghost before = strs(cols@);
    let mut p: usize = 0;
    while p < cols.len()
        invariant
            0 <= p <= cols@.len(),
            strs(cols@) == before,
            forall|q: int| 0 <= q < p ==> text_lt(#[trigger] before[q], key@),
        ensures
            0 <= p <= cols@.len(),
            strs(cols@) == before,
            forall|q: int| 0 <= q < p ==> text_lt(#[trigger] before[q], key@),
            p < cols@.len() ==> !text_lt(before[p as int], key@),
        decreases cols@.len() - p,
    {
        proof {
            assert(before[p as int] == cols@[p as int]@);
        }
        if !text_less(cols[p].as_str(), key) {
            break;
        }
        p = p + 1;
    }
    if p < cols.len() && str_eq(cols[p].as_str(), key) {
        proof {
            assert(before[p as int] == key@);
            assert(before.contains(key@));
        }
        return;
    }
    proof {
        if p < before.len() {
            assert(before[p as int] == cols@[p as int]@);
            assert(before[p as int] != key@);
            assert(before[p as int].take(0) =~= key@.take(0));
            lemma_text_lt_total(before[p as int], key@, 0);
            assert(text_lt(key@, before[p as int]));
            assert forall|j: int| p <= j < before.len() implies text_lt(key@, #[trigger] before[j]) by {
                if j > p {
                    lemma_text_lt_transitive(key@, before[p as int], before[j], 0);
                }
            }
        }
    }
    cols.insert(p, owned(key));
    proof {
        let after = strs(cols@);
        assert(after =~= before.insert(p as int, key@));
        assert forall|i: int, j: int| 0 <= i < j < after.len() implies text_lt(#[trigger] after[i], #[trigger] after[j]) by {
            if j < p {
            } else if j == p {
                assert(after[i] == before[i]);
            } else if i < p {
                assert(after[j] == before[j - 1]);
                assert(text_lt(key@, before[j - 1]));
                lemma_text_lt_transitive(before[i], key@, before[j - 1], 0);
            } else if i == p {
                assert(after[j] == before[j - 1]);
            } else {
                assert(after[i] == before[i - 1] && after[j] == before[j - 1]);
            }
        }
        assert forall|x: Seq<char>| after.contains(x) <==> (before.contains(x) || x == key@) by {
            if after.contains(x) {
                let k = choose|k: int| 0 <= k < after.len() && after[k] == x;
                if k < p {
                    assert(before[k] == x);
                } else if k > p {
                    assert(before[k - 1] == x);
                }
            }
            if before.contains(x) {
                let k = choose|k: int| 0 <= k < before.len() && before[k] == x;
                if k < p {
                    assert(after[k] == x);
                } else {
                    assert(after[k + 1] == x);
                }
            }
            if x == key@ {
                assert(after[p as int] == x);
            }
        }
    }
}

/// The table of a list of records with its columns in ascending order: the
/// columns are the keys of the records, each once; each record gives a row
/// of the values of the columns, empty where it has none.
pub fn sorted_grid_from_records(records: &Vec<Vec<RecordEntry>>) -> (r: (Vec<String>, Vec<Vec<String>>))
    ensures
        ascending_texts(strs(r.0@)),
        forall|x: Seq<char>| strs(r.0@).contains(x) <==> all_keys(records_view(records@)).contains(x),
        r.1@.len() == records@.len(),
        forall|k: int| 0 <= k < records@.len() ==> strs(#[trigger] r.1@[k]@) == strs(r.0@).map_values(
            |c: Seq<char>| value_of(records_view(records@)[k], c),
        ),
{
    let ghost rv = records_view(records@);
    let mut columns: Vec<String> = Vec::new();
    let mut i: usize = 0;
    while i < records.len()
        invariant
            0 <= i <= records@.len(),
            rv == records_view(records@),
            ascending_texts(strs(columns@)),
            forall|x: Seq<char>| strs(columns@).contains(x) <==> all_keys(rv.take(i as int)).contains(x),
        decreases records@.len() - i,
    {
        let rec = &records[i];
        let ghost before = all_keys(rv.take(i as int));
        proof {
            assert(rv[i as int] == rec@.map_values(|e: RecordEntry| entry_view(e)));
        }
        let mut j: usize = 0;
        while j < rec.len()
            invariant
                0 <= j <= rec@.len(),
                rv[i as int] == rec@.map_values(|e: RecordEntry| entry_view(e)),
                ascending_texts(strs(columns@)),
                forall|x: Seq<char>| strs(columns@).contains(x) <==> (before + keys_of(rv[i as int]).take(j as int)).contains(x),
            decreases rec@.len() - j,
        {
            let ghost s0 = before + keys_of(rv[i as int]).take(j as int);
            proof {
                assert(keys_of(rv[i as int])[j as int] == rec@[j as int].0@);
                assert(before + keys_of(rv[i as int]).take(j + 1) =~= s0.push(rec@[j as int].0@));
            }
            insert_sorted(&mut columns, rec[j].0.as_str());
            proof {
                let s1 = s0.push(rec@[j as int].0@);
                assert forall|x: Seq<char>| s1.contains(x) <==> (s0.contains(x) || x == rec@[j as int].0@) by {
                    if s1.contains(x) {
                        let k = choose|k: int| 0 <= k < s1.len() && s1[k] == x;
                        if k < s0.len() {
                            assert(s0[k] == x);
                        }
                    }
                    if s0.contains(x) {
                        let k = choose|k: int| 0 <= k < s0.len() && s0[k] == x;
                        assert(s1[k] == x);
                    }
                    if x == rec@[j as int].0@ {
                        assert(s1[s0.len() as int] == x);
                    }
                }
            }
            j = j + 1;
        }
        proof {
            assert(keys_of(rv[i as int]).take(j as int) == keys_of(rv[i as int]));
            assert(rv.take(i + 1).drop_last() == rv.take(i as int));
            assert(rv.take(i + 1).last() == rv[i as int]);
        }
        i = i + 1;
    }
    proof {
        assert(rv.take(i as int) == rv);
    }
    let rows = fill_rows(records, &columns);
    (columns, rows)
}

// ---------------------------------------------------------------------------
// Transforms, with the comparison and arithmetic of cells supplied by the
// caller
// ---------------------------------------------------------------------------

/// `o` is what `order` may give for texts `a` and `b`; `None` when they do
/// not compare.
pub open spec fn may_order<F: Fn(&str, &str) -> Option<Order>>(order: F, a: Seq<char>, b: Seq<char>, o: Option<Order>) -> bool {
    exists|x: &str, y: &str| x@ == a && y@ == b && #[trigger] order.ensures((x, y), o)
}

/// Whether a cell passes a filter, given how it compares with the value.
pub open spec fn dtool_keeps(op: FilterOp, cell: Seq<char>, value: Seq<char>, o: Option<Order>) -> bool {
    match op {
        FilterOp::Eq => cell == value,
        FilterOp::Ne => cell != value,
        FilterOp::Contains => has_infix(cell, value),
        FilterOp::Gt => o == Some(Order::Greater),
        FilterOp::Lt => o == Some(Order::Less),
        FilterOp::Ge => o == Some(Order::Greater) || o == Some(Order::Equal),
        FilterOp::Le => o == Some(Order::Less) || o == Some(Order::Equal),
    }
}

/// A row without a cell in the column fails; otherwise a call of `order`
/// may have given an order by which the cell passes exactly when `mark` is
/// set.
pub open spec fn dtool_mark_ok<F: Fn(&str, &str) -> Option<Order>>(
    order: F,
    op: FilterOp,
    row: Seq<String>,
    i: int,
    value: Seq<char>,
    mark: bool,
) -> bool {
    if 0 <= i < row.len() {
        exists|o: Option<Order>| #[trigger] may_order(order, row[i]@, value, o) && mark == dtool_keeps(op, row[i]@, value, o)
    } else {
        !mark
    }
}

/// The filter law: `=` keeps a cell equal to the value and `!=` one that
/// differs; `~` keeps a cell that contains the value. The comparisons go by
/// the order of the cell against the value: `>` keeps exactly on Greater, `<`
/// exactly on Less, `>=` on Greater or Equal, `<=` on Less or Equal, and none
/// of them keeps a cell that has no order with the value.
pub proof fn lemma_dtool_filter_ops(cell: Seq<char>, value: Seq<char>)
    ensures
        dtool_keeps(FilterOp::Eq, cell, value, None) <==> cell == value,
        dtool_keeps(FilterOp::Ne, cell, value, None) <==> cell != value,
        dtool_keeps(FilterOp::Contains, cell, value, None) <==> has_infix(cell, value),
        dtool_keeps(FilterOp::Gt, cell, value, Some(Order::Greater)),
        !dtool_keeps(FilterOp::Gt, cell, value, Some(Order::Equal)),
        !dtool_keeps(FilterOp::Gt, cell, value, Some(Order::Less)),
        !dtool_keeps(FilterOp::Gt, cell, value, None),
        dtool_keeps(FilterOp::Lt, cell, value, Some(Order::Less)),
        !dtool_keeps(FilterOp::Lt, cell, value, Some(Order::Equal)),
        !dtool_keeps(FilterOp::Lt, cell, value, Some(Order::Greater)),
        !dtool_keeps(FilterOp::Lt, cell, value, None),
        dtool_keeps(FilterOp::Ge, cell, value, Some(Order::Greater)),
        dtool_keeps(FilterOp::Ge, cell, value, Some(Order::Equal)),
        !dtool_keeps(FilterOp::Ge, cell, value, Some(Order::Less)),
        !dtool_keeps(FilterOp::Ge, cell, value, None),
        dtool_keeps(FilterOp::Le, cell, value, Some(Order::Less)),
        dtool_keeps(FilterOp::Le, cell, value, Some(Order::Equal)),
        !dtool_keeps(FilterOp::Le, cell, value, Some(Order::Greater)),
        !dtool_keeps(FilterOp::Le, cell, value, None),
{
}

fn dtool_keep(op: FilterOp, cell: &str, value: &str, o: Option<Order>) -> (r: bool)
    ensures
        r == dtool_keeps(op, cell@, value@, o),
{
    match op {
        FilterOp::Eq => str_eq(cell, value),
        FilterOp::Ne => !str_eq(cell, value),
        FilterOp::Contains => {
            let c = chars_of(cell);
            let v = chars_of(value);
            contains_run(c.as_slice(), v.as_slice())
        },
        FilterOp::Gt => o == Some(Order::Greater),
        FilterOp::Lt => o == Some(Order::Less),
        FilterOp::Ge => o == Some(Order::Greater) || o == Some(Order::Equal),
        FilterOp::Le => o == Some(Order::Less) || o == Some(Order::Equal),
    }
}

impl FilterTransform {
    /// Keeps the rows whose cell in the column passes the filter; `order`
    /// says how a cell compares with the value.
    pub fn apply<F: Fn(&str, &str) -> Option<Order>>(&self, data: DataFrame, order: F) -> (r: Result<DataFrame, ToolError>)
        requires
            forall|x: &str, y: &str| #[trigger] order.requires((x, y)),
        ensures
            match column_position(data.columns@, self.column@) {
                None => r matches Err(e) && e.0@ == "Filter: column '"@ + self.column@ + "' not found"@,
                Some(i) => r matches Ok(d) && d.columns == data.columns && exists|marks: Seq<bool>| {
                    &&& marks.len() == data.rows@.len()
                    &&& d.rows@ == kept(data.rows@, marks, marks.len() as int)
                    &&& forall|k: int| 0 <= k < marks.len() ==> dtool_mark_ok(
                        order,
                        self.op,
                        data.rows@[k]@,
                        i,
                        self.value@,
                        #[trigger] marks[k],
                    )
                },
            },
    {
        let i = match data.column_index(self.column.as_str()) {
            Some(i) => i,
            None => {
                let mut m = String::new();
                push_str(&mut m, "Filter: column '");
                push_str(&mut m, self.column.as_str());
                push_str(&mut m, "' not found");
                return Err(ToolError(m));
            },
        };
        let mut marks: Vec<bool> = Vec::new();
        let mut k: usize = 0;
        while k < data.rows.len()
            invariant
                forall|x: &str, y: &str| #[trigger] order.requires((x, y)),
                0 <= k <= data.rows@.len(),
                marks@.len() == k,
                forall|q: int| 0 <= q < k ==> dtool_mark_ok(order, self.op, data.rows@[q]@, i as int, self.value@, #[trigger] marks@[q]),
            decreases data.rows@.len() - k,
        {
            let row = &data.rows[k];
            if i < row.len() {
                let o = order(row[i].as_str(), self.value.as_str());
                proof {
                    assert(may_order(order, row@[i as int]@, self.value@, o));
                }
                marks.push(dtool_keep(self.op, row[i].as_str(), self.value.as_str(), o));
            } else {
                marks.push(false);
            }
            k = k + 1;
        }
        let DataFrame { columns, rows } = data;
        let ghost r0 = rows@;
        let kept_rows = retain_marked(rows, &marks);
        proof {
            let ms = marks@;
            assert(ms.len() == r0.len());
            assert(forall|q: int| 0 <= q < ms.len() ==> dtool_mark_ok(order, self.op, r0[q]@, i as int, self.value@, #[trigger] ms[q]));
        }
        Ok(DataFrame { columns, rows: kept_rows })
    }
}

impl SortTransform {
    /// Puts the rows in order by the column, as `sort_rows_by` does
    /// (descending when asked); `order` says how two cells compare.
    pub fn apply<F: Fn(&str, &str) -> Order>(&self, data: DataFrame, order: F) -> (r: Result<DataFrame, ToolError>)
        requires
            forall|x: &str, y: &str| #[trigger] order.requires((x, y)),
        ensures
            match column_position(data.columns@, self.column@) {
                None => r matches Err(e) && e.0@ == "Sort: column '"@ + self.column@ + "' not found"@,
                Some(i) => r matches Ok(d) && d.columns == data.columns && d.rows@.to_multiset() == data.rows@.to_multiset()
                    && d.rows@.len() == data.rows@.len() && forall|j: int| 1 <= j < d.rows@.len() ==> placed_after(
                    order,
                    cell_or_empty(d.rows@[j - 1]@, i),
                    cell_or_empty((#[trigger] d.rows@[j])@, i),
                    self.descending,
                ),
            },
    {
        let i = match data.column_index(self.column.as_str()) {
            Some(i) => i,
            None => {
                let mut m = String::new();
                push_str(&mut m, "Sort: column '");
                push_str(&mut m, self.column.as_str());
                push_str(&mut m, "' not found");
                return Err(ToolError(m));
            },
        };
        let DataFrame { columns, rows } = data;
        let sorted = sort_rows_by(rows, i, self.descending, order);
        Ok(DataFrame { columns, rows: sorted })
    }
}

/// `v` is what `arith` may give for two cells and an operator.
pub open spec fn arith_gives<F: Fn(&str, char, &str) -> String>(arith: F, a: Seq<char>, op: char, b: Seq<char>, v: Seq<char>) -> bool {
    exists|x: &str, y: &str, s: String| x@ == a && y@ == b && s@ == v && #[trigger] arith.ensures((x, op, y), s)
}

/// The operands of a computed column and, for arithmetic, its operator.
pub open spec fn expr_parts(e: ComputedExpr) -> (Seq<char>, Option<char>, Seq<char>) {
    match e {
        ComputedExpr::Add(a, b) => (a@, Some('+'), b@),
        ComputedExpr::Sub(a, b) => (a@, Some('-'), b@),
        ComputedExpr::Mul(a, b) => (a@, Some('*'), b@),
        ComputedExpr::Concat(a, b) => (a@, None, b@),
    }
}

/// The cell of column `name` in `row`: empty when the row is shorter.
pub open spec fn named_cell(columns: Seq<String>, row: Seq<String>, name: Seq<char>) -> Seq<char> {
    cell_or_empty(row, column_position(columns, name)->Some_0)
}

impl ComputedColumnTransform {
    /// Adds the computed column. The cells of `&` are the two cells joined;
    /// those of `+`, `-` and `*` are what `arith` gives for the two cells and
    /// the operator. With rows to compute, an operand that names no column
    /// is an error, the left one first.
    pub fn apply<F: Fn(&str, char, &str) -> String>(&self, data: DataFrame, arith: F) -> (r: Result<DataFrame, ToolError>)
        requires
            forall|x: &str, c: char, y: &str| #[trigger] arith.requires((x, c, y)),
        ensures
            ({
                let (a, op, b) = expr_parts(self.expression);
                if data.rows@.len() > 0 && column_position(data.columns@, a) is None {
                    r matches Err(e) && e.0@ == "Computed: column '"@ + a + "' not found"@
                } else if data.rows@.len() > 0 && column_position(data.columns@, b) is None {
                    r matches Err(e) && e.0@ == "Computed: column '"@ + b + "' not found"@
                } else {
                    r matches Ok(d) && d.columns@ == data.columns@.push(self.new_column) && d.rows@.len() == data.rows@.len()
                        && forall|k: int| 0 <= k < data.rows@.len() ==> {
                        let row = data.rows@[k]@;
                        let v = (#[trigger] d.rows@[k])@.last()@;
                        &&& d.rows@[k]@.len() == row.len() + 1
                        &&& d.rows@[k]@.take(row.len() as int) == row
                        &&& match op {
                            None => v == named_cell(data.columns@, row, a) + named_cell(data.columns@, row, b),
                            Some(c) => arith_gives(arith, named_cell(data.columns@, row, a), c, named_cell(data.columns@, row, b), v),
                        }
                    }
                }
            }),
    {
        let (left, op, right) = match &self.expression {
            ComputedExpr::Add(a, b) => (a, Some('+'), b),
            ComputedExpr::Sub(a, b) => (a, Some('-'), b),
            ComputedExpr::Mul(a, b) => (a, Some('*'), b),
            ComputedExpr::Concat(a, b) => (a, None, b),
        };
        let li = data.column_index(left.as_str());
        let ri = data.column_index(right.as_str());
        if data.rows.len() > 0 {
            if li.is_none() {
                let mut m = String::new();
                push_str(&mut m, "Computed: column '");
                push_str(&mut m, left.as_str());
                push_str(&mut m, "' not found");
                return Err(ToolError(m));
            }
            if ri.is_none() {
                let mut m = String::new();
                push_str(&mut m, "Computed: column '");
                push_str(&mut m, right.as_str());
                push_str(&mut m, "' not found");
                return Err(ToolError(m));
            }
        }
        let DataFrame { columns, rows } = data;
        let ghost r0 = rows@;
        let ghost c0 = columns@;
        let mut out: Vec<Vec<String>> = Vec::new();
        let mut back: Vec<Vec<String>> = Vec::new();
        let mut rest = rows;
        let n = rest.len();
        while rest.len() > 0
            invariant
                rest@ == r0.take(rest@.len() as int),
                rest@.len() + back@.len() == r0.len(),
                forall|q: int| 0 <= q < back@.len() ==> back@[q] == r0[r0.len() - 1 - q],
            decreases rest@.len(),
        {
            let row = rest.pop().unwrap();
            back.push(row);
        }
        let mut k: usize = 0;
        while back.len() > 0
            invariant
                k + back@.len() == r0.len(),
                r0.len() == n,
                forall|x: &str, c: char, y: &str| #[trigger] arith.requires((x, c, y)),
                forall|q: int| 0 <= q < back@.len() ==> back@[q] == r0[r0.len() - 1 - q],
                n > 0 ==> li is Some && ri is Some,
                li matches Some(j) ==> column_position(c0, left@) == Some(j as int),
                ri matches Some(j) ==> column_position(c0, right@) == Some(j as int),
                out@.len() == k,
                forall|q: int| 0 <= q < k ==> {
                    let row = r0[q]@;
                    let v = (#[trigger] out@[q])@.last()@;
                    &&& out@[q]@.len() == row.len() + 1
                    &&& out@[q]@.take(row.len() as int) == row
                    &&& match op {
                        None => v == named_cell(c0, row, left@) + named_cell(c0, row, right@),
                        Some(c) => arith_gives(arith, named_cell(c0, row, left@), c, named_cell(c0, row, right@), v),
                    }
                },
            decreases back@.len(),
        {
            let mut row = back.pop().unwrap();
            let ghost rv = row@;
            assert(row == r0[k as int]);
            let lj = match li {
                Some(j) => j,
                None => 0,
            };
            let rj = match ri {
                Some(j) => j,
                None => 0,
            };
            let a = cell_text(&row, lj);
            let b = cell_text(&row, rj);
            let v = match op {
                None => {
                    let mut s = String::new();
                    push_str(&mut s, a);
                    push_str(&mut s, b);
                    s
                },
                Some(c) => {
                    let s = arith(a, c, b);
                    proof {
                        assert(arith_gives(arith, a@, c, b@, s@));
                    }
                    s
                },
            };
            row.push(v);
            proof {
                assert(row@.take(rv.len() as int) =~= rv);
            }
            out.push(row);
            k = k + 1;
        }
        let mut cols = columns;
        cols.push(self.new_column.clone());
        proof {
            assert(cols@ == c0.push(self.new_column));
        }
        Ok(DataFrame { columns: cols, rows: out })
    }
}

} // verus!
