//! A data-file processor whose rows map column names to values. This module
//! holds the table, format detection, the parsing of transform specifications
//! and of the command line, and renaming of columns.
use vstd::prelude::*;
use crate::fields::Fields;
use crate::text::{
    chars_of, find_sub, trim, trimmed, split_first, str_eq, owned, push_str, ascii_lower, to_ascii_lowercase,
    slice_chars, first_index, find_char, has_prefix, join, push_join, strs,
};
use crate::dtool::{extension_of, path_extension, split_trimmed, split_once_trimmed, opt_view};
use crate::table_ops::Order;
use crate::rows::{kept, placed_after, retain_marked, sort_keyed};

verus! {

/// An error with a message for the user.
#[derive(Debug)]
pub struct ToolError(pub String);

impl ToolError {
    pub fn to_string(&self) -> (r: String)
        ensures
            r@ == self.0@,
    {
        self.0.clone()
    }
}

/// The in-memory dataset: ordered column names and rows mapping names to cells.
#[derive(Debug)]
pub struct DataFrame {
    pub columns: Vec<String>,
    pub rows: Vec<Fields>,
}

impl DataFrame {
    pub fn new(columns: Vec<String>, rows: Vec<Fields>) -> (r: Self)
        ensures
            r.columns == columns,
            r.rows == rows,
    {
        DataFrame { columns, rows }
    }
}

/// The file formats.
#[derive(Debug, Clone, Copy, PartialEq, Eq, Structural)]
pub enum Format {
    Csv,
    Json,
    Yaml,
}

pub open spec fn format_named(e: Seq<char>) -> Option<Format> {
    if e == "csv"@ {
        Some(Format::Csv)
    } else if e == "json"@ {
        Some(Format::Json)
    } else if e == "yaml"@ || e == "yml"@ {
        Some(Format::Yaml)
    } else {
        None
    }
}

impl Format {
    /// The format of a file from its extension in ASCII lower case.
    pub fn from_path(path: &str) -> (r: Result<Format, ToolError>)
        ensures
            extension_of(path@) is None ==> (r matches Err(e)
                && e.0@ == "Cannot determine format \u{2014} file has no extension"@),
            extension_of(path@) matches Some(x) ==> match format_named(ascii_lower(x)) {
                Some(f) => r == Ok::<Format, ToolError>(f),
                None => r matches Err(e) && e.0@ == "Unsupported file extension: ."@ + ascii_lower(x),
            },
    {
        match path_extension(path) {
            None => Err(ToolError(owned("Cannot determine format \u{2014} file has no extension"))),
            Some(x) => {
                let e = to_ascii_lowercase(x.as_str());
                if str_eq(e.as_str(), "csv") {
                    Ok(Format::Csv)
                } else if str_eq(e.as_str(), "json") {
                    Ok(Format::Json)
                } else if str_eq(e.as_str(), "yaml") || str_eq(e.as_str(), "yml") {
                    Ok(Format::Yaml)
                } else {
                    let mut m = String::new();
                    push_str(&mut m, "Unsupported file extension: .");
                    push_str(&mut m, e.as_str());
                    Err(ToolError(m))
                }
            },
        }
    }

    /// The name shown for the format.
    pub fn to_string(&self) -> (r: String)
        ensures
            r@ == match *self {
                Format::Csv => "CSV"@,
                Format::Json => "JSON"@,
                Format::Yaml => "YAML"@,
            },
    {
        match self {
            Format::Csv => owned("CSV"),
            Format::Json => owned("JSON"),
            Format::Yaml => owned("YAML"),
        }
    }
}

/// Comparison operators of filter expressions.
#[derive(Debug, Clone, Copy, PartialEq, Eq, Structural)]
pub enum FilterOp {
    Gt,
    Lt,
    Ge,
    Le,
    Eq,
    Ne,
}

/// The operator tokens, two-character ones first.
pub open spec fn op_tokens() -> Seq<(Seq<char>, FilterOp)> {
    seq![(">="@, FilterOp::Ge), ("<="@, FilterOp::Le), ("!="@, FilterOp::Ne), ("=="@, FilterOp::Eq), (">"@, FilterOp::Gt), ("<"@, FilterOp::Lt)]
}

/// The first token, in the order of `op_tokens`, that occurs in `e`.
pub open spec fn first_token(e: Seq<char>, k: int) -> Option<int>
    decreases 6 - k,
{
    if k < 0 || k >= 6 {
        None
    } else if find_sub(e, op_tokens()[k].0) is Some {
        Some(k)
    } else {
        first_token(e, k + 1)
    }
}

fn token_text(k: usize) -> (r: &'static str)
    requires
        k < 6,
    ensures
        r@ == op_tokens()[k as int].0,
{
    if k == 0 { ">=" }
    else if k == 1 { "<=" }
    else if k == 2 { "!=" }
    else if k == 3 { "==" }
    else if k == 4 { ">" }
    else { "<" }
}

fn token_op(k: usize) -> (r: FilterOp)
    requires
        k < 6,
    ensures
        r == op_tokens()[k as int].1,
{
    if k == 0 { FilterOp::Ge }
    else if k == 1 { FilterOp::Le }
    else if k == 2 { FilterOp::Ne }
    else if k == 3 { FilterOp::Eq }
    else if k == 4 { FilterOp::Gt }
    else { FilterOp::Lt }
}

/// A filter: keep the rows whose cell in `column` compares to `value` by `op`.
#[derive(Debug, Clone)]
pub struct FilterTransform {
    pub column: String,
    pub op: FilterOp,
    pub value: String,
}

/// What parsing a filter expression gives.
pub open spec fn filter_parse(expr: Seq<char>, r: Result<FilterTransform, ToolError>) -> bool {
    match first_token(expr, 0) {
        None => r matches Err(e) && e.0@ == "Cannot parse filter expression '"@ + expr
            + "'. Expected format: column>value, column==value, etc."@,
        Some(k) => {
            let tok = op_tokens()[k].0;
            let p = find_sub(expr, tok)->Some_0;
            let column = trim(expr.take(p));
            let value = trim(expr.skip(p + tok.len()));
            if column.len() == 0 || value.len() == 0 {
                r matches Err(e) && e.0@ == "Invalid filter expression (empty column or value): '"@ + expr + "'"@
            } else {
                r matches Ok(f) && f.column@ == column && f.op == op_tokens()[k].1 && f.value@ == value
            }
        },
    }
}

/// The text of an operator.
pub open spec fn op_text(op: FilterOp) -> Seq<char> {
    match op {
        FilterOp::Gt => ">"@,
        FilterOp::Lt => "<"@,
        FilterOp::Ge => ">="@,
        FilterOp::Le => "<="@,
        FilterOp::Eq => "=="@,
        FilterOp::Ne => "!="@,
    }
}

impl FilterTransform {
    /// Parses an expression like `age>30`, `name==Alice`, `score<=100`.
    pub fn parse(expr: &str) -> (r: Result<Self, ToolError>)
        ensures
            filter_parse(expr@, r),
    {
        let cs = chars_of(expr);
        let mut k: usize = 0;
        while k < 6
            invariant
                cs@ == expr@,
                0 <= k <= 6,
                first_token(expr@, 0) == first_token(expr@, k as int),
            decreases 6 - k,
        {
            let tok = chars_of(token_text(k));
            match crate::text::find_sub_chars(cs.as_slice(), tok.as_slice()) {
                Some(p) => {
                    let n = cs.len();
                    let tl = tok.len();
                    let before = slice_chars(cs.as_slice(), 0, p);
                    let after = slice_chars(cs.as_slice(), p + tl, n);
                    let column = trimmed(before.as_slice());
                    let value = trimmed(after.as_slice());
                    proof {
                        assert(cs@.subrange(0, p as int) == expr@.take(p as int));
                        assert(cs@.subrange(p + tok@.len(), cs@.len() as int) == expr@.skip(p + tok@.len()));
                    }
                    if column.as_str().is_empty() || value.as_str().is_empty() {
                        let mut m = String::new();
                        push_str(&mut m, "Invalid filter expression (empty column or value): '");
                        push_str(&mut m, expr);
                        push_str(&mut m, "'");
                        return Err(ToolError(m));
                    }
                    return Ok(FilterTransform { column, op: token_op(k), value });
                },
                None => {},
            }
            k = k + 1;
        }
        let mut m = String::new();
        push_str(&mut m, "Cannot parse filter expression '");
        push_str(&mut m, expr);
        push_str(&mut m, "'. Expected format: column>value, column==value, etc.");
        Err(ToolError(m))
    }

    /// `filter(<column><op><value>)`.
    pub fn to_string(&self) -> (r: String)
        ensures
            r@ == "filter("@ + self.column@ + op_text(self.op) + self.value@ + ")"@,
    {
        let mut s = String::new();
        push_str(&mut s, "filter(");
        push_str(&mut s, self.column.as_str());
        push_str(&mut s, match self.op {
            FilterOp::Gt => ">",
            FilterOp::Lt => "<",
            FilterOp::Ge => ">=",
            FilterOp::Le => "<=",
            FilterOp::Eq => "==",
            FilterOp::Ne => "!=",
        });
        push_str(&mut s, self.value.as_str());
        push_str(&mut s, ")");
        s
    }
}

/// Sorts the rows by a column.
#[derive(Debug, Clone)]
pub struct SortTransform {
    pub column: String,
}

impl SortTransform {
    /// `sort(<column>)`.
    pub fn to_string(&self) -> (r: String)
        ensures
            r@ == "sort("@ + self.column@ + ")"@,
    {
        let mut s = String::new();
        push_str(&mut s, "sort(");
        push_str(&mut s, self.column.as_str());
        push_str(&mut s, ")");
        s
    }
}

/// `spec` split at its first `sep`, both parts non-empty before trimming; the
/// parts are then trimmed.
pub open spec fn split_spec(spec: Seq<char>, sep: char) -> Option<(Seq<char>, Seq<char>)> {
    match split_first(spec, seq![sep]) {
        Some((a, b)) => if a.len() == 0 || b.len() == 0 {
            None
        } else {
            Some((trim(a), trim(b)))
        },
        None => None,
    }
}

/// Splits at the first `sep` when both sides are non-empty, then trims them.
fn split_nonempty(s: &str, sep: char) -> (r: Option<(String, String)>)
    ensures
        r matches Some((a, b)) ==> split_spec(s@, sep) == Some((a@, b@)),
        r is None ==> split_spec(s@, sep) is None,
{
    let cs = chars_of(s);
    let mut sv: Vec<char> = Vec::new();
    sv.push(sep);
    proof {
        assert(sv@ == seq![sep]);
    }
    match crate::text::split_first_at(cs.as_slice(), sv.as_slice()) {
        Some((a, b)) => {
            if a.len() == 0 || b.len() == 0 {
                None
            } else {
                Some((trimmed(a.as_slice()), trimmed(b.as_slice())))
            }
        },
        None => None,
    }
}

/// Renames a column.
#[derive(Debug, Clone)]
pub struct RenameTransform {
    pub old_name: String,
    pub new_name: String,
}

/// The names, joined with `, `.
pub open spec fn joined(names: Seq<String>) -> Seq<char>
    decreases names.len(),
{
    if names.len() == 0 {
        Seq::empty()
    } else if names.len() == 1 {
        names[0]@
    } else {
        joined(names.drop_last()) + ", "@ + names.last()@
    }
}

fn push_joined(s: &mut String, names: &Vec<String>)
    ensures
        final(s)@ == old(s)@ + joined(names@),
{
    let ghost head = s@;
    let mut i: usize = 0;
    while i < names.len()
        invariant
            0 <= i <= names@.len(),
            s@ == head + joined(names@.take(i as int)),
        decreases names@.len() - i,
    {
        proof {
            assert(names@.take(i + 1).drop_last() == names@.take(i as int));
            if i == 0 {
                assert(names@.take(1)[0] == names@[0]);
            }
        }
        if i > 0 {
            push_str(s, ", ");
        }
        push_str(s, names[i].as_str());
        i = i + 1;
    }
    proof {
        assert(names@.take(i as int) == names@);
    }
}

/// Some column is named `name`.
pub open spec fn has_column(columns: Seq<String>, name: Seq<char>) -> bool {
    exists|i: int| 0 <= i < columns.len() && columns[i]@ == name
}

fn contains_name(columns: &Vec<String>, name: &str) -> (r: bool)
    ensures
        r == has_column(columns@, name@),
{
    let mut i: usize = 0;
    while i < columns.len()
        invariant
            0 <= i <= columns@.len(),
            forall|j: int| 0 <= j < i ==> columns@[j]@ != name@,
        decreases columns@.len() - i,
    {
        if str_eq(columns[i].as_str(), name) {
            return true;
        }
        i = i + 1;
    }
    false
}

impl RenameTransform {
    /// Parses `old_name:new_name`.
    pub fn parse(spec: &str) -> (r: Result<Self, ToolError>)
        ensures
            split_spec(spec@, ':') matches Some((a, b)) ==> (r matches Ok(t) && t.old_name@ == a && t.new_name@ == b),
            split_spec(spec@, ':') is None ==> (r matches Err(e) && e.0@ == "Invalid rename spec '"@ + spec@
                + "'. Expected format: old_name:new_name"@),
    {
        match split_nonempty(spec, ':') {
            Some((old_name, new_name)) => Ok(RenameTransform { old_name, new_name }),
            None => {
                let mut m = String::new();
                push_str(&mut m, "Invalid rename spec '");
                push_str(&mut m, spec);
                push_str(&mut m, "'. Expected format: old_name:new_name");
                Err(ToolError(m))
            },
        }
    }

    /// `rename(<old> -> <new>)`.
    pub fn to_string(&self) -> (r: String)
        ensures
            r@ == "rename("@ + self.old_name@ + " -> "@ + self.new_name@ + ")"@,
    {
        let mut s = String::new();
        push_str(&mut s, "rename(");
        push_str(&mut s, self.old_name.as_str());
        push_str(&mut s, " -> ");
        push_str(&mut s, self.new_name.as_str());
        push_str(&mut s, ")");
        s
    }

    /// Renames every column named `old_name` to `new_name`, and moves each
    /// row's value from the old name to the new. An error when no column has
    /// the old name, or one already has the new name.
    pub fn apply(&self, df: DataFrame) -> (r: Result<DataFrame, ToolError>)
        ensures
            !has_column(df.columns@, self.old_name@) ==> (r matches Err(e) && e.0@ == "Rename: column '"@
                + self.old_name@ + "' not found. Available columns: "@ + joined(df.columns@)),
            has_column(df.columns@, self.old_name@) && has_column(df.columns@, self.new_name@) ==> (r matches Err(e)
                && e.0@ == "Rename: target column '"@ + self.new_name@ + "' already exists"@),
            has_column(df.columns@, self.old_name@) && !has_column(df.columns@, self.new_name@) ==> (r matches Ok(d)
                && d.columns@.len() == df.columns@.len()
                && (forall|j: int| 0 <= j < d.columns@.len() ==> (#[trigger] d.columns@[j])@ == if df.columns@[j]@
                    == self.old_name@ {
                    self.new_name@
                } else {
                    df.columns@[j]@
                })
                && d.rows@.len() == df.rows@.len()
                && forall|i: int| 0 <= i < d.rows@.len() ==> (#[trigger] d.rows@[i]).map() == if df.rows@[i].map().dom().contains(self.old_name@) {
                    df.rows@[i].map().remove(self.old_name@).insert(self.new_name@, df.rows@[i].map()[self.old_name@])
                } else {
                    df.rows@[i].map()
                }),
    {
        if !contains_name(&df.columns, self.old_name.as_str()) {
            let mut m = String::new();
            push_str(&mut m, "Rename: column '");
            push_str(&mut m, self.old_name.as_str());
            push_str(&mut m, "' not found. Available columns: ");
            push_joined(&mut m, &df.columns);
            return Err(ToolError(m));
        }
        if contains_name(&df.columns, self.new_name.as_str()) {
            let mut m = String::new();
            push_str(&mut m, "Rename: target column '");
            push_str(&mut m, self.new_name.as_str());
            push_str(&mut m, "' already exists");
            return Err(ToolError(m));
        }
        let mut columns: Vec<String> = Vec::new();
        let mut j: usize = 0;
        while j < df.columns.len()
            invariant
                0 <= j <= df.columns@.len(),
                columns@.len() == j,
                forall|q: int| 0 <= q < j ==> (#[trigger] columns@[q])@ == if df.columns@[q]@ == self.old_name@ {
                    self.new_name@
                } else {
                    df.columns@[q]@
                },
            decreases df.columns@.len() - j,
        {
            if str_eq(df.columns[j].as_str(), self.old_name.as_str()) {
                columns.push(self.new_name.clone());
            } else {
                columns.push(df.columns[j].clone());
            }
            j = j + 1;
        }
        let mut rows: Vec<Fields> = Vec::new();
        let mut old_rows = df.rows;
        let ghost orig = old_rows@;
        let mut i: usize = 0;
        while i < old_rows.len()
            invariant
                old_rows@.len() == orig.len(),
                0 <= i <= orig.len(),
                rows@.len() == i,
                forall|q: int| i <= q < orig.len() ==> (#[trigger] old_rows@[q]).map() == orig[q].map(),
                forall|q: int| 0 <= q < i ==> (#[trigger] rows@[q]).map() == if orig[q].map().dom().contains(self.old_name@) {
                    orig[q].map().remove(self.old_name@).insert(self.new_name@, orig[q].map()[self.old_name@])
                } else {
                    orig[q].map()
                },
            decreases orig.len() - i,
        {
            let mut row = Fields::new();
            std::mem::swap(&mut row, &mut old_rows[i]);
            assert(row.map() == orig[i as int].map());
            match row.remove(self.old_name.as_str()) {
                Some(val) => {
                    row.insert(self.new_name.as_str(), val.as_str());
                },
                None => {
                    assert(row.map().remove(self.old_name@) == row.map());
                },
            }
            rows.push(row);
            i = i + 1;
        }
        Ok(DataFrame { columns, rows })
    }
}

/// The expression of a computed column.
#[derive(Debug, Clone)]
pub enum ComputedExpr {
    /// Several columns joined (or added, when all are numbers).
    Concat(Vec<String>),
    /// Two columns combined by `+`, `-`, `*` or `/`.
    Arithmetic { left: String, op: char, right: String },
    /// A constant.
    Literal(String),
}

/// Adds a column computed from others.
#[derive(Debug, Clone)]
pub struct AddColumnTransform {
    pub new_column: String,
    pub expression: ComputedExpr,
}

/// How many times `c` occurs in `s`.
pub open spec fn count_char(s: Seq<char>, c: char) -> nat
    decreases s.len(),
{
    if s.len() == 0 {
        0
    } else {
        count_char(s.drop_last(), c) + if s.last() == c { 1nat } else { 0nat }
    }
}

/// The position of the first `*` or `/`, or the length when there is none.
pub open spec fn first_mul_div(s: Seq<char>) -> int {
    let a = first_index(s, '*');
    let b = first_index(s, '/');
    if a <= b { a } else { b }
}

/// The pieces of `s` between the occurrences of `c`, each trimmed.
pub open spec fn split_all(s: Seq<char>, c: char) -> Seq<Seq<char>>
    decreases s.len(),
{
    if s.len() == 0 {
        seq![Seq::empty()]
    } else {
        let rest = split_all(s.drop_last(), c);
        if s.last() == c {
            rest.push(Seq::empty())
        } else {
            rest.update(rest.len() - 1, rest.last().push(s.last()))
        }
    }
}

pub proof fn lemma_split_all_len(s: Seq<char>, c: char)
    ensures
        split_all(s, c).len() >= 1,
    decreases s.len(),
{
    if s.len() > 0 {
        lemma_split_all_len(s.drop_last(), c);
    }
}

/// The expression that `e` (already trimmed) denotes, if any.
pub open spec fn parsed_expr(e: Seq<char>, r: ComputedExpr) -> bool {
    if e.len() > 0 && e[0] == '=' {
        r matches ComputedExpr::Literal(v) && v@ == e.skip(1)
    } else if first_mul_div(e) < e.len() {
        let i = first_mul_div(e);
        r matches ComputedExpr::Arithmetic { left, op, right } && left@ == trim(e.take(i)) && op == e[i]
            && right@ == trim(e.skip(i + 1))
    } else if count_char(e, '-') == 1 && !(e.len() > 0 && e[0] == '-') {
        let i = first_index(e, '-');
        r matches ComputedExpr::Arithmetic { left, op, right } && left@ == trim(e.take(i)) && op == '-'
            && right@ == trim(e.skip(i + 1))
    } else {
        count_char(e, '+') > 0 && (r matches ComputedExpr::Concat(v) && v@.len() == split_all(e, '+').len()
            && forall|k: int| 0 <= k < v@.len() ==> (#[trigger] v@[k])@ == trim(split_all(e, '+')[k]))
    }
}

/// `e` (already trimmed) is a computed-column expression.
pub open spec fn expr_ok(e: Seq<char>) -> bool {
    ||| e.len() > 0 && e[0] == '='
    ||| first_mul_div(e) < e.len()
    ||| count_char(e, '-') == 1 && !(e.len() > 0 && e[0] == '-')
    ||| count_char(e, '+') > 0
}

fn count_of(cs: &Vec<char>, c: char) -> (r: usize)
    ensures
        r == count_char(cs@, c),
{
    let mut n: usize = 0;
    let mut i: usize = 0;
    while i < cs.len()
        invariant
            0 <= i <= cs@.len(),
            n == count_char(cs@.take(i as int), c),
            n <= i,
        decreases cs@.len() - i,
    {
        proof {
            assert(cs@.take(i + 1).drop_last() == cs@.take(i as int));
        }
        if cs[i] == c {
            n = n + 1;
        }
        i = i + 1;
    }
    proof {
        assert(cs@.take(i as int) == cs@);
    }
    n
}

fn split_all_trimmed(cs: &Vec<char>, c: char) -> (r: Vec<String>)
    ensures
        r@.len() == split_all(cs@, c).len(),
        forall|k: int| 0 <= k < r@.len() ==> (#[trigger] r@[k])@ == trim(split_all(cs@, c)[k]),
{
    let mut pieces: Vec<Vec<char>> = Vec::new();
    let mut cur: Vec<char> = Vec::new();
    let mut i: usize = 0;
    proof {
        lemma_split_all_len(cs@.take(0), c);
        assert(cs@.take(0) == Seq::<char>::empty());
    }
    while i < cs.len()
        invariant
            0 <= i <= cs@.len(),
            pieces@.len() + 1 == split_all(cs@.take(i as int), c).len(),
            forall|k: int| 0 <= k < pieces@.len() ==> (#[trigger] pieces@[k])@ == split_all(cs@.take(i as int), c)[k],
            cur@ == split_all(cs@.take(i as int), c).last(),
        decreases cs@.len() - i,
    {
        proof {
            assert(cs@.take(i + 1).drop_last() == cs@.take(i as int));
            lemma_split_all_len(cs@.take(i as int), c);
        }
        if cs[i] == c {
            let mut fresh: Vec<char> = Vec::new();
            std::mem::swap(&mut fresh, &mut cur);
            pieces.push(fresh);
        } else {
            cur.push(cs[i]);
        }
        i = i + 1;
    }
    proof {
        assert(cs@.take(i as int) == cs@);
    }
    pieces.push(cur);
    let mut r: Vec<String> = Vec::new();
    let mut k: usize = 0;
    while k < pieces.len()
        invariant
            0 <= k <= pieces@.len(),
            pieces@.len() == split_all(cs@, c).len(),
            forall|q: int| 0 <= q < pieces@.len() ==> (#[trigger] pieces@[q])@ == split_all(cs@, c)[q],
            r@.len() == k,
            forall|q: int| 0 <= q < k ==> (#[trigger] r@[q])@ == trim(split_all(cs@, c)[q]),
        decreases pieces@.len() - k,
    {
        r.push(trimmed(pieces[k].as_slice()));
        k = k + 1;
    }
    r
}

impl AddColumnTransform {
    /// `add_column(<name> = concat(<a>, <b>))`, `add_column(<name> = <l><op><r> )`
    /// or `add_column(<name> = "<value>")`.
    pub fn to_string(&self) -> (r: String)
        ensures
            r@ == "add_column("@ + self.new_column@ + " = "@ + match self.expression {
                ComputedExpr::Concat(fields) => "concat("@ + crate::text::join(crate::text::strs(fields@), ", "@) + "))"@,
                ComputedExpr::Arithmetic { left, op, right } => left@ + seq![op] + right@ + " )"@,
                ComputedExpr::Literal(v) => "\""@ + v@ + "\")"@,
            },
    {
        let mut s = String::new();
        push_str(&mut s, "add_column(");
        push_str(&mut s, self.new_column.as_str());
        push_str(&mut s, " = ");
        match &self.expression {
            ComputedExpr::Concat(fields) => {
                push_str(&mut s, "concat(");
                crate::text::push_join(&mut s, fields.as_slice(), ", ");
                push_str(&mut s, "))");
            },
            ComputedExpr::Arithmetic { left, op, right } => {
                push_str(&mut s, left.as_str());
                crate::text::push_char(&mut s, *op);
                push_str(&mut s, right.as_str());
                push_str(&mut s, " )");
            },
            ComputedExpr::Literal(v) => {
                push_str(&mut s, "\"");
                push_str(&mut s, v.as_str());
                push_str(&mut s, "\")");
            },
        }
        s
    }

    /// Parses `new_col:expression`, where the expression is `=literal`,
    /// `a*b` or `a/b`, `a-b`, or `a+b+...` (joined, or added when numeric).
    pub fn parse(spec: &str) -> (r: Result<Self, ToolError>)
        ensures
            split_spec(spec@, ':') is None ==> (r matches Err(e) && e.0@ == "Invalid add-column spec '"@ + spec@
                + "'. Expected format: new_col:expression"@),
            split_spec(spec@, ':') matches Some((name, e)) ==> {
                &&& expr_ok(e) ==> (r matches Ok(t) && t.new_column@ == name && parsed_expr(e, t.expression))
                &&& !expr_ok(e) ==> (r matches Err(x) && x.0@ == "Cannot parse computed-column expression '"@ + e
                    + "'. Use col1+col2 (concat/add), col1*col2 (math), or =\"literal\"."@)
            },
    {
        match split_nonempty(spec, ':') {
            None => {
                let mut m = String::new();
                push_str(&mut m, "Invalid add-column spec '");
                push_str(&mut m, spec);
                push_str(&mut m, "'. Expected format: new_col:expression");
                Err(ToolError(m))
            },
            Some((new_column, e)) => {
                let cs = chars_of(e.as_str());
                let n = cs.len();
                if n > 0 && cs[0] == '=' {
                    let rest = slice_chars(cs.as_slice(), 1, n);
                    let v = crate::text::string_from_range(rest.as_slice(), 0, rest.len());
                    proof {
                        assert(rest@.subrange(0, rest@.len() as int) == rest@);
                        assert(cs@.subrange(1, n as int) == e@.skip(1));
                    }
                    return Ok(AddColumnTransform { new_column, expression: ComputedExpr::Literal(v) });
                }
                let a = find_char(cs.as_slice(), '*');
                let b = find_char(cs.as_slice(), '/');
                let i = if a <= b { a } else { b };
                if i < n {
                    let left = trimmed(slice_chars(cs.as_slice(), 0, i).as_slice());
                    let right = trimmed(slice_chars(cs.as_slice(), i + 1, n).as_slice());
                    proof {
                        assert(cs@.subrange(0, i as int) == e@.take(i as int));
                        assert(cs@.subrange(i + 1, n as int) == e@.skip(i + 1));
                    }
                    return Ok(AddColumnTransform {
                        new_column,
                        expression: ComputedExpr::Arithmetic { left, op: cs[i], right },
                    });
                }
                let dashes = count_of(&cs, '-');
                if dashes == 1 && !(n > 0 && cs[0] == '-') {
                    let d = find_char(cs.as_slice(), '-');
                    proof {
                        if d >= n {
                            lemma_count_absent(cs@, '-');
                        }
                    }
                    let left = trimmed(slice_chars(cs.as_slice(), 0, d).as_slice());
                    let right = trimmed(slice_chars(cs.as_slice(), d + 1, n).as_slice());
                    proof {
                        assert(cs@.subrange(0, d as int) == e@.take(d as int));
                        assert(cs@.subrange(d + 1, n as int) == e@.skip(d + 1));
                    }
                    return Ok(AddColumnTransform {
                        new_column,
                        expression: ComputedExpr::Arithmetic { left, op: '-', right },
                    });
                }
                if count_of(&cs, '+') > 0 {
                    let fields = split_all_trimmed(&cs, '+');
                    return Ok(AddColumnTransform { new_column, expression: ComputedExpr::Concat(fields) });
                }
                let mut m = String::new();
                push_str(&mut m, "Cannot parse computed-column expression '");
                push_str(&mut m, e.as_str());
                push_str(&mut m, "'. Use col1+col2 (concat/add), col1*col2 (math), or =\"literal\".");
                Err(ToolError(m))
            },
        }
    }
}

/// A character that does not occur is counted zero times.
proof fn lemma_count_absent(s: Seq<char>, c: char)
    requires
        forall|j: int| 0 <= j < s.len() ==> s[j] != c,
    ensures
        count_char(s, c) == 0,
    decreases s.len(),
{
    if s.len() > 0 {
        lemma_count_absent(s.drop_last(), c);
    }
}


/// The message of a filter expression that does not parse, if it does not.
pub open spec fn filter_error(expr: Seq<char>) -> Option<Seq<char>> {
    match first_token(expr, 0) {
        None => Some("Cannot parse filter expression '"@ + expr + "'. Expected format: column>value, column==value, etc."@),
        Some(k) => {
            let tok = op_tokens()[k].0;
            let p = find_sub(expr, tok)->Some_0;
            if trim(expr.take(p)).len() == 0 || trim(expr.skip(p + tok.len())).len() == 0 {
                Some("Invalid filter expression (empty column or value): '"@ + expr + "'"@)
            } else {
                None
            }
        },
    }
}

/// The message of a rename specification that does not parse, if it does not.
pub open spec fn rename_error(spec: Seq<char>) -> Option<Seq<char>> {
    if split_spec(spec, ':') is None {
        Some("Invalid rename spec '"@ + spec + "'. Expected format: old_name:new_name"@)
    } else {
        None
    }
}

/// The message of a computed-column specification that does not parse, if it does not.
pub open spec fn add_column_error(spec: Seq<char>) -> Option<Seq<char>> {
    match split_spec(spec, ':') {
        None => Some("Invalid add-column spec '"@ + spec + "'. Expected format: new_col:expression"@),
        Some((name, e)) => if expr_ok(e) {
            None
        } else {
            Some("Cannot parse computed-column expression '"@ + e
                + "'. Use col1+col2 (concat/add), col1*col2 (math), or =\"literal\"."@)
        },
    }
}

/// The options of the command line.
#[derive(Debug, Clone, Copy, PartialEq, Eq, Structural)]
pub enum Flag {
    Filter,
    Sort,
    Rename,
    AddColumn,
    Output,
}

pub open spec fn flag_named(a: Seq<char>) -> Option<Flag> {
    if a == "--filter"@ {
        Some(Flag::Filter)
    } else if a == "--sort"@ {
        Some(Flag::Sort)
    } else if a == "--rename"@ {
        Some(Flag::Rename)
    } else if a == "--add-column"@ {
        Some(Flag::AddColumn)
    } else if a == "--output"@ || a == "-o"@ {
        Some(Flag::Output)
    } else {
        None
    }
}

/// The message when an option has no value after it.
pub open spec fn missing_value(f: Flag) -> Seq<char> {
    match f {
        Flag::Filter => "--filter requires an argument"@,
        Flag::Sort => "--sort requires an argument"@,
        Flag::Rename => "--rename requires an argument"@,
        Flag::AddColumn => "--add-column requires an argument"@,
        Flag::Output => "--output requires a path"@,
    }
}

/// The message of an option's value that does not parse, if it does not.
pub open spec fn value_error(f: Flag, v: Seq<char>) -> Option<Seq<char>> {
    match f {
        Flag::Filter => filter_error(v),
        Flag::Rename => rename_error(v),
        Flag::AddColumn => add_column_error(v),
        _ => None,
    }
}

/// The options from position `i` on, each with its value, or the first error
/// met reading them from left to right.
pub open spec fn scan_options(args: Seq<Seq<char>>, i: int) -> Result<Seq<(Flag, Seq<char>)>, Seq<char>>
    decreases args.len() - i,
{
    if i < 0 || i >= args.len() {
        Ok(Seq::empty())
    } else {
        match flag_named(args[i]) {
            None => Err("Unknown argument: '"@ + args[i] + "'"@),
            Some(f) => if i + 1 >= args.len() {
                Err(missing_value(f))
            } else {
                match value_error(f, args[i + 1]) {
                    Some(m) => Err(m),
                    None => match scan_options(args, i + 2) {
                        Ok(rest) => Ok(seq![(f, args[i + 1])] + rest),
                        Err(m) => Err(m),
                    },
                }
            },
        }
    }
}

/// The value of the last `--output`, if any.
pub open spec fn last_output(steps: Seq<(Flag, Seq<char>)>) -> Option<Seq<char>>
    decreases steps.len(),
{
    if steps.len() == 0 {
        None
    } else if steps.last().0 == Flag::Output {
        Some(steps.last().1)
    } else {
        last_output(steps.drop_last())
    }
}

/// The options that add a transform, in order.
pub open spec fn transform_options(steps: Seq<(Flag, Seq<char>)>) -> Seq<(Flag, Seq<char>)>
    decreases steps.len(),
{
    if steps.len() == 0 {
        Seq::empty()
    } else if steps.last().0 == Flag::Output {
        transform_options(steps.drop_last())
    } else {
        transform_options(steps.drop_last()).push(steps.last())
    }
}

/// A transform of the pipeline, as given on the command line.
#[derive(Debug, Clone)]
pub enum Step {
    Filter(FilterTransform),
    Sort(SortTransform),
    Rename(RenameTransform),
    AddColumn(AddColumnTransform),
}

/// `step` is what option `f` with value `v` makes.
pub open spec fn step_from(step: Step, f: Flag, v: Seq<char>) -> bool {
    match step {
        Step::Filter(t) => f == Flag::Filter && filter_parse(v, Ok(t)),
        Step::Sort(t) => f == Flag::Sort && t.column@ == v,
        Step::Rename(t) => f == Flag::Rename && split_spec(v, ':') == Some((t.old_name@, t.new_name@)),
        Step::AddColumn(t) => f == Flag::AddColumn && (split_spec(v, ':') matches Some((name, e))
            && t.new_column@ == name && parsed_expr(e, t.expression)),
    }
}

/// The parsed command line: the input, the output if one was given, and the
/// transforms in the order given.
#[derive(Debug)]
pub struct CliArgs {
    pub input_path: String,
    pub output_path: Option<String>,
    pub steps: Vec<Step>,
}

/// `done` followed by the outcome of scanning the rest.
pub open spec fn after(done: Seq<(Flag, Seq<char>)>, rest: Result<Seq<(Flag, Seq<char>)>, Seq<char>>) -> Result<
    Seq<(Flag, Seq<char>)>,
    Seq<char>,
> {
    match rest {
        Ok(r) => Ok(done + r),
        Err(m) => Err(m),
    }
}

/// The usage message.
pub open spec fn usage() -> Seq<char> {
    "Usage: dtool <input> [--filter EXPR] [--sort COL] [--rename OLD:NEW] [--add-column NAME:EXPR] [--output PATH]"@
}

impl CliArgs {
    /// Parses the command line (the program's name first): the input path,
    /// then options, each with a value.
    pub fn parse_from(args: &[String]) -> (r: Result<CliArgs, ToolError>)
        ensures
            args@.len() < 2 ==> (r matches Err(e) && e.0@ == usage()),
            args@.len() >= 2 ==> match scan_options(crate::taskgraph::names(args@), 2) {
                Err(m) => r matches Err(e) && e.0@ == m,
                Ok(steps) => r matches Ok(cli) && cli.input_path@ == args@[1]@
                    && opt_view(cli.output_path) == last_output(steps)
                    && cli.steps@.len() == transform_options(steps).len()
                    && forall|k: int| 0 <= k < cli.steps@.len() ==> step_from(
                        #[trigger] cli.steps@[k],
                        transform_options(steps)[k].0,
                        transform_options(steps)[k].1,
                    ),
            },
    {
        let ghost a = crate::taskgraph::names(args@);
        if args.len() < 2 {
            return Err(ToolError(owned("Usage: dtool <input> [--filter EXPR] [--sort COL] [--rename OLD:NEW] [--add-column NAME:EXPR] [--output PATH]")));
        }
        let input_path = args[1].clone();
        let mut output_path: Option<String> = None;
        let mut steps: Vec<Step> = Vec::new();
        let ghost mut done: Seq<(Flag, Seq<char>)> = Seq::empty();
        let mut i: usize = 2;
        proof {
            assert(done + Seq::<(Flag, Seq<char>)>::empty() == done);
        }
        while i < args.len()
            invariant
                a == crate::taskgraph::names(args@),
                2 <= i <= args@.len(),
                scan_options(a, 2) == after(done, scan_options(a, i as int)),
                opt_view(output_path) == last_output(done),
                steps@.len() == transform_options(done).len(),
                forall|k: int| 0 <= k < steps@.len() ==> step_from(
                    #[trigger] steps@[k],
                    transform_options(done)[k].0,
                    transform_options(done)[k].1,
                ),
            decreases args@.len() - i,
        {
            let flag = args[i].as_str();
            proof {
                assert(a[i as int] == args@[i as int]@);
            }
            let f = if str_eq(flag, "--filter") {
                Flag::Filter
            } else if str_eq(flag, "--sort") {
                Flag::Sort
            } else if str_eq(flag, "--rename") {
                Flag::Rename
            } else if str_eq(flag, "--add-column") {
                Flag::AddColumn
            } else if str_eq(flag, "--output") || str_eq(flag, "-o") {
                Flag::Output
            } else {
                let mut m = String::new();
                push_str(&mut m, "Unknown argument: '");
                push_str(&mut m, flag);
                push_str(&mut m, "'");
                return Err(ToolError(m));
            };
            if i + 1 >= args.len() {
                let m = match f {
                    Flag::Filter => "--filter requires an argument",
                    Flag::Sort => "--sort requires an argument",
                    Flag::Rename => "--rename requires an argument",
                    Flag::AddColumn => "--add-column requires an argument",
                    Flag::Output => "--output requires a path",
                };
                return Err(ToolError(owned(m)));
            }
            let value = args[i + 1].as_str();
            proof {
                assert(a[i + 1] == args@[i + 1]@);
            }
            let ghost step = (f, value@);
            let ghost d0 = done;
            match f {
                Flag::Filter => {
                    match FilterTransform::parse(value) {
                        Ok(t) => {
                            steps.push(Step::Filter(t));
                        },
                        Err(e) => {
                            return Err(e);
                        },
                    }
                },
                Flag::Sort => {
                    steps.push(Step::Sort(SortTransform { column: owned(value) }));
                },
                Flag::Rename => {
                    match RenameTransform::parse(value) {
                        Ok(t) => {
                            steps.push(Step::Rename(t));
                        },
                        Err(e) => {
                            return Err(e);
                        },
                    }
                },
                Flag::AddColumn => {
                    match AddColumnTransform::parse(value) {
                        Ok(t) => {
                            steps.push(Step::AddColumn(t));
                        },
                        Err(e) => {
                            return Err(e);
                        },
                    }
                },
                Flag::Output => {
                    output_path = Some(owned(value));
                },
            }
            proof {
                done = done.push(step);
                assert(done.drop_last() == d0);
                assert(scan_options(a, i as int) == after(seq![step], scan_options(a, i + 2)));
                assert forall|rest: Seq<(Flag, Seq<char>)>| d0 + (seq![step] + rest) == done + rest by {
                    assert(d0 + (seq![step] + rest) =~= done + rest);
                }
                if f != Flag::Output {
                    assert(transform_options(done) == transform_options(d0).push(step));
                }
            }
            i = i + 2;
        }
        proof {
            assert(done + Seq::<(Flag, Seq<char>)>::empty() == done);
        }
        Ok(CliArgs { input_path, output_path, steps })
    }
}

// ---------------------------------------------------------------------------
// Transforms, with the comparison and arithmetic of values supplied by the
// caller
// ---------------------------------------------------------------------------

/// `b` is what `compare` may say of `value` against the filter's value.
pub open spec fn compare_may_give<F: Fn(FilterOp, &str, &str) -> bool>(compare: F, op: FilterOp, a: Seq<char>, b: Seq<char>, r: bool) -> bool {
    exists|x: &str, y: &str| x@ == a && y@ == b && #[trigger] compare.ensures((op, x, y), r)
}

/// A row without the column fails; otherwise a call of `compare` on its
/// value may have said `mark`.
pub open spec fn frame_mark_ok<F: Fn(FilterOp, &str, &str) -> bool>(compare: F, op: FilterOp, row: Fields, column: Seq<char>, value: Seq<char>, mark: bool) -> bool {
    if row.map().dom().contains(column) {
        compare_may_give(compare, op, row.map()[column], value, mark)
    } else {
        !mark
    }
}

impl FilterTransform {
    /// Keeps the rows whose value in the column passes; `compare` says
    /// whether a value stands to the filter's value as the operator asks.
    pub fn apply<F: Fn(FilterOp, &str, &str) -> bool>(&self, df: DataFrame, compare: F) -> (r: Result<DataFrame, ToolError>)
        requires
            forall|o: FilterOp, x: &str, y: &str| #[trigger] compare.requires((o, x, y)),
        ensures
            !has_column(df.columns@, self.column@) ==> (r matches Err(e) && e.0@ == "Filter column '"@ + self.column@
                + "' not found. Available columns: "@ + joined(df.columns@)),
            has_column(df.columns@, self.column@) ==> (r matches Ok(d) && d.columns == df.columns && exists|marks: Seq<bool>| {
                &&& marks.len() == df.rows@.len()
                &&& d.rows@ == kept(df.rows@, marks, marks.len() as int)
                &&& forall|k: int| 0 <= k < marks.len() ==> frame_mark_ok(
                    compare,
                    self.op,
                    df.rows@[k],
                    self.column@,
                    self.value@,
                    #[trigger] marks[k],
                )
            }),
    {
        if !contains_name(&df.columns, self.column.as_str()) {
            let mut m = String::new();
            push_str(&mut m, "Filter column '");
            push_str(&mut m, self.column.as_str());
            push_str(&mut m, "' not found. Available columns: ");
            push_joined(&mut m, &df.columns);
            return Err(ToolError(m));
        }
        let mut marks: Vec<bool> = Vec::new();
        let mut k: usize = 0;
        while k < df.rows.len()
            invariant
                forall|o: FilterOp, x: &str, y: &str| #[trigger] compare.requires((o, x, y)),
                0 <= k <= df.rows@.len(),
                marks@.len() == k,
                forall|q: int| 0 <= q < k ==> frame_mark_ok(compare, self.op, df.rows@[q], self.column@, self.value@, #[trigger] marks@[q]),
            decreases df.rows@.len() - k,
        {
            match df.rows[k].get(self.column.as_str()) {
                Some(v) => {
                    let b = compare(self.op, v.as_str(), self.value.as_str());
                    proof {
                        assert(compare_may_give(compare, self.op, df.rows@[k as int].map()[self.column@], self.value@, b));
                    }
                    marks.push(b);
                },
                None => marks.push(false),
            }
            k = k + 1;
        }
        let DataFrame { columns, rows } = df;
        let ghost r0 = rows@;
        let kept_rows = retain_marked(rows, &marks);
        proof {
            let ms = marks@;
            assert(ms.len() == r0.len());
            assert(forall|q: int| 0 <= q < ms.len() ==> frame_mark_ok(compare, self.op, r0[q], self.column@, self.value@, #[trigger] ms[q]));
        }
        Ok(DataFrame { columns, rows: kept_rows })
    }
}

/// A row's value in a column, empty when it has none.
pub open spec fn field_or_empty(row: Fields, column: Seq<char>) -> Seq<char> {
    if row.map().dom().contains(column) {
        row.map()[column]
    } else {
        Seq::empty()
    }
}

impl SortTransform {
    /// Puts the rows in order by their values in the column (empty where a
    /// row has none), as `sort_keyed` does; `order` says how two values
    /// compare.
    pub fn apply<F: Fn(&str, &str) -> Order>(&self, df: DataFrame, order: F) -> (r: Result<DataFrame, ToolError>)
        requires
            forall|x: &str, y: &str| #[trigger] order.requires((x, y)),
        ensures
            !has_column(df.columns@, self.column@) ==> (r matches Err(e) && e.0@ == "Sort column '"@ + self.column@
                + "' not found. Available columns: "@ + joined(df.columns@)),
            has_column(df.columns@, self.column@) ==> (r matches Ok(d) && d.columns == df.columns
                && d.rows@.to_multiset() == df.rows@.to_multiset() && d.rows@.len() == df.rows@.len()
                && forall|j: int| 1 <= j < d.rows@.len() ==> placed_after(
                order,
                field_or_empty(d.rows@[j - 1], self.column@),
                field_or_empty(#[trigger] d.rows@[j], self.column@),
                false,
            )),
    {
        if !contains_name(&df.columns, self.column.as_str()) {
            let mut m = String::new();
            push_str(&mut m, "Sort column '");
            push_str(&mut m, self.column.as_str());
            push_str(&mut m, "' not found. Available columns: ");
            push_joined(&mut m, &df.columns);
            return Err(ToolError(m));
        }
        let DataFrame { columns, rows } = df;
        let ghost r0 = rows@;
        let n = rows.len();
        let mut rest = rows;
        let mut back: Vec<Fields> = Vec::new();
        while rest.len() > 0
            invariant
                rest@ == r0.take(rest@.len() as int),
                rest@.len() + back@.len() == r0.len(),
                forall|q: int| 0 <= q < back@.len() ==> back@[q] == r0[r0.len() - 1 - q],
            decreases rest@.len(),
        {
            let row = rest.pop().unwrap();
            back.push(row);
        }
        let mut keyed: Vec<(String, Fields)> = Vec::new();
        let mut k: usize = 0;
        while back.len() > 0
            invariant
                k + back@.len() == r0.len(),
                r0.len() == n,
                forall|q: int| 0 <= q < back@.len() ==> back@[q] == r0[r0.len() - 1 - q],
                keyed@.len() == k,
                forall|q: int| 0 <= q < k ==> (#[trigger] keyed@[q]).1 == r0[q] && keyed@[q].0@ == field_or_empty(r0[q], self.column@),
            decreases back@.len(),
        {
            let row = back.pop().unwrap();
            let key = match row.get(self.column.as_str()) {
                Some(v) => v.clone(),
                None => String::new(),
            };
            keyed.push((key, row));
            k = k + 1;
        }
        proof {
            assert(keyed@.map_values(|p: (String, Fields)| p.1) =~= r0);
        }
        let ghost kv = keyed@;
        let sorted = sort_keyed(keyed, false, order);
        let ghost sv = sorted@;
        proof {
            sv.to_multiset_ensures();
            kv.to_multiset_ensures();
            assert forall|x: int| 0 <= x < sv.len() implies (#[trigger] sv[x]).0@ == field_or_empty(sv[x].1, self.column@) by {
                assert(sv.contains(sv[x]));
                assert(sv.to_multiset().count(sv[x]) > 0);
                assert(kv.contains(sv[x]));
                let q = choose|q: int| 0 <= q < kv.len() && kv[q] == sv[x];
                assert(kv[q].1 == r0[q]);
            }
        }
        let mut out: Vec<Fields> = Vec::new();
        let mut rest = sorted;
        let mut back2: Vec<(String, Fields)> = Vec::new();
        while rest.len() > 0
            invariant
                rest@ == sv.take(rest@.len() as int),
                rest@.len() + back2@.len() == sv.len(),
                forall|q: int| 0 <= q < back2@.len() ==> back2@[q] == sv[sv.len() - 1 - q],
            decreases rest@.len(),
        {
            let item = rest.pop().unwrap();
            back2.push(item);
        }
        let mut q: usize = 0;
        while back2.len() > 0
            invariant
                q + back2@.len() == sv.len(),
                sv.len() == n,
                forall|x: int| 0 <= x < back2@.len() ==> back2@[x] == sv[sv.len() - 1 - x],
                out@ == sv.take(q as int).map_values(|p: (String, Fields)| p.1),
            decreases back2@.len(),
        {
            let item = back2.pop().unwrap();
            let (_key, row) = item;
            out.push(row);
            proof {
                assert(sv.take(q + 1).map_values(|p: (String, Fields)| p.1) =~= sv.take(q as int).map_values(|p: (String, Fields)| p.1).push(item.1));
            }
            q = q + 1;
        }
        proof {
            assert(sv.take(q as int) == sv);
            assert forall|j: int| 1 <= j < out@.len() implies placed_after(
                order,
                field_or_empty(out@[j - 1], self.column@),
                field_or_empty(#[trigger] out@[j], self.column@),
                false,
            ) by {
                assert(out@[j] == sv[j].1 && out@[j - 1] == sv[j - 1].1);
                assert(sv[j].0@ == field_or_empty(sv[j].1, self.column@));
                assert(sv[j - 1].0@ == field_or_empty(sv[j - 1].1, self.column@));
            }
        }
        Ok(DataFrame { columns, rows: out })
    }
}

/// The values a row has for the fields named, in order.
pub open spec fn present_values(row: Fields, fields: Seq<String>) -> Seq<Seq<char>>
    decreases fields.len(),
{
    if fields.len() == 0 {
        Seq::empty()
    } else {
        let rest = present_values(row, fields.drop_last());
        if row.map().dom().contains(fields.last()@) {
            rest.push(row.map()[fields.last()@])
        } else {
            rest
        }
    }
}

/// `v` is what `sum` may give for the values.
pub open spec fn sum_may_give<S: Fn(&Vec<String>) -> String>(sum: S, values: Seq<Seq<char>>, v: Seq<char>) -> bool {
    exists|xs: Vec<String>, r: String| xs@.map_values(|x: String| x@) == values && r@ == v && #[trigger] sum.ensures((&xs,), r)
}

/// `v` is what `arith` may give for two values and an operator.
pub open spec fn arith_may_give<A: Fn(&str, char, &str) -> Result<String, String>>(arith: A, a: Seq<char>, op: char, b: Seq<char>, v: Seq<char>) -> bool {
    exists|x: &str, y: &str, r: String| x@ == a && y@ == b && r@ == v && #[trigger] arith.ensures((x, op, y), Ok::<String, String>(r))
}

/// `arith` may fail with `e` for two values and an operator.
pub open spec fn arith_may_fail<A: Fn(&str, char, &str) -> Result<String, String>>(arith: A, a: Seq<char>, op: char, b: Seq<char>, e: Seq<char>) -> bool {
    exists|x: &str, y: &str, m: String| x@ == a && y@ == b && m@ == e && #[trigger] arith.ensures((x, op, y), Err::<String, String>(m))
}

/// `numeric` can only answer `true` for `x`.
pub open spec fn numeric_sure<N: Fn(&str) -> bool>(numeric: N, x: Seq<char>) -> bool {
    forall|s: &str, b: bool| s@ == x && #[trigger] numeric.ensures((s,), b) ==> b
}

/// `arith` can only succeed for two values and an operator.
pub open spec fn arith_sure<A: Fn(&str, char, &str) -> Result<String, String>>(arith: A, a: Seq<char>, op: char, b: Seq<char>) -> bool {
    forall|x: &str, y: &str, r: Result<String, String>| x@ == a && y@ == b && #[trigger] arith.ensures((x, op, y), r) ==> r is Ok
}

/// A row on which an arithmetic column can be computed: both operands are
/// present and `numeric` said yes to each.
pub open spec fn arith_row_ok<N: Fn(&str) -> bool>(numeric: N, left: Seq<char>, right: Seq<char>, row: Fields) -> bool {
    &&& row.map().dom().contains(left)
    &&& row.map().dom().contains(right)
    &&& numeric_may(numeric, row.map()[left], true)
    &&& numeric_may(numeric, row.map()[right], true)
}

/// A row on which an arithmetic column may fail with `e`: the left operand is
/// missing or not numeric, else the right one is, else `arith` failed.
pub open spec fn arith_row_error<N: Fn(&str) -> bool, A: Fn(&str, char, &str) -> Result<String, String>>(
    numeric: N,
    arith: A,
    left: Seq<char>,
    op: char,
    right: Seq<char>,
    row: Fields,
    e: Seq<char>,
) -> bool {
    let m = row.map();
    ||| !m.dom().contains(left) && e == "Column '"@ + left + "' not found"@
    ||| m.dom().contains(left) && numeric_may(numeric, m[left], false) && e == "Column '"@ + left + "' is not numeric"@
    ||| m.dom().contains(left) && numeric_may(numeric, m[left], true) && !m.dom().contains(right)
        && e == "Column '"@ + right + "' not found"@
    ||| m.dom().contains(left) && numeric_may(numeric, m[left], true) && m.dom().contains(right)
        && numeric_may(numeric, m[right], false) && e == "Column '"@ + right + "' is not numeric"@
    ||| arith_row_ok(numeric, left, right, row) && arith_may_fail(arith, m[left], op, m[right], e)
}

/// Every row has both operands, `numeric` can only say yes to them, and
/// `arith` can only succeed on them.
pub open spec fn arith_rows_sure<N: Fn(&str) -> bool, A: Fn(&str, char, &str) -> Result<String, String>>(
    numeric: N,
    arith: A,
    left: Seq<char>,
    op: char,
    right: Seq<char>,
    rows: Seq<Fields>,
) -> bool {
    forall|k: int| 0 <= k < rows.len() ==> {
        let m = (#[trigger] rows[k]).map();
        &&& m.dom().contains(left)
        &&& m.dom().contains(right)
        &&& numeric_sure(numeric, m[left])
        &&& numeric_sure(numeric, m[right])
        &&& arith_sure(arith, m[left], op, m[right])
    }
}

/// `numeric` may answer `b` for `x`.
pub open spec fn numeric_may<N: Fn(&str) -> bool>(numeric: N, x: Seq<char>, b: bool) -> bool {
    exists|s: &str| s@ == x && #[trigger] numeric.ensures((s,), b)
}

/// The new value of a row is one the expression allows: the constant; for
/// joined fields, what `sum` may give for them when the row has them all and
/// `numeric` holds of each, else the values present joined by spaces; for
/// arithmetic, what `arith` may give for the two values.
pub open spec fn added_value<N: Fn(&str) -> bool, S: Fn(&Vec<String>) -> String, A: Fn(&str, char, &str) -> Result<String, String>>(
    numeric: N,
    sum: S,
    arith: A,
    e: ComputedExpr,
    row: Fields,
    v: Seq<char>,
) -> bool {
    match e {
        ComputedExpr::Literal(x) => v == x@,
        ComputedExpr::Concat(fs) => {
            let p = present_values(row, fs@);
            ||| (p.len() == fs@.len() && (forall|i: int| 0 <= i < p.len() ==> #[trigger] numeric_may(numeric, p[i], true))
                && sum_may_give(sum, p, v))
            ||| (v == join(p, " "@) && (p.len() < fs@.len() || exists|i: int| 0 <= i < p.len()
                && #[trigger] numeric_may(numeric, p[i], false)))
        },
        ComputedExpr::Arithmetic { left, op, right } => row.map().dom().contains(left@) && row.map().dom().contains(right@)
            && arith_may_give(arith, row.map()[left@], op, row.map()[right@], v),
    }
}

/// `after` is `before` with the new column set to a value the expression
/// allows.
pub open spec fn row_added<N: Fn(&str) -> bool, S: Fn(&Vec<String>) -> String, A: Fn(&str, char, &str) -> Result<String, String>>(
    numeric: N,
    sum: S,
    arith: A,
    e: ComputedExpr,
    name: Seq<char>,
    before: Fields,
    after: Fields,
) -> bool {
    exists|v: Seq<char>| after.map() == before.map().insert(name, v) && #[trigger] added_value(numeric, sum, arith, e, before, v)
}

impl AddColumnTransform {
    /// Adds the computed column to every row. For joined fields, when the row
    /// has them all and `numeric` holds of each value, the cell is what `sum`
    /// gives for them, else the values present joined by spaces. For
    /// arithmetic, a missing or (by `numeric`) non-numeric operand is an
    /// error, else the cell is what `arith` gives, or its error.
    #[verifier::spinoff_prover]
    #[verifier::rlimit(60)]
    pub fn apply<N: Fn(&str) -> bool, S: Fn(&Vec<String>) -> String, A: Fn(&str, char, &str) -> Result<String, String>>(
        &self,
        df: DataFrame,
        numeric: N,
        sum: S,
        arith: A,
    ) -> (r: Result<DataFrame, ToolError>)
        requires
            forall|x: &str| #[trigger] numeric.requires((x,)),
            forall|xs: &Vec<String>| #[trigger] sum.requires((xs,)),
            forall|x: &str, c: char, y: &str| #[trigger] arith.requires((x, c, y)),
        ensures
            has_column(df.columns@, self.new_column@) ==> (r matches Err(e) && e.0@ == "Add-column: column '"@
                + self.new_column@ + "' already exists"@),
            r matches Ok(d) ==> {
                &&& !has_column(df.columns@, self.new_column@)
                &&& d.columns@ == df.columns@.push(self.new_column)
                &&& d.rows@.len() == df.rows@.len()
                &&& forall|k: int| 0 <= k < df.rows@.len() ==> row_added(
                    numeric,
                    sum,
                    arith,
                    self.expression,
                    self.new_column@,
                    df.rows@[k],
                    #[trigger] d.rows@[k],
                )
            },
            !has_column(df.columns@, self.new_column@) && !(self.expression is Arithmetic) ==> r is Ok,
            !has_column(df.columns@, self.new_column@) ==> match self.expression {
                ComputedExpr::Arithmetic { left, op, right } => {
                    &&& r is Ok ==> forall|k: int| 0 <= k < df.rows@.len() ==> #[trigger] arith_row_ok(numeric, left@, right@, df.rows@[k])
                    &&& r matches Err(e) ==> exists|k: int| 0 <= k < df.rows@.len()
                        && (forall|q: int| 0 <= q < k ==> #[trigger] arith_row_ok(numeric, left@, right@, df.rows@[q]))
                        && #[trigger] arith_row_error(numeric, arith, left@, op, right@, df.rows@[k], e.0@)
                    &&& arith_rows_sure(numeric, arith, left@, op, right@, df.rows@) ==> r is Ok
                },
                _ => true,
            },
    {
        if contains_name(&df.columns, self.new_column.as_str()) {
            let mut m = String::new();
            push_str(&mut m, "Add-column: column '");
            push_str(&mut m, self.new_column.as_str());
            push_str(&mut m, "' already exists");
            return Err(ToolError(m));
        }
        let DataFrame { columns, rows } = df;
        let ghost r0 = rows@;
        let ghost c0 = columns@;
        let n = rows.len();
        let mut rest = rows;
        let mut back: Vec<Fields> = Vec::new();
        while rest.len() > 0
            invariant
                rest@ == r0.take(rest@.len() as int),
                rest@.len() + back@.len() == r0.len(),
                forall|q: int| 0 <= q < back@.len() ==> back@[q] == r0[r0.len() - 1 - q],
            decreases rest@.len(),
        {
            let row = rest.pop().unwrap();
            back.push(row);
        }
        let mut out: Vec<Fields> = Vec::new();
        let mut k: usize = 0;
        while back.len() > 0
            invariant
                !has_column(c0, self.new_column@),
                c0 == df.columns@,
                r0 == df.rows@,
                k + back@.len() == r0.len(),
                r0.len() == n,
                forall|x: &str| #[trigger] numeric.requires((x,)),
                forall|xs: &Vec<String>| #[trigger] sum.requires((xs,)),
                forall|x: &str, c: char, y: &str| #[trigger] arith.requires((x, c, y)),
                forall|q: int| 0 <= q < back@.len() ==> back@[q] == r0[r0.len() - 1 - q],
                out@.len() == k,
                forall|q: int| 0 <= q < k ==> row_added(numeric, sum, arith, self.expression, self.new_column@, r0[q], #[trigger] out@[q]),
                match self.expression {
                    ComputedExpr::Arithmetic { left, op, right } => forall|q: int| 0 <= q < k
                        ==> #[trigger] arith_row_ok(numeric, left@, right@, r0[q]),
                    _ => true,
                },
            decreases back@.len(),
        {
            let mut row = back.pop().unwrap();
            let ghost rv = row;
            let value: String = match &self.expression {
                ComputedExpr::Literal(v) => v.clone(),
                ComputedExpr::Concat(fields) => {
                    let mut present: Vec<String> = Vec::new();
                    let mut all_numeric = true;
                    let mut j: usize = 0;
                    while j < fields.len()
                        invariant
                            0 <= j <= fields@.len(),
                            forall|x: &str| #[trigger] numeric.requires((x,)),
                            row == rv,
                            present@.map_values(|x: String| x@) == present_values(rv, fields@.take(j as int)),
                            present@.len() <= j,
                            all_numeric ==> present@.len() == j,
                            all_numeric ==> forall|i: int| 0 <= i < present@.len() ==> #[trigger] numeric_may(numeric, present@[i]@, true),
                            !all_numeric ==> present@.len() < j || exists|i: int| 0 <= i < present@.len()
                                && #[trigger] numeric_may(numeric, present@[i]@, false),
                        decreases fields@.len() - j,
                    {
                        proof {
                            assert(fields@.take(j + 1).drop_last() == fields@.take(j as int));
                            assert(fields@.take(j + 1).last() == fields@[j as int]);
                        }
                        let ghost p0 = present@;
                        match row.get(fields[j].as_str()) {
                            Some(v) => {
                                let b = numeric(v.as_str());
                                assert(numeric_may(numeric, v@, b));
                                let was = all_numeric;
                                if !b {
                                    all_numeric = false;
                                }
                                present.push(v.clone());
                                proof {
                                    assert(present@.map_values(|x: String| x@) =~= p0.map_values(|x: String| x@).push(v@));
                                    assert(present@[p0.len() as int]@ == v@);
                                    assert forall|i: int| 0 <= i < p0.len() implies present@[i] == p0[i] by {}
                                    if !was {
                                        if p0.len() >= j {
                                            let i = choose|i: int| 0 <= i < p0.len() && #[trigger] numeric_may(numeric, p0[i]@, false);
                                            assert(present@[i] == p0[i]);
                                        }
                                    } else if !b {
                                        assert(numeric_may(numeric, present@[p0.len() as int]@, false));
                                    }
                                }
                            },
                            None => {
                                all_numeric = false;
                            },
                        }
                        j = j + 1;
                    }
                    proof {
                        assert(fields@.take(j as int) == fields@);
                    }
                    let ghost pv = present_values(rv, fields@);
                    proof {
                        assert forall|i: int| 0 <= i < present@.len() implies present@[i]@ == pv[i] by {
                            assert(present@.map_values(|x: String| x@)[i] == present@[i]@);
                        }
                    }
                    if all_numeric {
                        let s = sum(&present);
                        proof {
                            assert(sum_may_give(sum, present_values(rv, fields@), s@));
                            assert forall|i: int| 0 <= i < pv.len() implies #[trigger] numeric_may(numeric, pv[i], true) by {
                                assert(numeric_may(numeric, present@[i]@, true));
                            }
                        }
                        s
                    } else {
                        let mut s = String::new();
                        push_join(&mut s, present.as_slice(), " ");
                        proof {
                            assert(strs(present@) == present@.map_values(|x: String| x@));
                            if present@.len() >= fields@.len() {
                                let i = choose|i: int| 0 <= i < present@.len() && #[trigger] numeric_may(numeric, present@[i]@, false);
                                assert(numeric_may(numeric, pv[i], false));
                            }
                        }
                        s
                    }
                },
                ComputedExpr::Arithmetic { left, op, right } => {
                    proof {
                        assert(rv == r0[k as int]);
                        assert(df.rows@[k as int] == rv);
                        assert(self.expression == ComputedExpr::Arithmetic { left: *left, op: *op, right: *right });
                    }
                    let lv = match row.get(left.as_str()) {
                        Some(v) => v,
                        None => {
                            let mut m = String::new();
                            push_str(&mut m, "Column '");
                            push_str(&mut m, left.as_str());
                            push_str(&mut m, "' not found");
                            proof {
                                assert(arith_row_error(numeric, arith, left@, *op, right@, df.rows@[k as int], m@));
                                assert(!arith_rows_sure(numeric, arith, left@, *op, right@, df.rows@));
                            }
                            let res: Result<DataFrame, ToolError> = Err(ToolError(m));
                            proof {
                                match &res {
                                    Err(e) => {
                                        assert(arith_row_error(numeric, arith, left@, *op, right@, df.rows@[k as int], e.0@));
                                    },
                                    Ok(_) => {},
                                }
                            }
                            return res;
                        },
                    };
                    let lb = numeric(lv.as_str());
                    assert(numeric_may(numeric, lv@, lb));
                    if !lb {
                        let mut m = String::new();
                        push_str(&mut m, "Column '");
                        push_str(&mut m, left.as_str());
                        push_str(&mut m, "' is not numeric");
                        proof {
                            assert(arith_row_error(numeric, arith, left@, *op, right@, df.rows@[k as int], m@));
                            assert(!arith_rows_sure(numeric, arith, left@, *op, right@, df.rows@));
                        }
                        let res: Result<DataFrame, ToolError> = Err(ToolError(m));
                        proof {
                            match &res {
                                Err(e) => {
                                    assert(arith_row_error(numeric, arith, left@, *op, right@, df.rows@[k as int], e.0@));
                                },
                                Ok(_) => {},
                            }
                        }
                        return res;
                    }
                    let rv2 = match row.get(right.as_str()) {
                        Some(v) => v,
                        None => {
                            let mut m = String::new();
                            push_str(&mut m, "Column '");
                            push_str(&mut m, right.as_str());
                            push_str(&mut m, "' not found");
                            proof {
                                assert(arith_row_error(numeric, arith, left@, *op, right@, df.rows@[k as int], m@));
                                assert(!arith_rows_sure(numeric, arith, left@, *op, right@, df.rows@));
                            }
                            let res: Result<DataFrame, ToolError> = Err(ToolError(m));
                            proof {
                                match &res {
                                    Err(e) => {
                                        assert(arith_row_error(numeric, arith, left@, *op, right@, df.rows@[k as int], e.0@));
                                    },
                                    Ok(_) => {},
                                }
                            }
                            return res;
                        },
                    };
                    let rb = numeric(rv2.as_str());
                    assert(numeric_may(numeric, rv2@, rb));
                    if !rb {
                        let mut m = String::new();
                        push_str(&mut m, "Column '");
                        push_str(&mut m, right.as_str());
                        push_str(&mut m, "' is not numeric");
                        proof {
                            assert(arith_row_error(numeric, arith, left@, *op, right@, df.rows@[k as int], m@));
                            assert(!arith_rows_sure(numeric, arith, left@, *op, right@, df.rows@));
                        }
                        let res: Result<DataFrame, ToolError> = Err(ToolError(m));
                        proof {
                            match &res {
                                Err(e) => {
                                    assert(arith_row_error(numeric, arith, left@, *op, right@, df.rows@[k as int], e.0@));
                                },
                                Ok(_) => {},
                            }
                        }
                        return res;
                    }
                    assert(arith_row_ok(numeric, left@, right@, df.rows@[k as int]));
                    match arith(lv.as_str(), *op, rv2.as_str()) {
                        Ok(v) => {
                            proof {
                                assert(arith_may_give(arith, lv@, *op, rv2@, v@));
                            }
                            v
                        },
                        Err(m) => {
                            proof {
                                assert(arith_may_fail(arith, lv@, *op, rv2@, m@));
                            }
                            let res: Result<DataFrame, ToolError> = Err(ToolError(m));
                            proof {
                                match &res {
                                    Err(e) => {
                                        assert(arith_row_error(numeric, arith, left@, *op, right@, df.rows@[k as int], e.0@));
                                    },
                                    Ok(_) => {},
                                }
                            }
                            return res;
                        },
                    }
                },
            };
            proof {
                assert(rv == r0[k as int]);
                assert(added_value(numeric, sum, arith, self.expression, rv, value@));
            }
            row.insert(self.new_column.as_str(), value.as_str());
            let ghost o0 = out@;
            out.push(row);
            proof {
                assert(out@[k as int].map() == r0[k as int].map().insert(self.new_column@, value@));
                assert forall|q: int| 0 <= q < k + 1 implies row_added(numeric, sum, arith, self.expression, self.new_column@, r0[q], #[trigger] out@[q]) by {
                    if q < k {
                        assert(out@[q] == o0[q]);
                    } else {
                        assert(added_value(numeric, sum, arith, self.expression, r0[q], value@));
                    }
                }
            }
            k = k + 1;
        }
        let mut cols = columns;
        cols.push(self.new_column.clone());
        proof {
            assert(cols@ == c0.push(self.new_column));
        }
        Ok(DataFrame { columns: cols, rows: out })
    }
}

} // verus!
