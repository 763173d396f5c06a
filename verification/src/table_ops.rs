//! A data-file processor working on a table of strings, with transforms
//! given as command-line options. This module holds the table, format
//! detection, renaming, and the reading of the options.
use vstd::prelude::*;
use crate::text::{
    chars_of, debug_strings, strings_debug_text, push_str, owned, str_eq, ascii_lower, to_ascii_lowercase, find_sub,
    find_sub_chars, slice_chars, trim, trimmed, has_infix, contains_run, strs, join, pad_right, push_padded,
};
use crate::taskr::{cells_of, col_width, column_widths};
use crate::rows::{cell_or_empty, kept, may_give, placed_after, retain_marked, sort_rows_by};
use crate::pattern::is_digit;
use crate::dtool::{column_position, position_of, path_extension, extension_of, split_trimmed, split_once_trimmed, opt_view};

verus! {

/// An error with a message for the user.
#[derive(Debug)]
pub struct TableError(pub String);

impl TableError {
    pub fn to_string(&self) -> (r: String)
        ensures
            r@ == self.0@,
    {
        self.0.clone()
    }
}

/// Column names plus rows of string values.
#[derive(Debug, Clone)]
pub struct Table {
    pub columns: Vec<String>,
    pub rows: Vec<Vec<String>>,
}

impl Table {
    /// The position of the column named `name`, or an error listing the columns.
    pub fn column_index(&self, name: &str) -> (r: Result<usize, TableError>)
        ensures
            column_position(self.columns@, name@) matches Some(i) ==> r == Ok::<usize, TableError>(i as usize),
            column_position(self.columns@, name@) is None ==> (r matches Err(e) && e.0@ == "column '"@ + name@
                + "' not found (available: "@ + debug_strings(self.columns@.map_values(|s: String| s@)) + ")"@),
    {
        match position_of(&self.columns, name) {
            Some(i) => Ok(i),
            None => {
                let mut m = String::new();
                push_str(&mut m, "column '");
                push_str(&mut m, name);
                push_str(&mut m, "' not found (available: ");
                let cols = strings_debug_text(&self.columns);
                push_str(&mut m, cols.as_str());
                push_str(&mut m, ")");
                Err(TableError(m))
            },
        }
    }
}

/// The file formats.
#[derive(Debug, Clone, Copy, PartialEq, Eq, Structural)]
pub enum Format {
    Csv,
    Json,
    Yaml,
}

pub open spec fn format_named(e: Seq<char>) -> Option<Format> {
    if e == "csv"@ {
        Some(Format::Csv)
    } else if e == "json"@ {
        Some(Format::Json)
    } else if e == "yaml"@ || e == "yml"@ {
        Some(Format::Yaml)
    } else {
        None
    }
}

/// The format of a file from its extension in ASCII lower case.
pub fn detect_format(path: &str) -> (r: Result<Format, TableError>)
    ensures
        extension_of(path@) is None ==> (r matches Err(e) && e.0@ == "cannot detect format: file has no extension"@),
        extension_of(path@) matches Some(x) ==> match format_named(ascii_lower(x)) {
            Some(f) => r == Ok::<Format, TableError>(f),
            None => r matches Err(e) && e.0@ == "unsupported file extension: ."@ + ascii_lower(x),
        },
{
    match path_extension(path) {
        None => Err(TableError(owned("cannot detect format: file has no extension"))),
        Some(x) => {
            let e = to_ascii_lowercase(x.as_str());
            if str_eq(e.as_str(), "csv") {
                Ok(Format::Csv)
            } else if str_eq(e.as_str(), "json") {
                Ok(Format::Json)
            } else if str_eq(e.as_str(), "yaml") || str_eq(e.as_str(), "yml") {
                Ok(Format::Yaml)
            } else {
                let mut m = String::new();
                push_str(&mut m, "unsupported file extension: .");
                push_str(&mut m, e.as_str());
                Err(TableError(m))
            }
        },
    }
}

/// Renames a column given `old_name:new_name`; the rows are unchanged.
pub fn apply_rename(table: &mut Table, spec: &str) -> (r: Result<(), TableError>)
    ensures
        split_trimmed(spec@, ':') is None ==> (r matches Err(e) && e.0@
            == "rename format must be 'old_name:new_name', got '"@ + spec@ + "'"@ && *final(table) == *old(table)),
        split_trimmed(spec@, ':') matches Some((a, b)) ==> match column_position(old(table).columns@, a) {
            Some(i) => r is Ok && final(table).rows == old(table).rows
                && final(table).columns@ == old(table).columns@.update(i, final(table).columns@[i])
                && final(table).columns@[i]@ == b,
            None => r is Err && *final(table) == *old(table),
        },
{
    match split_once_trimmed(spec, ':') {
        None => {
            let mut m = String::new();
            push_str(&mut m, "rename format must be 'old_name:new_name', got '");
            push_str(&mut m, spec);
            push_str(&mut m, "'");
            Err(TableError(m))
        },
        Some((old, new)) => {
            match table.column_index(old.as_str()) {
                Ok(idx) => {
                    proof {
                        crate::dtool::lemma_column_position(table.columns@, old@, table.columns@.len() as int);
                    }
                    table.columns.set(idx, new);
                    Ok(())
                },
                Err(e) => Err(e),
            }
        },
    }
}

/// A transform named on the command line, with its specification.
#[derive(Debug, Clone)]
pub enum Transform {
    Filter(String),
    Sort(String),
    Rename(String),
    Add(String),
}

/// The parsed command line.
#[derive(Debug)]
pub struct Args {
    pub input: String,
    pub output: Option<String>,
    pub transforms: Vec<Transform>,
}

/// The options of the command line.
#[derive(Debug, Clone, Copy, PartialEq, Eq, Structural)]
pub enum Opt {
    Filter,
    Sort,
    Rename,
    Add,
    Output,
}

pub open spec fn opt_named(a: Seq<char>) -> Option<Opt> {
    if a == "--filter"@ || a == "-f"@ {
        Some(Opt::Filter)
    } else if a == "--sort"@ || a == "-s"@ {
        Some(Opt::Sort)
    } else if a == "--rename"@ || a == "-r"@ {
        Some(Opt::Rename)
    } else if a == "--add"@ || a == "-a"@ {
        Some(Opt::Add)
    } else if a == "--output"@ || a == "-o"@ {
        Some(Opt::Output)
    } else {
        None
    }
}

pub open spec fn opt_text(o: Opt) -> Seq<char> {
    match o {
        Opt::Filter => "--filter"@,
        Opt::Sort => "--sort"@,
        Opt::Rename => "--rename"@,
        Opt::Add => "--add"@,
        Opt::Output => "--output"@,
    }
}

/// The options from position `i` on, each with its value, or the first error.
pub open spec fn scan(args: Seq<Seq<char>>, i: int) -> Result<Seq<(Opt, Seq<char>)>, Seq<char>>
    decreases args.len() - i,
{
    if i < 0 || i >= args.len() {
        Ok(Seq::empty())
    } else {
        match opt_named(args[i]) {
            None => Err("unknown argument: '"@ + args[i] + "'. Run with --help for usage."@),
            Some(o) => if i + 1 >= args.len() {
                Err(opt_text(o) + " requires a value"@)
            } else {
                match scan(args, i + 2) {
                    Ok(rest) => Ok(seq![(o, args[i + 1])] + rest),
                    Err(m) => Err(m),
                }
            },
        }
    }
}

pub open spec fn last_output(steps: Seq<(Opt, Seq<char>)>) -> Option<Seq<char>>
    decreases steps.len(),
{
    if steps.len() == 0 {
        None
    } else if steps.last().0 == Opt::Output {
        Some(steps.last().1)
    } else {
        last_output(steps.drop_last())
    }
}

/// The transform options, in order.
pub open spec fn transform_opts(steps: Seq<(Opt, Seq<char>)>) -> Seq<(Opt, Seq<char>)>
    decreases steps.len(),
{
    if steps.len() == 0 {
        Seq::empty()
    } else if steps.last().0 == Opt::Output {
        transform_opts(steps.drop_last())
    } else {
        transform_opts(steps.drop_last()).push(steps.last())
    }
}

/// The transform an option names.
pub open spec fn names_transform(t: Transform, o: Opt, v: Seq<char>) -> bool {
    match t {
        Transform::Filter(s) => o == Opt::Filter && s@ == v,
        Transform::Sort(s) => o == Opt::Sort && s@ == v,
        Transform::Rename(s) => o == Opt::Rename && s@ == v,
        Transform::Add(s) => o == Opt::Add && s@ == v,
    }
}

pub open spec fn after(done: Seq<(Opt, Seq<char>)>, rest: Result<Seq<(Opt, Seq<char>)>, Seq<char>>) -> Result<
    Seq<(Opt, Seq<char>)>,
    Seq<char>,
> {
    match rest {
        Ok(r) => Ok(done + r),
        Err(m) => Err(m),
    }
}

/// Reads the arguments after the program name: the input path, then options,
/// each with a value. With no argument, or `--help`/`-h` first, there is
/// nothing to run (`None`): the caller shows the usage.
pub fn parse_arg_list(args: Vec<String>) -> (r: Result<Option<Args>, TableError>)
    ensures
        (args@.len() == 0 || args@[0]@ == "--help"@ || args@[0]@ == "-h"@) ==> r matches Ok(None),
        !(args@.len() == 0 || args@[0]@ == "--help"@ || args@[0]@ == "-h"@) ==> match scan(
            crate::taskgraph::names(args@),
            1,
        ) {
            Err(m) => r matches Err(e) && e.0@ == m,
            Ok(steps) => r matches Ok(Some(a)) && a.input@ == args@[0]@ && opt_view(a.output) == last_output(steps)
                && a.transforms@.len() == transform_opts(steps).len()
                && forall|k: int| 0 <= k < a.transforms@.len() ==> names_transform(
                    #[trigger] a.transforms@[k],
                    transform_opts(steps)[k].0,
                    transform_opts(steps)[k].1,
                ),
        },
{
    let ghost g = crate::taskgraph::names(args@);
    if args.len() == 0 || str_eq(args[0].as_str(), "--help") || str_eq(args[0].as_str(), "-h") {
        return Ok(None);
    }
    let input = args[0].clone();
    let mut output: Option<String> = None;
    let mut transforms: Vec<Transform> = Vec::new();
    let ghost mut done: Seq<(Opt, Seq<char>)> = Seq::empty();
    let mut i: usize = 1;
    proof {
        assert(done + Seq::<(Opt, Seq<char>)>::empty() == done);
    }
    while i < args.len()
        invariant
            g == crate::taskgraph::names(args@),
            !(args@.len() == 0 || args@[0]@ == "--help"@ || args@[0]@ == "-h"@),
            1 <= i <= args@.len(),
            scan(g, 1) == after(done, scan(g, i as int)),
            opt_view(output) == last_output(done),
            transforms@.len() == transform_opts(done).len(),
            forall|k: int| 0 <= k < transforms@.len() ==> names_transform(
                #[trigger] transforms@[k],
                transform_opts(done)[k].0,
                transform_opts(done)[k].1,
            ),
        decreases args@.len() - i,
    {
        let a = args[i].as_str();
        proof {
            assert(g[i as int] == args@[i as int]@);
        }
        let o = if str_eq(a, "--filter") || str_eq(a, "-f") {
            Opt::Filter
        } else if str_eq(a, "--sort") || str_eq(a, "-s") {
            Opt::Sort
        } else if str_eq(a, "--rename") || str_eq(a, "-r") {
            Opt::Rename
        } else if str_eq(a, "--add") || str_eq(a, "-a") {
            Opt::Add
        } else if str_eq(a, "--output") || str_eq(a, "-o") {
            Opt::Output
        } else {
            let mut m = String::new();
            push_str(&mut m, "unknown argument: '");
            push_str(&mut m, a);
            push_str(&mut m, "'. Run with --help for usage.");
            return Err(TableError(m));
        };
        if i + 1 >= args.len() {
            let mut m = String::new();
            push_str(&mut m, match o {
                Opt::Filter => "--filter",
                Opt::Sort => "--sort",
                Opt::Rename => "--rename",
                Opt::Add => "--add",
                Opt::Output => "--output",
            });
            push_str(&mut m, " requires a value");
            return Err(TableError(m));
        }
        let v = args[i + 1].clone();
        proof {
            assert(g[i + 1] == args@[i + 1]@);
        }
        let ghost step = (o, v@);
        let ghost d0 = done;
        match o {
            Opt::Filter => transforms.push(Transform::Filter(v)),
            Opt::Sort => transforms.push(Transform::Sort(v)),
            Opt::Rename => transforms.push(Transform::Rename(v)),
            Opt::Add => transforms.push(Transform::Add(v)),
            Opt::Output => {
                output = Some(v);
            },
        }
        proof {
            done = done.push(step);
            assert(done.drop_last() == d0);
            assert(scan(g, i as int) == after(seq![step], scan(g, i + 2)));
            assert forall|rest: Seq<(Opt, Seq<char>)>| d0 + (seq![step] + rest) == done + rest by {
                assert(d0 + (seq![step] + rest) =~= done + rest);
            }
            if o != Opt::Output {
                assert(transform_opts(done) == transform_opts(d0).push(step));
            }
        }
        i = i + 2;
    }
    proof {
        assert(done + Seq::<(Opt, Seq<char>)>::empty() == done);
    }
    Ok(Some(Args { input, output, transforms }))
}

// ---------------------------------------------------------------------------
// Filter and computed-column expressions
// ---------------------------------------------------------------------------

/// The comparison of a filter expression `column<op>value`.
#[derive(Debug, Clone, Copy, PartialEq, Eq, Structural)]
pub enum FilterOp {
    Ge,
    Le,
    Ne,
    Contains,
    Gt,
    Lt,
    Eq,
}

/// The text of an operator.
pub open spec fn filter_op_text(o: FilterOp) -> Seq<char> {
    match o {
        FilterOp::Ge => seq!['>', '='],
        FilterOp::Le => seq!['<', '='],
        FilterOp::Ne => seq!['!', '='],
        FilterOp::Contains => seq!['~'],
        FilterOp::Gt => seq!['>'],
        FilterOp::Lt => seq!['<'],
        FilterOp::Eq => seq!['='],
    }
}

/// The operators in the order they are looked for: the two-character ones
/// first, so that `>=` is not read as `>`.
pub open spec fn filter_ops() -> Seq<FilterOp> {
    seq![FilterOp::Ge, FilterOp::Le, FilterOp::Ne, FilterOp::Contains, FilterOp::Gt, FilterOp::Lt, FilterOp::Eq]
}

/// The first operator, in the order of `filter_ops` from the `k`-th on, that
/// occurs in `expr`, with the position of its first occurrence.
pub open spec fn first_operator(expr: Seq<char>, k: int) -> Option<(FilterOp, int)>
    decreases 7 - k,
{
    if k < 0 || k >= 7 {
        None
    } else {
        match find_sub(expr, filter_op_text(filter_ops()[k])) {
            Some(p) => Some((filter_ops()[k], p)),
            None => first_operator(expr, k + 1),
        }
    }
}

/// A filter: the column, the comparison and the value, both trimmed.
#[derive(Debug, Clone)]
pub struct Filter {
    pub column: String,
    pub op: FilterOp,
    pub value: String,
}

fn filter_op_at(k: usize) -> (o: FilterOp)
    requires
        k < 7,
    ensures
        o == filter_ops()[k as int],
{
    match k {
        0 => FilterOp::Ge,
        1 => FilterOp::Le,
        2 => FilterOp::Ne,
        3 => FilterOp::Contains,
        4 => FilterOp::Gt,
        5 => FilterOp::Lt,
        _ => FilterOp::Eq,
    }
}

fn filter_op_chars(o: FilterOp) -> (r: Vec<char>)
    ensures
        r@ == filter_op_text(o),
{
    let mut r: Vec<char> = Vec::new();
    match o {
        FilterOp::Ge => {
            r.push('>');
            r.push('=');
        },
        FilterOp::Le => {
            r.push('<');
            r.push('=');
        },
        FilterOp::Ne => {
            r.push('!');
            r.push('=');
        },
        FilterOp::Contains => r.push('~'),
        FilterOp::Gt => r.push('>'),
        FilterOp::Lt => r.push('<'),
        FilterOp::Eq => r.push('='),
    }
    proof {
        assert(r@ =~= filter_op_text(o));
    }
    r
}

/// Reads `column<op>value`: the first operator of `filter_ops` found in the
/// expression splits it at its first occurrence.
pub fn parse_filter(expr: &str) -> (r: Result<Filter, TableError>)
    ensures
        match first_operator(expr@, 0) {
            None => r matches Err(e) && e.0@ == "invalid filter expression: '"@ + expr@
                + "'. Use column<op>value where op is one of =, !=, >, <, >=, <=, ~"@,
            Some((op, p)) => r matches Ok(f) && f.op == op && f.column@ == trim(expr@.take(p))
                && f.value@ == trim(expr@.skip(p + filter_op_text(op).len())),
        },
{
    let cs = chars_of(expr);
    let mut k: usize = 0;
    while k < 7
        invariant
            0 <= k <= 7,
            cs@ == expr@,
            first_operator(expr@, 0) == first_operator(expr@, k as int),
        decreases 7 - k,
    {
        let o = filter_op_at(k);
        let t = filter_op_chars(o);
        match find_sub_chars(cs.as_slice(), t.as_slice()) {
            Some(p) => {
                let n = cs.len();
                let before = slice_chars(cs.as_slice(), 0, p);
                let after = slice_chars(cs.as_slice(), p + t.len(), n);
                proof {
                    assert(cs@.subrange(0, p as int) == expr@.take(p as int));
                    assert(cs@.subrange(p + t@.len(), cs@.len() as int) == expr@.skip(p + t@.len()));
                }
                return Ok(Filter { column: trimmed(before.as_slice()), op: o, value: trimmed(after.as_slice()) });
            },
            None => {},
        }
        k = k + 1;
    }
    let mut m = String::new();
    push_str(&mut m, "invalid filter expression: '");
    push_str(&mut m, expr);
    push_str(&mut m, "'. Use column<op>value where op is one of =, !=, >, <, >=, <=, ~");
    Err(TableError(m))
}

/// How a cell compares with a filter's value: numerically when both are
/// numbers, else as text.
#[derive(Debug, Clone, Copy, PartialEq, Eq, Structural)]
pub enum Order {
    Less,
    Equal,
    Greater,
}

/// Whether a cell passes a filter with operator `op` and value `value`,
/// given how it compares with the value.
pub open spec fn filter_keeps(op: FilterOp, cell: Seq<char>, value: Seq<char>, order: Order) -> bool {
    match op {
        FilterOp::Eq => cell == value,
        FilterOp::Ne => cell != value,
        FilterOp::Contains => has_infix(cell, value),
        FilterOp::Gt => order == Order::Greater,
        FilterOp::Lt => order == Order::Less,
        FilterOp::Ge => order != Order::Less,
        FilterOp::Le => order != Order::Greater,
    }
}

/// The filter law: `=` keeps a cell equal to the value and `!=` one that
/// differs; `~` keeps a cell that contains the value; `>` keeps exactly a
/// cell ordered Greater, `<` exactly Less, `>=` Greater or Equal, and `<=`
/// Less or Equal.
pub proof fn lemma_filter_ops(cell: Seq<char>, value: Seq<char>, order: Order)
    ensures
        filter_keeps(FilterOp::Eq, cell, value, order) <==> cell == value,
        filter_keeps(FilterOp::Ne, cell, value, order) <==> cell != value,
        filter_keeps(FilterOp::Contains, cell, value, order) <==> has_infix(cell, value),
        filter_keeps(FilterOp::Gt, cell, value, order) <==> order == Order::Greater,
        filter_keeps(FilterOp::Lt, cell, value, order) <==> order == Order::Less,
        filter_keeps(FilterOp::Ge, cell, value, order) <==> (order == Order::Greater || order == Order::Equal),
        filter_keeps(FilterOp::Le, cell, value, order) <==> (order == Order::Less || order == Order::Equal),
{
}

/// Whether a row whose cell is `cell` passes the filter: `=`, `!=` and `~`
/// (contains) compare the text; the others go by `order`, how the cell
/// compares with the value.
pub fn keeps(f: &Filter, cell: &str, order: Order) -> (r: bool)
    ensures
        r == filter_keeps(f.op, cell@, f.value@, order),
{
    match f.op {
        FilterOp::Eq => str_eq(cell, f.value.as_str()),
        FilterOp::Ne => !str_eq(cell, f.value.as_str()),
        FilterOp::Contains => {
            let c = chars_of(cell);
            let v = chars_of(f.value.as_str());
            contains_run(c.as_slice(), v.as_slice())
        },
        FilterOp::Gt => order == Order::Greater,
        FilterOp::Lt => order == Order::Less,
        FilterOp::Ge => order != Order::Less,
        FilterOp::Le => order != Order::Greater,
    }
}

/// The arithmetic operators of a computed column, in the order they are
/// looked for.
pub open spec fn arith_ops() -> Seq<char> {
    seq!['+', '-', '*', '/']
}

/// The first operator, in the order of `arith_ops` from the `k`-th on, that
/// occurs in `e` after its first character, with the position of its first
/// such occurrence (so that a leading minus sign is part of the operand).
pub open spec fn first_arith(e: Seq<char>, k: int) -> Option<(char, int)>
    decreases 4 - k,
{
    if k < 0 || k >= 4 {
        None
    } else {
        match find_sub(e.skip(1), seq![arith_ops()[k]]) {
            Some(q) => Some((arith_ops()[k], q + 1)),
            None => first_arith(e, k + 1),
        }
    }
}

/// The value of a computed column: two operands around an operator, or a
/// single column name or constant.
#[derive(Debug, Clone)]
pub enum AddExpr {
    Binary { lhs: String, op: char, rhs: String },
    Single(String),
}

/// A computed column: its name and how its cells are computed.
#[derive(Debug, Clone)]
pub struct AddSpec {
    pub name: String,
    pub expr: AddExpr,
}

/// The expression of `name=expr` can be read: it is not empty and its first
/// character takes one byte, so that what follows it is a string of its own.
pub open spec fn add_readable(spec: Seq<char>) -> bool {
    split_trimmed(spec, '=') matches Some((a, b)) ==> b.len() > 0 && (b[0] as u32) < 0x80
}

/// Reads `name=expr`, both trimmed; the expression is split at the first
/// operator of `arith_ops` found after its first character.
pub fn parse_add(spec: &str) -> (r: Result<AddSpec, TableError>)
    requires
        add_readable(spec@),
    ensures
        split_trimmed(spec@, '=') is None ==> (r matches Err(e) && e.0@ == "add format must be 'new_col=expr', got '"@
            + spec@ + "'"@),
        split_trimmed(spec@, '=') matches Some((a, b)) ==> (r matches Ok(s) && s.name@ == a && match first_arith(b, 0) {
            Some((c, p)) => s.expr matches AddExpr::Binary { lhs, op, rhs } && op == c && lhs@ == trim(b.take(p))
                && rhs@ == trim(b.skip(p + 1)),
            None => s.expr matches AddExpr::Single(x) && x@ == b,
        }),
{
    match split_once_trimmed(spec, '=') {
        None => {
            let mut m = String::new();
            push_str(&mut m, "add format must be 'new_col=expr', got '");
            push_str(&mut m, spec);
            push_str(&mut m, "'");
            Err(TableError(m))
        },
        Some((name, e)) => {
            let cs = chars_of(e.as_str());
            let tail = slice_chars(cs.as_slice(), 1, cs.len());
            proof {
                assert(tail@ == e@.skip(1));
            }
            let mut k: usize = 0;
            while k < 4
                invariant
                    0 <= k <= 4,
                    cs@ == e@,
                    cs@.len() > 0,
                    split_trimmed(spec@, '=') == Some((name@, e@)),
                    tail@ == e@.skip(1),
                    first_arith(e@, 0) == first_arith(e@, k as int),
                decreases 4 - k,
            {
                let c = if k == 0 {
                    '+'
                } else if k == 1 {
                    '-'
                } else if k == 2 {
                    '*'
                } else {
                    '/'
                };
                let mut t: Vec<char> = Vec::new();
                t.push(c);
                proof {
                    assert(c == arith_ops()[k as int]);
                    assert(t@ == seq![c]);
                }
                match find_sub_chars(tail.as_slice(), t.as_slice()) {
                    Some(q) => {
                        let n = cs.len();
                        let m = tail.len();
                        assert(m + 1 == n);
                        let p = q + 1;
                        let before = slice_chars(cs.as_slice(), 0, p);
                        let after = slice_chars(cs.as_slice(), p + 1, n);
                        proof {
                            assert(cs@.subrange(0, p as int) == e@.take(p as int));
                            assert(cs@.subrange(p + 1, cs@.len() as int) == e@.skip(p + 1));
                        }
                        return Ok(AddSpec {
                            name,
                            expr: AddExpr::Binary { lhs: trimmed(before.as_slice()), op: c, rhs: trimmed(after.as_slice()) },
                        });
                    },
                    None => {},
                }
                k = k + 1;
            }
            Ok(AddSpec { name, expr: AddExpr::Single(e) })
        },
    }
}

// ---------------------------------------------------------------------------
// Tables from records
// ---------------------------------------------------------------------------

/// A record read from a JSON or YAML document: each key in order, with the
/// text of its value when the key can be looked up by its text.
pub type RecordEntry = (String, Option<String>);

/// An entry by its texts.
pub open spec fn entry_view(e: RecordEntry) -> (Seq<char>, Option<Seq<char>>) {
    (e.0@, match e.1 {
        Some(v) => Some(v@),
        None => None,
    })
}

/// Records by their texts.
pub open spec fn records_view(records: Seq<Vec<RecordEntry>>) -> Seq<Seq<(Seq<char>, Option<Seq<char>>)>> {
    records.map_values(|r: Vec<RecordEntry>| r@.map_values(|e: RecordEntry| entry_view(e)))
}

/// The keys of a record, in order.
pub open spec fn keys_of(entries: Seq<(Seq<char>, Option<Seq<char>>)>) -> Seq<Seq<char>> {
    entries.map_values(|e: (Seq<char>, Option<Seq<char>>)| e.0)
}

/// The keys of all records, record after record.
pub open spec fn all_keys(records: Seq<Seq<(Seq<char>, Option<Seq<char>>)>>) -> Seq<Seq<char>>
    decreases records.len(),
{
    if records.len() == 0 {
        Seq::empty()
    } else {
        all_keys(records.drop_last()) + keys_of(records.last())
    }
}

/// `s` with each element kept at its first occurrence only.
pub open spec fn first_seen(s: Seq<Seq<char>>) -> Seq<Seq<char>>
    decreases s.len(),
{
    if s.len() == 0 {
        Seq::empty()
    } else {
        let d = first_seen(s.drop_last());
        if d.contains(s.last()) {
            d
        } else {
            d.push(s.last())
        }
    }
}

/// The value of `key` in a record: that of its first entry with this key
/// and a value; empty when there is none.
pub open spec fn value_of(entries: Seq<(Seq<char>, Option<Seq<char>>)>, key: Seq<char>) -> Seq<char>
    decreases entries.len(),
{
    if entries.len() == 0 {
        Seq::empty()
    } else if entries[0].0 == key && entries[0].1 is Some {
        entries[0].1->Some_0
    } else {
        value_of(entries.drop_first(), key)
    }
}

/// Whether one of `v` is `s`.
fn contains_text(v: &Vec<String>, s: &str) -> (r: bool)
    ensures
        r == strs(v@).contains(s@),
{
    let mut i: usize = 0;
    while i < v.len()
        invariant
            0 <= i <= v@.len(),
            forall|k: int| 0 <= k < i ==> v@[k]@ != s@,
        decreases v@.len() - i,
    {
        if str_eq(v[i].as_str(), s) {
            proof {
                assert(strs(v@)[i as int] == s@);
            }
            return true;
        }
        i = i + 1;
    }
    proof {
        assert forall|k: int| 0 <= k < strs(v@).len() implies strs(v@)[k] != s@ by {
            assert(strs(v@)[k] == v@[k]@);
        }
    }
    false
}

/// The value of `key` in a record, as `value_of` says.
fn lookup(entries: &Vec<RecordEntry>, key: &str) -> (r: String)
    ensures
        r@ == value_of(entries@.map_values(|e: RecordEntry| entry_view(e)), key@),
{
    let ghost v = entries@.map_values(|e: RecordEntry| entry_view(e));
    proof {
        assert(v.skip(0) == v);
    }
    let mut j: usize = 0;
    while j < entries.len()
        invariant
            0 <= j <= entries@.len(),
            v == entries@.map_values(|e: RecordEntry| entry_view(e)),
            value_of(v, key@) == value_of(v.skip(j as int), key@),
        decreases entries@.len() - j,
    {
        proof {
            assert(v.skip(j as int)[0] == entry_view(entries@[j as int]));
            assert(v.skip(j as int).drop_first() == v.skip(j + 1));
        }
        if str_eq(entries[j].0.as_str(), key) {
            match &entries[j].1 {
                Some(x) => {
                    return x.clone();
                },
                None => {},
            }
        }
        j = j + 1;
    }
    proof {
        assert(v.skip(j as int).len() == 0);
    }
    String::new()
}

/// For each record, the values of the columns in order, empty where the
/// record has none.
pub fn fill_rows(records: &Vec<Vec<RecordEntry>>, columns: &Vec<String>) -> (rows: Vec<Vec<String>>)
    ensures
        rows@.len() == records@.len(),
        forall|k: int| 0 <= k < records@.len() ==> strs(#[trigger] rows@[k]@) == strs(columns@).map_values(
            |c: Seq<char>| value_of(records_view(records@)[k], c),
        ),
{
    let ghost rv = records_view(records@);
    let ghost cv = strs(columns@);
    let mut rows: Vec<Vec<String>> = Vec::new();
    let mut k: usize = 0;
    while k < records.len()
        invariant
            0 <= k <= records@.len(),
            rv == records_view(records@),
            cv == strs(columns@),
            rows@.len() == k,
            forall|q: int| 0 <= q < k ==> strs(#[trigger] rows@[q]@) == cv.map_values(|c: Seq<char>| value_of(rv[q], c)),
        decreases records@.len() - k,
    {
        let rec = &records[k];
        proof {
            assert(rv[k as int] == rec@.map_values(|e: RecordEntry| entry_view(e)));
        }
        let mut row: Vec<String> = Vec::new();
        let mut c: usize = 0;
        while c < columns.len()
            invariant
                0 <= c <= columns@.len(),
                cv == strs(columns@),
                rv[k as int] == rec@.map_values(|e: RecordEntry| entry_view(e)),
                strs(row@) == cv.take(c as int).map_values(|x: Seq<char>| value_of(rv[k as int], x)),
            decreases columns@.len() - c,
        {
            let v = lookup(rec, columns[c].as_str());
            let ghost r0 = strs(row@);
            row.push(v);
            proof {
                assert(cv[c as int] == columns@[c as int]@);
                assert(strs(row@) == r0.push(v@));
                assert(cv.take(c + 1).map_values(|x: Seq<char>| value_of(rv[k as int], x)) =~= cv.take(
                    c as int,
                ).map_values(|x: Seq<char>| value_of(rv[k as int], x)).push(value_of(rv[k as int], cv[c as int])));
            }
            c = c + 1;
        }
        proof {
            assert(cv.take(c as int) == cv);
        }
        rows.push(row);
        k = k + 1;
    }
    rows
}

/// The table of a list of records: the columns are the keys in the order
/// they are first seen; each record gives a row of the values of the
/// columns, empty where it has none.
pub fn grid_from_records(records: &Vec<Vec<RecordEntry>>) -> (r: (Vec<String>, Vec<Vec<String>>))
    ensures
        strs(r.0@) == first_seen(all_keys(records_view(records@))),
        r.1@.len() == records@.len(),
        forall|k: int| 0 <= k < records@.len() ==> strs(#[trigger] r.1@[k]@) == strs(r.0@).map_values(
            |c: Seq<char>| value_of(records_view(records@)[k], c),
        ),
{
    let ghost rv = records_view(records@);
    let mut columns: Vec<String> = Vec::new();
    let mut i: usize = 0;
    while i < records.len()
        invariant
            0 <= i <= records@.len(),
            rv == records_view(records@),
            strs(columns@) == first_seen(all_keys(rv.take(i as int))),
        decreases records@.len() - i,
    {
        let rec = &records[i];
        let ghost before = all_keys(rv.take(i as int));
        proof {
            assert(rv[i as int] == rec@.map_values(|e: RecordEntry| entry_view(e)));
        }
        let mut j: usize = 0;
        while j < rec.len()
            invariant
                0 <= j <= rec@.len(),
                rv[i as int] == rec@.map_values(|e: RecordEntry| entry_view(e)),
                strs(columns@) == first_seen(before + keys_of(rv[i as int]).take(j as int)),
            decreases rec@.len() - j,
        {
            let key = &rec[j].0;
            let ghost s = before + keys_of(rv[i as int]).take(j as int);
            proof {
                assert(keys_of(rv[i as int])[j as int] == key@);
                assert((before + keys_of(rv[i as int]).take(j + 1)).drop_last() == s);
                assert((before + keys_of(rv[i as int]).take(j + 1)).last() == key@);
            }
            if !contains_text(&columns, key.as_str()) {
                let ghost c0 = strs(columns@);
                columns.push(key.clone());
                proof {
                    assert(strs(columns@) == c0.push(key@));
                }
            }
            j = j + 1;
        }
        proof {
            assert(keys_of(rv[i as int]).take(j as int) == keys_of(rv[i as int]));
            assert(rv.take(i + 1).drop_last() == rv.take(i as int));
            assert(rv.take(i + 1).last() == rv[i as int]);
        }
        i = i + 1;
    }
    proof {
        assert(rv.take(i as int) == rv);
    }
    let rows = fill_rows(records, &columns);
    (columns, rows)
}

// ---------------------------------------------------------------------------
// The table shown on standard output
// ---------------------------------------------------------------------------

/// `n` dashes.
pub open spec fn dashes(n: nat) -> Seq<char> {
    Seq::new(n, |i: int| '-')
}

/// A line of cells, each between single spaces and padded to its column's
/// width, separated by `|`.
pub open spec fn framed_line(cells: Seq<Seq<char>>, widths: Seq<nat>) -> Seq<char> {
    join(Seq::new(cells.len(), |i: int| " "@ + pad_right(cells[i], widths[i]) + " "@), "|"@)
}

/// The rule under the header: for each column, two dashes more than its
/// width, separated by `+`.
pub open spec fn rule_line(widths: Seq<nat>) -> Seq<char> {
    join(Seq::new(widths.len(), |i: int| dashes(widths[i] + 2)), "+"@)
}

/// The lines of a table shown to people: the header, the rule, and a line
/// for each row; columns are as wide as their widest cell, in bytes.
pub open spec fn framed_table(columns: Seq<Seq<char>>, rows: Seq<Seq<Seq<char>>>) -> Seq<Seq<char>> {
    let w = Seq::new(columns.len(), |i: int| col_width(columns, rows, i));
    seq![framed_line(columns, w), rule_line(w)] + Seq::new(rows.len(), |k: int| framed_line(rows[k], w))
}

/// A framed line, as `framed_line` says.
fn frame_line(cells: &Vec<String>, widths: &Vec<usize>) -> (r: String)
    requires
        cells@.len() <= widths@.len(),
    ensures
        r@ == framed_line(strs(cells@), widths@.map_values(|w: usize| w as nat)),
{
    let ghost c = strs(cells@);
    let ghost ws = widths@.map_values(|w: usize| w as nat);
    let ghost parts = Seq::new(c.len(), |i: int| " "@ + pad_right(c[i], ws[i]) + " "@);
    let mut s = String::new();
    let mut i: usize = 0;
    while i < cells.len()
        invariant
            cells@.len() <= widths@.len(),
            c == strs(cells@),
            ws == widths@.map_values(|w: usize| w as nat),
            parts == Seq::new(c.len(), |i: int| " "@ + pad_right(c[i], ws[i]) + " "@),
            0 <= i <= cells@.len(),
            s@ == join(parts.take(i as int), "|"@),
        decreases cells@.len() - i,
    {
        proof {
            assert(parts.take(i + 1).drop_last() == parts.take(i as int));
            assert(parts.take(i + 1).last() == parts[i as int]);
            if i == 0 {
                assert(parts.take(1)[0] == parts[0]);
            }
        }
        let ghost before = s@;
        if i > 0 {
            push_str(&mut s, "|");
        }
        let ghost mid = s@;
        push_str(&mut s, " ");
        push_padded(&mut s, cells[i].as_str(), widths[i]);
        push_str(&mut s, " ");
        proof {
            assert(s@ == mid + (" "@ + pad_right(c[i as int], ws[i as int]) + " "@));
        }
        i = i + 1;
    }
    proof {
        assert(parts.take(i as int) == parts);
    }
    s
}

/// The rule line, as `rule_line` says.
fn frame_rule(widths: &Vec<usize>) -> (r: String)
    ensures
        r@ == rule_line(widths@.map_values(|w: usize| w as nat)),
{
    let ghost ws = widths@.map_values(|w: usize| w as nat);
    let ghost parts = Seq::new(ws.len(), |i: int| dashes(ws[i] + 2));
    let mut s = String::new();
    let mut i: usize = 0;
    while i < widths.len()
        invariant
            ws == widths@.map_values(|w: usize| w as nat),
            parts == Seq::new(ws.len(), |i: int| dashes(ws[i] + 2)),
            0 <= i <= widths@.len(),
            s@ == join(parts.take(i as int), "+"@),
        decreases widths@.len() - i,
    {
        proof {
            assert(parts.take(i + 1).drop_last() == parts.take(i as int));
            assert(parts.take(i + 1).last() == parts[i as int]);
            if i == 0 {
                assert(parts.take(1)[0] == parts[0]);
            }
        }
        if i > 0 {
            push_str(&mut s, "+");
        }
        let ghost base = s@;
        let mut j: usize = 0;
        let w = widths[i];
        while j < w
            invariant
                0 <= j <= w,
                s@ == base + dashes(j as nat),
            decreases w - j,
        {
            push_str(&mut s, "-");
            proof {
                reveal_strlit("-");
                assert(dashes((j + 1) as nat) =~= dashes(j as nat) + "-"@);
            }
            j = j + 1;
        }
        push_str(&mut s, "--");
        proof {
            reveal_strlit("--");
            assert(dashes(w as nat) + "--"@ =~= dashes((w + 2) as nat));
            assert(parts[i as int] == dashes((w + 2) as nat));
        }
        i = i + 1;
    }
    proof {
        assert(parts.take(i as int) == parts);
    }
    s
}

/// The lines of the table shown to people, as `framed_table` says. Every row
/// has at most as many cells as there are columns.
pub fn table_display(table: &Table) -> (r: Vec<String>)
    requires
        forall|k: int| 0 <= k < table.rows@.len() ==> (#[trigger] table.rows@[k])@.len() <= table.columns@.len(),
    ensures
        strs(r@) == framed_table(strs(table.columns@), cells_of(table.rows@)),
{
    let ghost h = strs(table.columns@);
    let ghost rs = cells_of(table.rows@);
    let widths = column_widths(&table.columns, &table.rows);
    let ghost ws = Seq::new(h.len(), |i: int| col_width(h, rs, i));
    proof {
        assert(widths@.map_values(|w: usize| w as nat) =~= ws);
    }
    let mut out: Vec<String> = Vec::new();
    out.push(frame_line(&table.columns, &widths));
    out.push(frame_rule(&widths));
    let mut k: usize = 0;
    while k < table.rows.len()
        invariant
            h == strs(table.columns@),
            rs == cells_of(table.rows@),
            forall|q: int| 0 <= q < table.rows@.len() ==> (#[trigger] table.rows@[q])@.len() <= table.columns@.len(),
            widths@.len() == table.columns@.len(),
            widths@.map_values(|w: usize| w as nat) == ws,
            0 <= k <= table.rows@.len(),
            strs(out@) == seq![framed_line(h, ws), rule_line(ws)] + Seq::new(k as nat, |q: int| framed_line(rs[q], ws)),
        decreases table.rows@.len() - k,
    {
        let line = frame_line(&table.rows[k], &widths);
        let ghost o0 = out@;
        out.push(line);
        proof {
            assert(rs[k as int] == strs(table.rows@[k as int]@));
            assert(strs(out@) =~= strs(o0).push(line@));
            assert(strs(out@) =~= seq![framed_line(h, ws), rule_line(ws)] + Seq::new(
                (k + 1) as nat,
                |q: int| framed_line(rs[q], ws),
            ));
        }
        k = k + 1;
    }
    proof {
        assert(strs(out@) =~= framed_table(h, rs));
    }
    out
}

// ---------------------------------------------------------------------------
// Transforms, with the comparison of cells supplied by the caller
// ---------------------------------------------------------------------------

/// Every row has a cell for each column.
pub open spec fn rows_fit(t: Table) -> bool {
    forall|k: int| 0 <= k < t.rows@.len() ==> (#[trigger] t.rows@[k])@.len() >= t.columns@.len()
}

/// The message of a column that is not there.
pub open spec fn missing_column(t: Table, name: Seq<char>) -> Seq<char> {
    "column '"@ + name + "' not found (available: "@ + debug_strings(t.columns@.map_values(|s: String| s@)) + ")"@
}

/// A call of `order` on the cell and the value may have given an order by
/// which the cell passes the filter exactly when `mark` is set.
pub open spec fn mark_ok<F: Fn(&str, &str) -> Order>(order: F, op: FilterOp, cell: Seq<char>, value: Seq<char>, mark: bool) -> bool {
    exists|o: Order| #[trigger] may_give(order, cell, value, o) && mark == filter_keeps(op, cell, value, o)
}

/// Keeps the rows that pass the filter `expr`; `order` says how a cell
/// compares with the filter's value.
pub fn apply_filter<F: Fn(&str, &str) -> Order>(table: &mut Table, expr: &str, order: F) -> (r: Result<(), TableError>)
    requires
        forall|x: &str, y: &str| #[trigger] order.requires((x, y)),
        rows_fit(*old(table)),
    ensures
        match first_operator(expr@, 0) {
            None => r matches Err(e) && e.0@ == "invalid filter expression: '"@ + expr@
                + "'. Use column<op>value where op is one of =, !=, >, <, >=, <=, ~"@ && *final(table) == *old(table),
            Some((op, p)) => {
                let value = trim(expr@.skip(p + filter_op_text(op).len()));
                match column_position(old(table).columns@, trim(expr@.take(p))) {
                    None => r matches Err(e) && e.0@ == missing_column(*old(table), trim(expr@.take(p)))
                        && *final(table) == *old(table),
                    Some(i) => r is Ok && final(table).columns == old(table).columns && exists|marks: Seq<bool>| {
                        &&& marks.len() == old(table).rows@.len()
                        &&& final(table).rows@ == kept(old(table).rows@, marks, marks.len() as int)
                        &&& forall|k: int| 0 <= k < marks.len() ==> mark_ok(
                            order,
                            op,
                            old(table).rows@[k]@[i]@,
                            value,
                            #[trigger] marks[k],
                        )
                    },
                }
            },
        },
{
    let f = match parse_filter(expr) {
        Ok(f) => f,
        Err(e) => return Err(e),
    };
    let i = match table.column_index(f.column.as_str()) {
        Ok(i) => i,
        Err(e) => return Err(e),
    };
    let _nc = table.columns.len();
    proof {
        crate::dtool::lemma_column_position(table.columns@, f.column@, table.columns@.len() as int);
    }
    let ghost t0 = *table;
    let mut marks: Vec<bool> = Vec::new();
    let mut k: usize = 0;
    while k < table.rows.len()
        invariant
            *table == t0,
            rows_fit(t0),
            i < t0.columns@.len(),
            forall|x: &str, y: &str| #[trigger] order.requires((x, y)),
            0 <= k <= t0.rows@.len(),
            marks@.len() == k,
            forall|q: int| 0 <= q < k ==> mark_ok(order, f.op, t0.rows@[q]@[i as int]@, f.value@, #[trigger] marks@[q]),
        decreases t0.rows@.len() - k,
    {
        let cell = table.rows[k][i].as_str();
        let o = order(cell, f.value.as_str());
        proof {
            assert(may_give(order, t0.rows@[k as int]@[i as int]@, f.value@, o));
        }
        marks.push(keeps(&f, cell, o));
        k = k + 1;
    }
    let mut rows: Vec<Vec<String>> = Vec::new();
    std::mem::swap(&mut rows, &mut table.rows);
    table.rows = retain_marked(rows, &marks);
    proof {
        let ms = marks@;
        assert(column_position(t0.columns@, f.column@) == Some(i as int));
        assert(ms.len() == t0.rows@.len());
        assert(table.rows@ == kept(t0.rows@, ms, ms.len() as int));
        assert(forall|q: int| 0 <= q < ms.len() ==> mark_ok(order, f.op, t0.rows@[q]@[i as int]@, f.value@, #[trigger] ms[q]));
    }
    Ok(())
}

/// Puts the rows in order by column `col`, as `sort_rows_by` does; `order`
/// says how two cells compare.
pub fn apply_sort<F: Fn(&str, &str) -> Order>(table: &mut Table, col: &str, order: F) -> (r: Result<(), TableError>)
    requires
        forall|x: &str, y: &str| #[trigger] order.requires((x, y)),
        rows_fit(*old(table)),
    ensures
        match column_position(old(table).columns@, col@) {
            None => r matches Err(e) && e.0@ == missing_column(*old(table), col@) && *final(table) == *old(table),
            Some(i) => r is Ok && final(table).columns == old(table).columns
                && final(table).rows@.to_multiset() == old(table).rows@.to_multiset()
                && final(table).rows@.len() == old(table).rows@.len()
                && forall|j: int| 1 <= j < final(table).rows@.len() ==> placed_after(
                    order,
                    cell_or_empty(final(table).rows@[j - 1]@, i),
                    cell_or_empty((#[trigger] final(table).rows@[j])@, i),
                    false,
                ),
        },
{
    let i = match table.column_index(col) {
        Ok(i) => i,
        Err(e) => return Err(e),
    };
    let _nc = table.columns.len();
    proof {
        crate::dtool::lemma_column_position(table.columns@, col@, table.columns@.len() as int);
        assert(column_position(table.columns@, col@) == Some(i as int));
    }
    let mut rows: Vec<Vec<String>> = Vec::new();
    std::mem::swap(&mut rows, &mut table.rows);
    let sorted = sort_rows_by(rows, i, false, order);
    table.rows = sorted;
    Ok(())
}

/// Decimal digits with at most one `.`, and at least one digit.
pub open spec fn numeral_body(d: Seq<char>) -> bool {
    &&& exists|i: int| 0 <= i < d.len() && is_digit(#[trigger] d[i])
    &&& forall|i: int| 0 <= i < d.len() ==> is_digit(#[trigger] d[i]) || d[i] == '.'
    &&& forall|i: int, j: int| 0 <= i < j < d.len() && #[trigger] d[i] == '.' ==> #[trigger] d[j] != '.'
}

/// A number written out: an optional sign, then digits with at most one `.`.
pub open spec fn is_numeral(s: Seq<char>) -> bool {
    if s.len() > 0 && (s[0] == '-' || s[0] == '+') {
        numeral_body(s.skip(1))
    } else {
        numeral_body(s)
    }
}

/// Whether `s` is a number written out (see `is_numeral`).
pub fn numeral(s: &str) -> (r: bool)
    ensures
        r == is_numeral(s@),
{
    let cs = chars_of(s);
    let start: usize = if cs.len() > 0 && (cs[0] == '-' || cs[0] == '+') { 1 } else { 0 };
    let ghost d = cs@.skip(start as int);
    proof {
        if start == 0 {
            assert(cs@.skip(0) =~= cs@);
        }
        assert(is_numeral(s@) == numeral_body(d));
    }
    let mut seen_digit = false;
    let mut seen_dot = false;
    let mut i: usize = start;
    while i < cs.len()
        invariant
            start <= i <= cs@.len(),
            start <= 1,
            d == cs@.skip(start as int),
            cs@ == s@,
            is_numeral(s@) == numeral_body(d),
            seen_digit == exists|k: int| 0 <= k < i - start && is_digit(#[trigger] d[k]),
            seen_dot == exists|k: int| 0 <= k < i - start && #[trigger] d[k] == '.',
            forall|k: int| 0 <= k < i - start ==> is_digit(#[trigger] d[k]) || d[k] == '.',
            forall|a: int, b: int| 0 <= a < b < i - start && #[trigger] d[a] == '.' ==> #[trigger] d[b] != '.',
        decreases cs@.len() - i,
    {
        let c = cs[i];
        assert(d[i - start] == c);
        if '0' <= c && c <= '9' {
            seen_digit = true;
        } else if c == '.' {
            if seen_dot {
                proof {
                    let k = choose|k: int| 0 <= k < i - start && #[trigger] d[k] == '.';
                    assert(d[k] == '.' && d[i - start] == '.');
                }
                return false;
            }
            seen_dot = true;
        } else {
            assert(!(is_digit(d[i - start]) || d[i - start] == '.'));
            return false;
        }
        i = i + 1;
    }
    seen_digit
}

/// An operand of a computed column is a column name or a number.
pub open spec fn operand_ok(columns: Seq<String>, x: Seq<char>) -> bool {
    column_position(columns, x) is Some || is_numeral(x)
}

/// The cell of column `name` in `row`, when there is such a column.
pub open spec fn cell_of(columns: Seq<String>, row: Seq<String>, name: Seq<char>) -> Option<Seq<char>> {
    match column_position(columns, name) {
        Some(i) => Some(row[i]@),
        None => None,
    }
}

/// `r` is what `arith` may give for two operands with their cells and an
/// operator.
pub open spec fn arith_may_give<F: Fn(Option<&str>, &str, char, Option<&str>, &str) -> String>(
    arith: F,
    lc: Option<Seq<char>>,
    l: Seq<char>,
    op: char,
    rc: Option<Seq<char>>,
    rt: Seq<char>,
    r: Seq<char>,
) -> bool {
    exists|a: Option<&str>, x: &str, b: Option<&str>, y: &str, v: String| {
        &&& (match a {
            Some(s) => lc == Some(s@),
            None => lc is None,
        })
        &&& (match b {
            Some(s) => rc == Some(s@),
            None => rc is None,
        })
        &&& x@ == l
        &&& y@ == rt
        &&& v@ == r
        &&& #[trigger] arith.ensures((a, x, op, b, y), v)
    }
}

/// The cell of a row in the optional column at `i`.
fn cell_at<'a>(row: &'a Vec<String>, i: Option<usize>) -> (r: Option<&'a str>)
    requires
        i matches Some(j) ==> j < row@.len(),
    ensures
        match i {
            Some(j) => r matches Some(s) && s@ == row@[j as int]@,
            None => r is None,
        },
{
    match i {
        Some(j) => Some(row[j].as_str()),
        None => None,
    }
}

/// The position of a column, when there is one.
fn column_opt(table: &Table, name: &str) -> (r: Option<usize>)
    ensures
        match column_position(table.columns@, name@) {
            Some(i) => r == Some(i as usize),
            None => r is None,
        },
{
    match table.column_index(name) {
        Ok(i) => Some(i),
        Err(_) => None,
    }
}

/// For each row, the cell of column `e`, or `e` itself when no column has
/// that name.
fn single_values(table: &Table, e: &String) -> (values: Vec<String>)
    requires
        rows_fit(*table),
    ensures
        values@.len() == table.rows@.len(),
        forall|q: int| 0 <= q < table.rows@.len() ==> (#[trigger] values@[q])@ == match cell_of(table.columns@, table.rows@[q]@, e@) {
            Some(x) => x,
            None => e@,
        },
{
    let ci = column_opt(table, e.as_str());
    proof {
        crate::dtool::lemma_column_position(table.columns@, e@, table.columns@.len() as int);
    }
    let nc = table.columns.len();
    let mut values: Vec<String> = Vec::new();
    let mut k: usize = 0;
    while k < table.rows.len()
        invariant
            rows_fit(*table),
            nc == table.columns@.len(),
            match column_position(table.columns@, e@) { Some(j) => ci == Some(j as usize) && 0 <= j < table.columns@.len(), None => ci is None },
            0 <= k <= table.rows@.len(),
            values@.len() == k,
            forall|q: int| 0 <= q < k ==> (#[trigger] values@[q])@ == match cell_of(table.columns@, table.rows@[q]@, e@) {
                Some(x) => x,
                None => e@,
            },
        decreases table.rows@.len() - k,
    {
        let v = match ci {
            Some(j) => {
                let c = table.rows[k][j].clone();
                assert(c@ == table.rows@[k as int]@[j as int]@);
                c
            },
            None => e.clone(),
        };
        assert(v@ == match cell_of(table.columns@, table.rows@[k as int]@, e@) {
            Some(x) => x,
            None => e@,
        });
        let ghost v0 = values@;
        values.push(v);
        assert forall|q: int| 0 <= q < k + 1 implies (#[trigger] values@[q])@ == match cell_of(table.columns@, table.rows@[q]@, e@) {
            Some(x) => x,
            None => e@,
        } by {
            if q < k {
                assert(values@[q] == v0[q]);
            }
        }
        k = k + 1;
    }
    values
}

/// Adds the column `name=expr` (see `parse_add`). For `lhs <op> rhs` whose
/// operands are each a column name or a number, each cell is what `arith`
/// gives for the operands, each with its cell when it names a column.
/// Otherwise the expression is a single operand: each cell is the operand's
/// column's cell, or the operand itself (a literal assignment such as
/// `label=well-known`) when it names no column.
pub fn apply_add<F: Fn(Option<&str>, &str, char, Option<&str>, &str) -> String>(table: &mut Table, spec: &str, arith: F) -> (r: Result<
    (),
    TableError,
>)
    requires
        forall|a: Option<&str>, x: &str, c: char, b: Option<&str>, y: &str| #[trigger] arith.requires((a, x, c, b, y)),
        rows_fit(*old(table)),
        add_readable(spec@),
    ensures
        split_trimmed(spec@, '=') is None ==> (r matches Err(e) && e.0@ == "add format must be 'new_col=expr', got '"@
            + spec@ + "'"@ && *final(table) == *old(table)),
        split_trimmed(spec@, '=') matches Some((name, e)) ==> {
            &&& r is Ok
            &&& strs(final(table).columns@) == strs(old(table).columns@).push(name)
            &&& final(table).rows@.len() == old(table).rows@.len()
            &&& forall|k: int| 0 <= k < old(table).rows@.len() ==> strs((#[trigger] final(table).rows@[k])@) == strs(
                old(table).rows@[k]@,
            ).push(final(table).rows@[k]@.last()@)
            &&& forall|k: int| 0 <= k < old(table).rows@.len() ==> {
                let row = old(table).rows@[k]@;
                let v = (#[trigger] final(table).rows@[k])@.last()@;
                match first_arith(e, 0) {
                    Some((c, p)) => if operand_ok(old(table).columns@, trim(e.take(p))) && operand_ok(
                        old(table).columns@,
                        trim(e.skip(p + 1)),
                    ) {
                        arith_may_give(
                            arith,
                            cell_of(old(table).columns@, row, trim(e.take(p))),
                            trim(e.take(p)),
                            c,
                            cell_of(old(table).columns@, row, trim(e.skip(p + 1))),
                            trim(e.skip(p + 1)),
                            v,
                        )
                    } else {
                        v == match cell_of(old(table).columns@, row, e) {
                            Some(x) => x,
                            None => e,
                        }
                    },
                    None => v == match cell_of(old(table).columns@, row, e) {
                        Some(x) => x,
                        None => e,
                    },
                }
            }
        },
{
    let parsed = match parse_add(spec) {
        Ok(a) => a,
        Err(e) => return Err(e),
    };
    let ghost t0 = *table;
    let _nc = table.columns.len();
    let mut values: Vec<String> = Vec::new();
    let mut k: usize = 0;
    let whole = match split_once_trimmed(spec, '=') {
        Some((_, e)) => e,
        None => String::new(),
    };
    let binary = match &parsed.expr {
        AddExpr::Binary { lhs, op, rhs } => {
            let lc = column_opt(table, lhs.as_str());
            let rc = column_opt(table, rhs.as_str());
            (lc.is_some() || numeral(lhs.as_str())) && (rc.is_some() || numeral(rhs.as_str()))
        },
        AddExpr::Single(_) => false,
    };
    if !binary {
        values = single_values(table, &whole);
    } else {
    match &parsed.expr {
        AddExpr::Binary { lhs, op, rhs } => {
            let li = column_opt(table, lhs.as_str());
            let ri = column_opt(table, rhs.as_str());
            proof {
                crate::dtool::lemma_column_position(t0.columns@, lhs@, t0.columns@.len() as int);
                crate::dtool::lemma_column_position(t0.columns@, rhs@, t0.columns@.len() as int);
            }
            while k < table.rows.len()
                invariant
                    *table == t0,
                    rows_fit(t0),
                    forall|a: Option<&str>, x: &str, c: char, b: Option<&str>, y: &str| #[trigger] arith.requires((a, x, c, b, y)),
                    li matches Some(j) ==> j < t0.columns@.len(),
                    ri matches Some(j) ==> j < t0.columns@.len(),
                    _nc == t0.columns@.len(),
                    match column_position(t0.columns@, lhs@) { Some(j) => li == Some(j as usize) && 0 <= j < t0.columns@.len(), None => li is None },
                    match column_position(t0.columns@, rhs@) { Some(j) => ri == Some(j as usize) && 0 <= j < t0.columns@.len(), None => ri is None },
                    0 <= k <= t0.rows@.len(),
                    values@.len() == k,
                    forall|q: int| 0 <= q < k ==> arith_may_give(
                        arith,
                        cell_of(t0.columns@, t0.rows@[q]@, lhs@),
                        lhs@,
                        *op,
                        cell_of(t0.columns@, t0.rows@[q]@, rhs@),
                        rhs@,
                        #[trigger] values@[q]@,
                    ),
                decreases t0.rows@.len() - k,
            {
                let row = &table.rows[k];
                let a = cell_at(row, li);
                let b = cell_at(row, ri);
                let v = arith(a, lhs.as_str(), *op, b, rhs.as_str());
                proof {
                    assert(arith_may_give(
                        arith,
                        cell_of(t0.columns@, t0.rows@[k as int]@, lhs@),
                        lhs@,
                        *op,
                        cell_of(t0.columns@, t0.rows@[k as int]@, rhs@),
                        rhs@,
                        v@,
                    ));
                }
                values.push(v);
                k = k + 1;
            }
        },
        AddExpr::Single(_) => {},
    }
    }
    let mut rows: Vec<Vec<String>> = Vec::new();
    std::mem::swap(&mut rows, &mut table.rows);
    let ghost r0 = rows@;
    let mut out: Vec<Vec<String>> = Vec::new();
    let mut back: Vec<Vec<String>> = Vec::new();
    let n = rows.len();
    while rows.len() > 0
        invariant
            rows@ == r0.take(rows@.len() as int),
            rows@.len() + back@.len() == r0.len(),
            forall|q: int| 0 <= q < back@.len() ==> back@[q] == r0[r0.len() - 1 - q],
        decreases rows@.len(),
    {
        let row = rows.pop().unwrap();
        back.push(row);
    }
    let mut q: usize = 0;
    while back.len() > 0
        invariant
            q + back@.len() == r0.len(),
            r0.len() == n,
            values@.len() == n,
            forall|x: int| 0 <= x < back@.len() ==> back@[x] == r0[r0.len() - 1 - x],
            out@.len() == q,
            forall|x: int| 0 <= x < q ==> (#[trigger] out@[x])@ == r0[x]@.push(values@[x]),
        decreases back@.len(),
    {
        let mut row = back.pop().unwrap();
        assert(row == r0[q as int]);
        row.push(values[q].clone());
        out.push(row);
        q = q + 1;
    }
    table.rows = out;
    table.columns.push(parsed.name);
    proof {
        assert forall|k: int| 0 <= k < t0.rows@.len() implies strs((#[trigger] table.rows@[k])@) == strs(t0.rows@[k]@).push(
            table.rows@[k]@.last()@,
        ) by {
            assert(table.rows@[k]@ == t0.rows@[k]@.push(values@[k]));
            assert(strs(table.rows@[k]@) =~= strs(t0.rows@[k]@).push(values@[k]@));
        }
    }
    Ok(())
}

} // verus!
