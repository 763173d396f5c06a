use designkit::dtool::{self, ComputedColumnTransform, FilterTransform, SortTransform};
use designkit::table_cli;
use designkit::table_ops::{self, Order};
use std::cmp::Ordering;

fn order_of(o: Ordering) -> Order {
    match o {
        Ordering::Less => Order::Less,
        Ordering::Equal => Order::Equal,
        Ordering::Greater => Order::Greater,
    }
}

/// Numbers compare as numbers, anything else as text.
fn numeric_order(a: &str, b: &str) -> Order {
    match (a.parse::<f64>(), b.parse::<f64>()) {
        (Ok(x), Ok(y)) => order_of(x.partial_cmp(&y).unwrap_or(Ordering::Equal)),
        _ => order_of(a.cmp(b)),
    }
}

/// Numbers compare as numbers (not at all when unordered), anything else as text.
fn numeric_order_opt(a: &str, b: &str) -> Option<Order> {
    match (a.parse::<f64>(), b.parse::<f64>()) {
        (Ok(x), Ok(y)) => x.partial_cmp(&y).map(order_of),
        _ => Some(order_of(a.cmp(b))),
    }
}

fn whole_or_fraction(result: f64) -> String {
    if result.fract() == 0.0 && result.is_finite() {
        format!("{}", result as i64)
    } else {
        format!("{}", result)
    }
}

/// An operand's cell when it parses as a number, else the operand itself, else zero.
fn ops_arith(lc: Option<&str>, l: &str, op: char, rc: Option<&str>, r: &str) -> String {
    let lv: f64 = lc.and_then(|c| c.parse().ok()).or_else(|| l.parse().ok()).unwrap_or(0.0);
    let rv: f64 = rc.and_then(|c| c.parse().ok()).or_else(|| r.parse().ok()).unwrap_or(0.0);
    let result = match op {
        '+' => lv + rv,
        '-' => lv - rv,
        '*' => lv * rv,
        _ => {
            if rv == 0.0 {
                f64::NAN
            } else {
                lv / rv
            }
        }
    };
    whole_or_fraction(result)
}

fn cli_arith(l: &str, op: &str, r: &str) -> String {
    let lv = l.parse::<f64>().unwrap_or(0.0);
    let rv = r.parse::<f64>().unwrap_or(0.0);
    let result = match op {
        "+" => lv + rv,
        "-" => lv - rv,
        "*" => lv * rv,
        "/" => {
            if rv == 0.0 {
                f64::NAN
            } else {
                lv / rv
            }
        }
        _ => f64::NAN,
    };
    if result == result.floor() && result.is_finite() {
        format!("{}", result as i64)
    } else {
        format!("{result}")
    }
}

fn dtool_arith(l: &str, op: char, r: &str) -> String {
    let a: f64 = l.parse().unwrap_or(0.0);
    let b: f64 = r.parse().unwrap_or(0.0);
    match op {
        '+' => format!("{}", a + b),
        '-' => format!("{}", a - b),
        _ => format!("{}", a * b),
    }
}

fn ops_table() -> table_ops::Table {
    table_ops::Table {
        columns: vec!["name".into(), "age".into(), "city".into()],
        rows: vec![
            vec!["Alice".into(), "30".into(), "NYC".into()],
            vec!["Bob".into(), "25".into(), "LA".into()],
            vec!["Charlie".into(), "35".into(), "NYC".into()],
            vec!["Diana".into(), "28".into(), "Chicago".into()],
        ],
    }
}

fn cli_table() -> table_cli::Table {
    table_cli::Table {
        columns: vec!["name".into(), "age".into(), "score".into()],
        rows: vec![
            vec!["Alice".into(), "30".into(), "85".into()],
            vec!["Bob".into(), "25".into(), "92".into()],
            vec!["Charlie".into(), "35".into(), "78".into()],
            vec!["Diana".into(), "28".into(), "95".into()],
        ],
    }
}

fn dtool_data() -> dtool::DataFrame {
    dtool::DataFrame {
        columns: vec!["name".to_string(), "age".to_string(), "city".to_string()],
        rows: vec![
            vec!["Alice".to_string(), "30".to_string(), "London".to_string()],
            vec!["Bob".to_string(), "25".to_string(), "Paris".to_string()],
            vec!["Charlie".to_string(), "35".to_string(), "London".to_string()],
            vec!["Diana".to_string(), "28".to_string(), "Berlin".to_string()],
        ],
    }
}

// The processor with its own option scanner.

#[test]
fn test_filter_greater_than() {
    let mut t = ops_table();
    table_ops::apply_filter(&mut t, "age>28", numeric_order).unwrap();
    assert_eq!(t.rows.len(), 2);
    assert_eq!(t.rows[0][0], "Alice");
    assert_eq!(t.rows[1][0], "Charlie");
}

#[test]
fn test_filter_equals() {
    let mut t = ops_table();
    table_ops::apply_filter(&mut t, "city=NYC", numeric_order).unwrap();
    assert_eq!(t.rows.len(), 2);
}

#[test]
fn test_filter_not_equals() {
    let mut t = ops_table();
    table_ops::apply_filter(&mut t, "city!=NYC", numeric_order).unwrap();
    assert_eq!(t.rows.len(), 2);
    assert_eq!(t.rows[0][0], "Bob");
    assert_eq!(t.rows[1][0], "Diana");
}

#[test]
fn test_filter_contains() {
    let mut t = ops_table();
    table_ops::apply_filter(&mut t, "name~li", numeric_order).unwrap();
    assert_eq!(t.rows.len(), 2);
}

#[test]
fn test_sort_by_string() {
    let mut t = ops_table();
    table_ops::apply_sort(&mut t, "name", numeric_order).unwrap();
    let names: Vec<&str> = t.rows.iter().map(|r| r[0].as_str()).collect();
    assert_eq!(names, vec!["Alice", "Bob", "Charlie", "Diana"]);
}

#[test]
fn test_sort_by_numeric() {
    let mut t = ops_table();
    table_ops::apply_sort(&mut t, "age", numeric_order).unwrap();
    let ages: Vec<&str> = t.rows.iter().map(|r| r[1].as_str()).collect();
    assert_eq!(ages, vec!["25", "28", "30", "35"]);
}

#[test]
fn test_rename() {
    let mut t = ops_table();
    table_ops::apply_rename(&mut t, "name:full_name").unwrap();
    assert_eq!(t.columns[0], "full_name");
}

#[test]
fn test_add_computed_column() {
    let mut t = table_ops::Table {
        columns: vec!["a".into(), "b".into()],
        rows: vec![vec!["10".into(), "3".into()], vec!["20".into(), "7".into()]],
    };
    table_ops::apply_add(&mut t, "sum=a+b", ops_arith).unwrap();
    assert_eq!(t.columns.len(), 3);
    assert_eq!(t.columns[2], "sum");
    assert_eq!(t.rows[0][2], "13");
    assert_eq!(t.rows[1][2], "27");
}

#[test]
fn test_add_column_with_literal() {
    let mut t = ops_table();
    table_ops::apply_add(&mut t, "status=active", ops_arith).unwrap();
    assert_eq!(t.columns.last().unwrap(), "status");
    assert!(t.rows.iter().all(|r| r.last().unwrap() == "active"));
}

#[test]
fn test_add_multiply() {
    let mut t = table_ops::Table { columns: vec!["price".into(), "qty".into()], rows: vec![vec!["5".into(), "4".into()]] };
    table_ops::apply_add(&mut t, "total=price*qty", ops_arith).unwrap();
    assert_eq!(t.rows[0][2], "20");
}

#[test]
fn test_filter_invalid_column() {
    let mut t = ops_table();
    assert!(table_ops::apply_filter(&mut t, "nonexistent>5", numeric_order).is_err());
}

#[test]
fn test_format_detection() {
    assert_eq!(table_ops::detect_format("data.csv").unwrap(), table_ops::Format::Csv);
    assert_eq!(table_ops::detect_format("data.json").unwrap(), table_ops::Format::Json);
    assert_eq!(table_ops::detect_format("data.yaml").unwrap(), table_ops::Format::Yaml);
    assert_eq!(table_ops::detect_format("data.yml").unwrap(), table_ops::Format::Yaml);
    assert!(table_ops::detect_format("data.txt").is_err());
    assert!(table_ops::detect_format("noext").is_err());
}

#[test]
fn test_pipeline_filter_then_sort() {
    let mut t = ops_table();
    table_ops::apply_filter(&mut t, "age>25", numeric_order).unwrap();
    table_ops::apply_sort(&mut t, "age", numeric_order).unwrap();
    let names: Vec<&str> = t.rows.iter().map(|r| r[0].as_str()).collect();
    assert_eq!(names, vec!["Diana", "Alice", "Charlie"]);
}

#[test]
fn test_filter_less_than_or_equal() {
    let mut t = ops_table();
    table_ops::apply_filter(&mut t, "age<=28", numeric_order).unwrap();
    assert_eq!(t.rows.len(), 2);
    let names: Vec<&str> = t.rows.iter().map(|r| r[0].as_str()).collect();
    assert_eq!(names, vec!["Bob", "Diana"]);
}

#[test]
fn test_add_division() {
    let mut t = table_ops::Table { columns: vec!["a".into(), "b".into()], rows: vec![vec!["10".into(), "4".into()]] };
    table_ops::apply_add(&mut t, "ratio=a/b", ops_arith).unwrap();
    assert_eq!(t.rows[0][2], "2.5");
}

#[test]
fn test_add_column_literal_number() {
    let mut t = table_ops::Table { columns: vec!["a".into()], rows: vec![vec!["10".into()], vec!["20".into()]] };
    table_ops::apply_add(&mut t, "bonus=a+100", ops_arith).unwrap();
    assert_eq!(t.rows[0][1], "110");
    assert_eq!(t.rows[1][1], "120");
}

// The tool with a reader and a writer per format.

#[test]
fn solution_test_filter_contains() {
    let filter = FilterTransform::parse("name~li").unwrap();
    let result = filter.apply(dtool_data(), numeric_order_opt).unwrap();
    assert_eq!(result.rows.len(), 2);
}

#[test]
fn test_sort_ascending_string() {
    let sort = SortTransform::parse("name");
    let result = sort.apply(dtool_data(), numeric_order).unwrap();
    assert_eq!(result.rows[0][0], "Alice");
    assert_eq!(result.rows[1][0], "Bob");
    assert_eq!(result.rows[2][0], "Charlie");
    assert_eq!(result.rows[3][0], "Diana");
}

#[test]
fn test_sort_descending_numeric() {
    let sort = SortTransform::parse("-age");
    let result = sort.apply(dtool_data(), numeric_order).unwrap();
    assert_eq!(result.rows[0][0], "Charlie");
    assert_eq!(result.rows[1][0], "Alice");
}

#[test]
fn test_computed_add() {
    let mut data = dtool_data();
    data.columns.push("score".to_string());
    for row in &mut data.rows {
        row.push("10".to_string());
    }
    let compute = ComputedColumnTransform::parse("total=age+score").unwrap();
    let result = compute.apply(data, dtool_arith).unwrap();
    assert_eq!(result.columns.last().unwrap(), "total");
    assert_eq!(result.rows[0].last().unwrap(), "40");
}

#[test]
fn test_computed_concat() {
    let compute = ComputedColumnTransform::parse("label=name&city").unwrap();
    let result = compute.apply(dtool_data(), dtool_arith).unwrap();
    assert_eq!(result.rows[0].last().unwrap(), "AliceLondon");
}

#[test]
fn test_pipeline_composition() {
    let data = dtool_data();
    let filter = FilterTransform::parse("age>27").unwrap();
    let sort = SortTransform::parse("name");
    let result = filter.apply(data, numeric_order_opt).unwrap();
    let result = sort.apply(result, numeric_order).unwrap();
    assert_eq!(result.rows.len(), 3);
    assert_eq!(result.rows[0][0], "Alice");
    assert_eq!(result.rows[1][0], "Charlie");
    assert_eq!(result.rows[2][0], "Diana");
}

#[test]
fn test_filter_unknown_column() {
    let filter = FilterTransform::parse("nonexistent>5").unwrap();
    assert!(filter.apply(dtool_data(), numeric_order_opt).is_err());
}

// The processor with clap options (and the same filters on the tool above).

#[test]
fn solution_test_filter_greater_than() {
    let mut t = cli_table();
    table_cli::apply_filter(&mut t, "age>28", numeric_order).unwrap().unwrap();
    assert_eq!(t.rows.len(), 2);
    assert_eq!(t.rows[0][0], "Alice");
    assert_eq!(t.rows[1][0], "Charlie");

    let result = FilterTransform::parse("age>28").unwrap().apply(dtool_data(), numeric_order_opt).unwrap();
    assert_eq!(result.rows.len(), 2);
    assert_eq!(result.rows[0][0], "Alice");
    assert_eq!(result.rows[1][0], "Charlie");
}

#[test]
fn solution_test_filter_equals() {
    let mut t = cli_table();
    table_cli::apply_filter(&mut t, "name==Bob", numeric_order).unwrap().unwrap();
    assert_eq!(t.rows.len(), 1);
    assert_eq!(t.rows[0][1], "25");

    let result = FilterTransform::parse("city=London").unwrap().apply(dtool_data(), numeric_order_opt).unwrap();
    assert_eq!(result.rows.len(), 2);
}

#[test]
fn solution_test_filter_not_equals() {
    let mut t = cli_table();
    table_cli::apply_filter(&mut t, "name!=Alice", numeric_order).unwrap().unwrap();
    assert_eq!(t.rows.len(), 3);

    let result = FilterTransform::parse("city!=London").unwrap().apply(dtool_data(), numeric_order_opt).unwrap();
    assert_eq!(result.rows.len(), 2);
    assert_eq!(result.rows[0][2], "Paris");
    assert_eq!(result.rows[1][2], "Berlin");
}

#[test]
fn solution_test_sort_by_name() {
    let mut t = cli_table();
    table_cli::apply_sort(&mut t, "name", numeric_order).unwrap();
    let names: Vec<&str> = t.rows.iter().map(|r| r[0].as_str()).collect();
    assert_eq!(names, vec!["Alice", "Bob", "Charlie", "Diana"]);
}

#[test]
fn test_sort_by_age_numeric() {
    let mut t = cli_table();
    table_cli::apply_sort(&mut t, "age", numeric_order).unwrap();
    let ages: Vec<&str> = t.rows.iter().map(|r| r[1].as_str()).collect();
    assert_eq!(ages, vec!["25", "28", "30", "35"]);
}

#[test]
fn solution_test_add_computed_column() {
    let mut t = cli_table();
    table_cli::apply_add(&mut t, "total=age+score", cli_arith).unwrap().unwrap();
    assert_eq!(t.columns.len(), 4);
    assert_eq!(t.columns[3], "total");
    assert_eq!(t.rows[0][3], "115");
}

#[test]
fn test_add_constant_column() {
    let mut t = cli_table();
    table_cli::apply_add(&mut t, "status=active", cli_arith).unwrap().unwrap();
    assert_eq!(t.columns.last().unwrap(), "status");
    for row in &t.rows {
        assert_eq!(row.last().unwrap(), "active");
    }
}

#[test]
fn solution_test_filter_less_than_or_equal() {
    let mut t = cli_table();
    table_cli::apply_filter(&mut t, "score<=85", numeric_order).unwrap().unwrap();
    assert_eq!(t.rows.len(), 2);
}

// The processor whose rows map column names to values.

use designkit::dataframe::FilterOp as Op;
use designkit::dataframe::{self, AddColumnTransform, RenameTransform};
use designkit::fields::Fields;

fn frame() -> dataframe::DataFrame {
    let columns = vec!["name".to_string(), "age".to_string(), "city".to_string()];
    let rows = [("Alice", "30", "NYC"), ("Bob", "25", "LA"), ("Charlie", "35", "NYC")]
        .iter()
        .map(|(n, a, c)| {
            let mut f = Fields::new();
            f.insert("name", n);
            f.insert("age", a);
            f.insert("city", c);
            f
        })
        .collect();
    dataframe::DataFrame::new(columns, rows)
}

fn field<'a>(row: &'a Fields, key: &str) -> &'a str {
    row.get(key).unwrap().as_str()
}

/// Numbers compare as numbers (equal within machine epsilon), anything else as text.
fn frame_compare(op: dataframe::FilterOp, left: &str, right: &str) -> bool {
    if let (Ok(l), Ok(r)) = (left.parse::<f64>(), right.parse::<f64>()) {
        return match op {
            Op::Gt => l > r,
            Op::Lt => l < r,
            Op::Ge => l >= r,
            Op::Le => l <= r,
            Op::Eq => (l - r).abs() < f64::EPSILON,
            Op::Ne => (l - r).abs() >= f64::EPSILON,
        };
    }
    let ord = left.cmp(right);
    match op {
        Op::Gt => ord == Ordering::Greater,
        Op::Lt => ord == Ordering::Less,
        Op::Ge => ord != Ordering::Less,
        Op::Le => ord != Ordering::Greater,
        Op::Eq => ord == Ordering::Equal,
        Op::Ne => ord != Ordering::Equal,
    }
}

fn is_number(v: &str) -> bool {
    v.parse::<f64>().is_ok()
}

fn frame_sum(values: &Vec<String>) -> String {
    whole_or_fraction(values.iter().filter_map(|v| v.parse::<f64>().ok()).sum())
}

fn frame_arith(l: &str, op: char, r: &str) -> Result<String, String> {
    let lv: f64 = l.parse().map_err(|_| "not a number".to_string())?;
    let rv: f64 = r.parse().map_err(|_| "not a number".to_string())?;
    match op {
        '+' => Ok(whole_or_fraction(lv + rv)),
        '-' => Ok(whole_or_fraction(lv - rv)),
        '*' => Ok(whole_or_fraction(lv * rv)),
        _ => Ok(whole_or_fraction(lv / rv)),
    }
}

#[test]
fn test_filter_gt() {
    let t = dataframe::FilterTransform::parse("age>28").unwrap();
    let result = t.apply(frame(), frame_compare).unwrap();
    assert_eq!(result.rows.len(), 2);
    assert_eq!(field(&result.rows[0], "name"), "Alice");
    assert_eq!(field(&result.rows[1], "name"), "Charlie");
}

#[test]
fn test_filter_eq() {
    let t = dataframe::FilterTransform::parse("city==NYC").unwrap();
    let result = t.apply(frame(), frame_compare).unwrap();
    assert_eq!(result.rows.len(), 2);
}

#[test]
fn test_filter_ne() {
    let t = dataframe::FilterTransform::parse("city!=NYC").unwrap();
    let result = t.apply(frame(), frame_compare).unwrap();
    assert_eq!(result.rows.len(), 1);
    assert_eq!(field(&result.rows[0], "name"), "Bob");
}

#[test]
fn test_sort_by_name() {
    let t = dataframe::SortTransform { column: "name".to_string() };
    let result = t.apply(frame(), numeric_order).unwrap();
    let names: Vec<&str> = result.rows.iter().map(|r| field(r, "name")).collect();
    assert_eq!(names, vec!["Alice", "Bob", "Charlie"]);
}

#[test]
fn test_sort_numeric() {
    let t = dataframe::SortTransform { column: "age".to_string() };
    let result = t.apply(frame(), numeric_order).unwrap();
    let ages: Vec<&str> = result.rows.iter().map(|r| field(r, "age")).collect();
    assert_eq!(ages, vec!["25", "30", "35"]);
}

#[test]
fn test_add_column_literal() {
    let t = AddColumnTransform::parse("status:=active").unwrap();
    let result = t.apply(frame(), is_number, frame_sum, frame_arith).unwrap();
    assert!(result.columns.contains(&"status".to_string()));
    assert_eq!(field(&result.rows[0], "status"), "active");
}

#[test]
fn test_add_column_concat() {
    let t = AddColumnTransform::parse("label:name+city").unwrap();
    let result = t.apply(frame(), is_number, frame_sum, frame_arith).unwrap();
    assert_eq!(field(&result.rows[0], "label"), "Alice NYC");
}

#[test]
fn test_pipeline() {
    let df = dataframe::FilterTransform::parse("age>28").unwrap().apply(frame(), frame_compare).unwrap();
    let df = dataframe::SortTransform { column: "name".to_string() }.apply(df, numeric_order).unwrap();
    let result = RenameTransform::parse("name:person").unwrap().apply(df).unwrap();
    assert_eq!(result.rows.len(), 2);
    assert!(result.columns.contains(&"person".to_string()));
    let names: Vec<&str> = result.rows.iter().map(|r| field(r, "person")).collect();
    assert_eq!(names, vec!["Alice", "Charlie"]);
}

#[test]
fn test_filter_missing_column() {
    let t = dataframe::FilterTransform::parse("nonexistent>5").unwrap();
    assert!(t.apply(frame(), frame_compare).is_err());
}

#[test]
fn add_literal_with_operator_character() {
    let mut t = table_ops::Table { columns: vec!["a".into()], rows: vec![vec!["1".into()]] };
    table_ops::apply_add(&mut t, "label=well-known", ops_arith).unwrap();
    assert_eq!(t.rows[0], vec!["1".to_string(), "well-known".to_string()]);
    let mut t = table_ops::Table { columns: vec!["a".into()], rows: vec![vec!["1".into()]] };
    table_ops::apply_add(&mut t, "b=a-1", ops_arith).unwrap();
    assert_eq!(t.rows[0][1], "0");
}
