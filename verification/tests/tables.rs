use designkit::dataframe::{
    AddColumnTransform, CliArgs, ComputedExpr, DataFrame, FilterOp, FilterTransform, Format, RenameTransform,
    SortTransform, Step,
};
use designkit::fields::Fields;
use designkit::{dtool, table_cli, table_ops};

fn row(pairs: &[(&str, &str)]) -> Fields {
    let mut f = Fields::new();
    for (k, v) in pairs {
        f.insert(k, v);
    }
    f
}

fn sample_df() -> DataFrame {
    let columns = vec!["name".to_string(), "age".to_string(), "city".to_string()];
    let rows = vec![
        row(&[("name", "Alice"), ("age", "30"), ("city", "NYC")]),
        row(&[("name", "Bob"), ("age", "25"), ("city", "LA")]),
        row(&[("name", "Charlie"), ("age", "35"), ("city", "NYC")]),
    ];
    DataFrame::new(columns, rows)
}

fn sample_ops_table() -> table_ops::Table {
    table_ops::Table {
        columns: vec!["name".into(), "age".into(), "city".into()],
        rows: vec![
            vec!["Alice".into(), "30".into(), "NYC".into()],
            vec!["Bob".into(), "25".into(), "LA".into()],
            vec!["Charlie".into(), "35".into(), "NYC".into()],
            vec!["Diana".into(), "28".into(), "Chicago".into()],
        ],
    }
}

fn sample_cli_table() -> table_cli::Table {
    table_cli::Table {
        columns: vec!["name".into(), "age".into(), "score".into()],
        rows: vec![
            vec!["Alice".into(), "30".into(), "85".into()],
            vec!["Bob".into(), "25".into(), "92".into()],
            vec!["Charlie".into(), "35".into(), "78".into()],
            vec!["Diana".into(), "28".into(), "95".into()],
        ],
    }
}

fn sample_dtool_data() -> dtool::DataFrame {
    dtool::DataFrame {
        columns: vec!["name".to_string(), "age".to_string(), "city".to_string()],
        rows: vec![
            vec!["Alice".to_string(), "30".to_string(), "London".to_string()],
            vec!["Bob".to_string(), "25".to_string(), "Paris".to_string()],
            vec!["Charlie".to_string(), "35".to_string(), "London".to_string()],
            vec!["Diana".to_string(), "28".to_string(), "Berlin".to_string()],
        ],
    }
}

fn args(items: &[&str]) -> Vec<String> {
    items.iter().map(|s| s.to_string()).collect()
}

#[test]
fn solution_test_format_detection() {
    assert_eq!(Format::from_path("data.csv").unwrap(), Format::Csv);
    assert_eq!(Format::from_path("data.json").unwrap(), Format::Json);
    assert_eq!(Format::from_path("data.yaml").unwrap(), Format::Yaml);
    assert_eq!(Format::from_path("data.yml").unwrap(), Format::Yaml);
    assert!(Format::from_path("data.xml").is_err());
    assert!(Format::from_path("noext").is_err());

    assert_eq!(table_ops::detect_format("data.csv").unwrap(), table_ops::Format::Csv);
    assert_eq!(table_ops::detect_format("data.json").unwrap(), table_ops::Format::Json);
    assert_eq!(table_ops::detect_format("data.yaml").unwrap(), table_ops::Format::Yaml);
    assert_eq!(table_ops::detect_format("data.yml").unwrap(), table_ops::Format::Yaml);
    assert!(table_ops::detect_format("data.txt").is_err());
    assert!(table_ops::detect_format("noext").is_err());

    assert_eq!(table_cli::detect_format("data.csv").unwrap(), table_cli::Format::Csv);
    assert_eq!(table_cli::detect_format("data.json").unwrap(), table_cli::Format::Json);
    assert_eq!(table_cli::detect_format("data.yaml").unwrap(), table_cli::Format::Yaml);
    assert_eq!(table_cli::detect_format("data.yml").unwrap(), table_cli::Format::Yaml);
    assert!(table_cli::detect_format("data.txt").is_err());
}

#[test]
fn solution_test_rename() {
    let df = sample_df();
    let t = RenameTransform::parse("name:full_name").unwrap();
    let result = t.apply(df).unwrap();
    assert!(result.columns.contains(&"full_name".to_string()));
    assert!(!result.columns.contains(&"name".to_string()));
    assert_eq!(result.rows[0].get("full_name").unwrap(), "Alice");

    let mut t = sample_ops_table();
    table_ops::apply_rename(&mut t, "name:full_name").unwrap();
    assert_eq!(t.columns[0], "full_name");

    let data = sample_dtool_data();
    let rename = dtool::RenameTransform::parse("name:full_name").unwrap();
    let result = rename.apply(data).unwrap();
    assert_eq!(result.columns[0], "full_name");
}

#[test]
fn test_rename_duplicate_target() {
    let df = sample_df();
    let t = RenameTransform::parse("name:age").unwrap();
    let result = t.apply(df);
    assert!(result.is_err());
}

#[test]
fn test_rename_invalid_column() {
    let mut t = sample_ops_table();
    assert!(table_ops::apply_rename(&mut t, "nonexistent:new").is_err());
}

#[test]
fn test_rename_column() {
    let mut t = sample_cli_table();
    table_cli::apply_rename(&mut t, "name:full_name").unwrap();
    assert_eq!(t.columns[0], "full_name");
}

#[test]
fn test_rename_invalid_spec() {
    let mut t = sample_cli_table();
    assert!(table_cli::apply_rename(&mut t, "no_colon").is_err());
}

#[test]
fn test_col_index_missing() {
    let t = sample_cli_table();
    assert!(t.col_index("nonexistent").is_err());
}

#[test]
fn dataframe_format_errors_and_names() {
    assert_eq!(
        Format::from_path("noext").unwrap_err().to_string(),
        "Cannot determine format \u{2014} file has no extension"
    );
    assert_eq!(Format::from_path("data.XML").unwrap_err().to_string(), "Unsupported file extension: .xml");
    assert_eq!(Format::from_path("DATA.CSV").unwrap(), Format::Csv);
    assert_eq!(Format::Csv.to_string(), "CSV");
    assert_eq!(Format::Json.to_string(), "JSON");
    assert_eq!(Format::Yaml.to_string(), "YAML");
}

#[test]
fn dataframe_filter_parse() {
    let f = FilterTransform::parse("age>=30").unwrap();
    assert_eq!(f.column, "age");
    assert_eq!(f.op, FilterOp::Ge);
    assert_eq!(f.value, "30");
    assert_eq!(f.to_string(), "filter(age>=30)");
    let f = FilterTransform::parse(" name == Alice ").unwrap();
    assert_eq!(f.column, "name");
    assert_eq!(f.op, FilterOp::Eq);
    assert_eq!(f.value, "Alice");
    assert_eq!(
        FilterTransform::parse("age").unwrap_err().to_string(),
        "Cannot parse filter expression 'age'. Expected format: column>value, column==value, etc."
    );
    assert_eq!(
        FilterTransform::parse(">5").unwrap_err().to_string(),
        "Invalid filter expression (empty column or value): '>5'"
    );
}

#[test]
fn dataframe_rename_parse_and_display() {
    let t = RenameTransform::parse(" a : b ").unwrap();
    assert_eq!(t.old_name, "a");
    assert_eq!(t.new_name, "b");
    assert_eq!(t.to_string(), "rename(a -> b)");
    assert_eq!(
        RenameTransform::parse("ab").unwrap_err().to_string(),
        "Invalid rename spec 'ab'. Expected format: old_name:new_name"
    );
    let missing = RenameTransform::parse("zip:code").unwrap().apply(sample_df());
    assert!(missing.is_err());
    let s = SortTransform { column: "age".to_string() };
    assert_eq!(s.to_string(), "sort(age)");
}

#[test]
fn dataframe_rename_keeps_other_cells() {
    let t = RenameTransform::parse("city:town").unwrap();
    let result = t.apply(sample_df()).unwrap();
    assert_eq!(result.columns, vec!["name".to_string(), "age".to_string(), "town".to_string()]);
    assert_eq!(result.rows[2].get("town").unwrap(), "NYC");
    assert_eq!(result.rows[2].get("name").unwrap(), "Charlie");
    assert!(result.rows[2].get("city").is_none());
}

#[test]
fn dataframe_add_column_parse() {
    let t = AddColumnTransform::parse("status:=active").unwrap();
    assert_eq!(t.new_column, "status");
    assert!(matches!(t.expression, ComputedExpr::Literal(ref v) if v == "active"));
    let t = AddColumnTransform::parse("label:name + city").unwrap();
    match t.expression {
        ComputedExpr::Concat(v) => assert_eq!(v, vec!["name".to_string(), "city".to_string()]),
        _ => panic!("expected a concatenation"),
    }
    let t = AddColumnTransform::parse("ratio:a / b").unwrap();
    assert!(matches!(t.expression, ComputedExpr::Arithmetic { ref left, op: '/', ref right } if left == "a" && right == "b"));
    let t = AddColumnTransform::parse("diff:a-b").unwrap();
    assert!(matches!(t.expression, ComputedExpr::Arithmetic { op: '-', .. }));
    assert_eq!(
        AddColumnTransform::parse("x:name").unwrap_err().to_string(),
        "Cannot parse computed-column expression 'name'. Use col1+col2 (concat/add), col1*col2 (math), or =\"literal\"."
    );
    assert_eq!(
        AddColumnTransform::parse("nocolon").unwrap_err().to_string(),
        "Invalid add-column spec 'nocolon'. Expected format: new_col:expression"
    );
}

#[test]
fn dataframe_parse_from_full() {
    let cli = CliArgs::parse_from(&args(&[
        "dtool", "in.csv", "--filter", "age>30", "--sort", "name", "--rename", "a:b", "--add-column", "c:=1",
        "-o", "out.json",
    ]))
    .unwrap();
    assert_eq!(cli.input_path, "in.csv");
    assert_eq!(cli.output_path.as_deref(), Some("out.json"));
    assert_eq!(cli.steps.len(), 4);
    assert!(matches!(cli.steps[0], Step::Filter(_)));
    assert!(matches!(cli.steps[1], Step::Sort(ref s) if s.column == "name"));
    assert!(matches!(cli.steps[2], Step::Rename(_)));
    assert!(matches!(cli.steps[3], Step::AddColumn(_)));
}

#[test]
fn dataframe_parse_from_errors() {
    assert_eq!(
        CliArgs::parse_from(&args(&["dtool"])).unwrap_err().to_string(),
        "Usage: dtool <input> [--filter EXPR] [--sort COL] [--rename OLD:NEW] [--add-column NAME:EXPR] [--output PATH]"
    );
    assert_eq!(
        CliArgs::parse_from(&args(&["dtool", "a.csv", "--bogus"])).unwrap_err().to_string(),
        "Unknown argument: '--bogus'"
    );
    assert_eq!(
        CliArgs::parse_from(&args(&["dtool", "a.csv", "--sort"])).unwrap_err().to_string(),
        "--sort requires an argument"
    );
    assert_eq!(
        CliArgs::parse_from(&args(&["dtool", "a.csv", "--output"])).unwrap_err().to_string(),
        "--output requires a path"
    );
    assert_eq!(
        CliArgs::parse_from(&args(&["dtool", "a.csv", "--rename", "ab"])).unwrap_err().to_string(),
        "Invalid rename spec 'ab'. Expected format: old_name:new_name"
    );
}

#[test]
fn table_ops_rename_error_lists_columns() {
    let mut t = sample_ops_table();
    let e = table_ops::apply_rename(&mut t, "zip:code").unwrap_err();
    assert_eq!(e.to_string(), "column 'zip' not found (available: [\"name\", \"age\", \"city\"])");
    assert_eq!(t.columns[0], "name");
}

#[test]
fn table_cli_index_and_errors() {
    let t = sample_cli_table();
    assert_eq!(t.col_index("score").unwrap(), 2);
    assert_eq!(
        t.col_index("zip").unwrap_err().to_string(),
        "Column 'zip' not found. Available: [\"name\", \"age\", \"score\"]"
    );
    assert_eq!(table_cli::detect_format("data.tsv").unwrap(), table_cli::Format::Csv);
}

#[test]
fn table_ops_parse_filter_picks_first_operator_in_order() {
    let f = table_ops::parse_filter(" age >= 30 ").unwrap();
    assert_eq!((f.column.as_str(), f.op, f.value.as_str()), ("age", table_ops::FilterOp::Ge, "30"));
    let f = table_ops::parse_filter("name~li").unwrap();
    assert_eq!((f.column.as_str(), f.op, f.value.as_str()), ("name", table_ops::FilterOp::Contains, "li"));
    // `>` is looked for before `=`, wherever each stands.
    let f = table_ops::parse_filter("a=b>c").unwrap();
    assert_eq!((f.column.as_str(), f.op, f.value.as_str()), ("a=b", table_ops::FilterOp::Gt, "c"));
    let e = table_ops::parse_filter("age").unwrap_err();
    assert_eq!(
        e.to_string(),
        "invalid filter expression: 'age'. Use column<op>value where op is one of =, !=, >, <, >=, <=, ~"
    );
}

#[test]
fn table_ops_keeps_by_text_and_order() {
    let f = table_ops::parse_filter("city=NYC").unwrap();
    assert!(table_ops::keeps(&f, "NYC", table_ops::Order::Less));
    assert!(!table_ops::keeps(&f, "LA", table_ops::Order::Equal));
    let f = table_ops::parse_filter("name~li").unwrap();
    assert!(table_ops::keeps(&f, "Alice", table_ops::Order::Less));
    assert!(!table_ops::keeps(&f, "Bob", table_ops::Order::Less));
    let f = table_ops::parse_filter("age<=28").unwrap();
    assert!(table_ops::keeps(&f, "28", table_ops::Order::Equal));
    assert!(!table_ops::keeps(&f, "30", table_ops::Order::Greater));
}

#[test]
fn table_ops_parse_add_forms() {
    let a = table_ops::parse_add("total = price*qty").unwrap();
    assert_eq!(a.name, "total");
    match a.expr {
        table_ops::AddExpr::Binary { lhs, op, rhs } => assert_eq!((lhs.as_str(), op, rhs.as_str()), ("price", '*', "qty")),
        other => panic!("unexpected {:?}", other),
    }
    let a = table_ops::parse_add("bonus=a+100").unwrap();
    match a.expr {
        table_ops::AddExpr::Binary { lhs, op, rhs } => assert_eq!((lhs.as_str(), op, rhs.as_str()), ("a", '+', "100")),
        other => panic!("unexpected {:?}", other),
    }
    // A leading minus sign belongs to the operand.
    match table_ops::parse_add("neg=-5").unwrap().expr {
        table_ops::AddExpr::Single(v) => assert_eq!(v, "-5"),
        other => panic!("unexpected {:?}", other),
    }
    assert_eq!(
        table_ops::parse_add("total").unwrap_err().to_string(),
        "add format must be 'new_col=expr', got 'total'"
    );
}

#[test]
fn table_cli_parse_filter_by_pattern() {
    let f = table_cli::parse_filter("age>28").unwrap().unwrap();
    assert_eq!((f.column.as_str(), f.op, f.target.as_str()), ("age", table_cli::CmpOp::Gt, "28"));
    let f = table_cli::parse_filter("name == Bob ").unwrap().unwrap();
    assert_eq!((f.column.as_str(), f.op, f.target.as_str()), ("name", table_cli::CmpOp::Eq, "Bob"));
    let f = table_cli::parse_filter("score<=85").unwrap().unwrap();
    assert_eq!(f.op, table_cli::CmpOp::Le);
    let e = table_cli::parse_filter("not a filter").unwrap().unwrap_err();
    assert_eq!(e.to_string(), "Invalid filter expression: 'not a filter'. Expected format: column>value");
    assert!(table_cli::keeps(table_cli::CmpOp::Ge, table_ops::Order::Equal));
    assert!(!table_cli::keeps(table_cli::CmpOp::Ne, table_ops::Order::Equal));
    assert!(table_cli::keeps(table_cli::CmpOp::Any, table_ops::Order::Less));
}

#[test]
fn table_cli_parse_add_by_pattern() {
    let a = table_cli::parse_add("total=age+score").unwrap().unwrap();
    assert_eq!(a.name, "total");
    match a.expr {
        table_cli::CliAddExpr::Binary { left, op, right } => {
            assert_eq!((left.as_str(), op.as_str(), right.as_str()), ("age", "+", "score"))
        }
        other => panic!("unexpected {:?}", other),
    }
    match table_cli::parse_add(" status = active ").unwrap().unwrap().expr {
        table_cli::CliAddExpr::Constant(v) => assert_eq!(v, "active"),
        other => panic!("unexpected {:?}", other),
    }
    assert_eq!(
        table_cli::parse_add("novalue").unwrap().unwrap_err().to_string(),
        "Invalid add spec: 'novalue'. Expected 'new_col=expression'"
    );
}

#[test]
fn dtool_csv_text_reads_and_writes() {
    let d = dtool::parse_csv("name, age\nAlice, 30\n\n  \nBob,25\r\n").unwrap();
    assert_eq!(d.columns, vec!["name", "age"]);
    assert_eq!(d.rows, vec![vec!["Alice", "30"], vec!["Bob", "25"]]);
    assert_eq!(dtool::write_csv_text(&d), "name,age\nAlice,30\nBob,25\n");
    assert_eq!(dtool::parse_csv("").unwrap_err().to_string(), "CSV file is empty");
    let one = dtool::parse_csv("a,,b").unwrap();
    assert_eq!(one.columns, vec!["a", "", "b"]);
    assert!(one.rows.is_empty());
}

#[test]
fn grid_from_records_orders_columns_by_first_sight() {
    let rec = |pairs: &[(&str, Option<&str>)]| -> Vec<table_ops::RecordEntry> {
        pairs.iter().map(|(k, v)| (k.to_string(), v.map(|x| x.to_string()))).collect()
    };
    let records = vec![
        rec(&[("name", Some("Alice")), ("age", Some("30"))]),
        rec(&[("age", Some("25")), ("city", Some("LA")), ("name", Some("Bob"))]),
        rec(&[("1", None)]),
        Vec::new(),
    ];
    let (columns, rows) = table_ops::grid_from_records(&records);
    assert_eq!(columns, vec!["name", "age", "city", "1"]);
    assert_eq!(
        rows,
        vec![
            vec!["Alice", "30", "", ""],
            vec!["Bob", "25", "LA", ""],
            vec!["", "", "", ""],
            vec!["", "", "", ""],
        ]
    );
}

#[test]
fn table_display_frames_cells() {
    let t = table_ops::Table {
        columns: vec!["name".into(), "age".into()],
        rows: vec![vec!["Alice".into(), "30".into()], vec!["Bo".into()]],
    };
    assert_eq!(
        table_ops::table_display(&t),
        vec![" name  | age ", "-------+-----", " Alice | 30  ", " Bo    "]
    );
}

#[test]
fn add_column_arithmetic_operand_errors() {
    let numeric = |s: &str| s.parse::<f64>().is_ok();
    let sum = |v: &Vec<String>| v.join("+");
    let arith = |a: &str, op: char, b: &str| -> Result<String, String> { Ok(format!("{a}{op}{b}")) };
    let t = AddColumnTransform::parse("x:age * zip").unwrap();
    let err = t.apply(sample_df(), numeric, sum, arith).unwrap_err();
    assert_eq!(err.to_string(), "Column 'zip' not found");
    let t = AddColumnTransform::parse("x:age * name").unwrap();
    let err = t.apply(sample_df(), numeric, sum, arith).unwrap_err();
    assert_eq!(err.to_string(), "Column 'name' is not numeric");
    let t = AddColumnTransform::parse("x:age * age").unwrap();
    let df = t.apply(sample_df(), numeric, sum, arith).unwrap();
    assert_eq!(df.rows[0].get("x").map(|s| s.as_str()), Some("30*30"));
}
