use designkit::dtool::{
    detect_format, parse_args, ComputedColumnTransform, ComputedExpr, DataFrame, FilterOp, FilterTransform,
    FormatKind, RenameTransform, SortTransform, TransformStep,
};

fn sample_data() -> DataFrame {
    DataFrame {
        columns: vec!["name".to_string(), "age".to_string(), "city".to_string()],
        rows: vec![
            vec!["Alice".to_string(), "30".to_string(), "London".to_string()],
            vec!["Bob".to_string(), "25".to_string(), "Paris".to_string()],
            vec!["Charlie".to_string(), "35".to_string(), "London".to_string()],
            vec!["Diana".to_string(), "28".to_string(), "Berlin".to_string()],
        ],
    }
}

#[test]
fn test_detect_format() {
    assert!(matches!(detect_format("data.csv"), Ok(FormatKind::Csv)));
    assert!(matches!(detect_format("data.json"), Ok(FormatKind::Json)));
    assert!(matches!(detect_format("data.yaml"), Ok(FormatKind::Yaml)));
    assert!(matches!(detect_format("data.yml"), Ok(FormatKind::Yaml)));
    assert!(detect_format("data.xml").is_err());
}

#[test]
fn test_parse_args_minimal() {
    let args = vec!["dtool".to_string(), "input.csv".to_string()];
    let cli = parse_args(args).unwrap();
    assert_eq!(cli.input_path, "input.csv");
    assert!(cli.output_path.is_none());
    assert!(cli.transforms.is_empty());
}

#[test]
fn test_parse_args_full() {
    let args = vec![
        "dtool".to_string(),
        "input.csv".to_string(),
        "--filter".to_string(),
        "age>30".to_string(),
        "--sort".to_string(),
        "name".to_string(),
        "--rename".to_string(),
        "old:new".to_string(),
        "--output".to_string(),
        "result.json".to_string(),
    ];
    let cli = parse_args(args).unwrap();
    assert_eq!(cli.input_path, "input.csv");
    assert_eq!(cli.output_path.as_deref(), Some("result.json"));
    assert_eq!(cli.transforms.len(), 3);
}

#[test]
fn test_rename_bad_spec() {
    assert!(RenameTransform::parse("no_colon_here").is_err());
}

#[test]
fn renaming_keeps_rows_and_other_columns() {
    let data = sample_data();
    let rename = RenameTransform::parse("name:full_name").unwrap();
    let result = rename.apply(data).unwrap();
    assert_eq!(result.columns[0], "full_name");
    assert_eq!(result.columns[1], "age");
    assert_eq!(result.rows.len(), 4);
    let err = RenameTransform::parse("nope:x").unwrap().apply(sample_data()).unwrap_err();
    assert_eq!(err.to_string(), "Rename: column 'nope' not found");
    assert_eq!(rename.describe(), "rename: name -> full_name");
}

#[test]
fn filter_expressions_parse() {
    let f = FilterTransform::parse(" age >= 30 ").unwrap();
    assert_eq!((f.column.as_str(), f.op, f.value.as_str()), ("age", FilterOp::Ge, "30"));
    let f = FilterTransform::parse("name~li").unwrap();
    assert_eq!(f.op, FilterOp::Contains);
    let f = FilterTransform::parse("city!=London").unwrap();
    assert_eq!(f.op, FilterOp::Ne);
    assert_eq!(f.describe(), "filter: city Ne London");
    assert_eq!(
        FilterTransform::parse(">5").unwrap_err().to_string(),
        "Filter expression missing column name: '>5'"
    );
    assert!(FilterTransform::parse("age").is_err());
}

#[test]
fn sort_and_computed_specs_parse() {
    let s = SortTransform::parse("-age");
    assert!(s.descending);
    assert_eq!(s.column, "age");
    assert_eq!(s.describe(), "sort: age (desc)");
    assert!(!SortTransform::parse("name").descending);
    let c = ComputedColumnTransform::parse("label=name&city").unwrap();
    assert_eq!(c.new_column, "label");
    assert!(matches!(c.expression, ComputedExpr::Concat(ref a, ref b) if a == "name" && b == "city"));
    let c = ComputedColumnTransform::parse("total = age + score").unwrap();
    assert!(matches!(c.expression, ComputedExpr::Add(ref a, ref b) if a == "age" && b == "score"));
    assert!(ComputedColumnTransform::parse("nothing").is_err());
    assert!(ComputedColumnTransform::parse("x=ab").is_err());
}

#[test]
fn argument_errors_come_in_order() {
    let to = |v: &[&str]| v.iter().map(|s| s.to_string()).collect::<Vec<_>>();
    assert!(parse_args(to(&["dtool"])).unwrap_err().to_string().starts_with("Usage: dtool"));
    assert_eq!(parse_args(to(&["dtool", "in.csv", "--bogus"])).unwrap_err().to_string(), "Unknown argument: --bogus");
    assert_eq!(parse_args(to(&["dtool", "in.csv", "--sort"])).unwrap_err().to_string(), "--sort requires a column name");
    let cli = parse_args(to(&["dtool", "in.csv", "-o", "a.json", "-c", "t=a*b", "-o", "b.yaml"])).unwrap();
    assert_eq!(cli.output_path.as_deref(), Some("b.yaml"));
    assert!(matches!(cli.transforms[0], TransformStep::Compute(_)));
}
