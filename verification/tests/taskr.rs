use designkit::taskr::{
    create_due, due_field, hint_text, list_url, row_text, table_text, task_headers, update_members, visible_tasks, ListArgs,
    OutputFormat,
};

#[test]
fn format_selection_json_flag() {
    let args = ListArgs { status: None, json: true };
    let fmt = args.output_format();
    assert_eq!(fmt, OutputFormat::Json);
}

#[test]
fn format_selection_default_table() {
    let args = ListArgs { status: None, json: false };
    let fmt = args.output_format();
    assert_eq!(fmt, OutputFormat::Table);
}

#[test]
fn table_empty_says_no_tasks() {
    let line = row_text(&task_headers(), &vec![8, 12, 8, 16, 8]);
    assert!(line.contains("ID"));
    assert!(line.contains("TITLE"));
}

#[test]
fn row_text_pads_every_cell() {
    let cells = vec!["ab".to_string(), "c".to_string()];
    assert_eq!(row_text(&cells, &vec![4, 3]), "ab    c  \n");
    assert_eq!(row_text(&cells, &vec![1, 0]), "ab  c\n");
}

#[test]
fn table_lines_align_and_leave_last_column_bare() {
    let headers = vec!["ID".to_string(), "TITLE".to_string(), "DUE".to_string()];
    let rows = vec![
        vec!["a1".to_string(), "Write tests".to_string(), "-".to_string()],
        vec!["b2345".to_string(), "Milk".to_string(), "Apr 05".to_string()],
    ];
    let lines = table_text(&headers, &rows);
    assert_eq!(
        lines,
        vec![
            "ID     TITLE        DUE".to_string(),
            "a1     Write tests  -".to_string(),
            "b2345  Milk         Apr 05".to_string(),
        ]
    );
}

#[test]
fn table_with_no_rows_says_none() {
    let headers = vec!["A".to_string(), "B".to_string()];
    assert_eq!(table_text(&headers, &vec![]), vec!["(none)".to_string()]);
}

#[test]
fn hints_layout() {
    let items = vec!["taskr tasks get <ID>".to_string(), "taskr tasks create".to_string()];
    assert_eq!(
        hint_text(&items),
        vec!["".to_string(), "hint: taskr tasks get <ID>".to_string(), "      taskr tasks create".to_string()]
    );
    assert!(hint_text(&vec![]).is_empty());
}

#[test]
fn list_url_carries_each_filter() {
    assert_eq!(list_url("https://api", 25, None, None, false), "https://api/tasks?limit=25");
    assert_eq!(
        list_url("https://api", 5, Some("done"), Some("high"), true),
        "https://api/tasks?limit=5&status=done&priority=high&include_archived=true"
    );
}

#[test]
fn due_texts() {
    assert_eq!(due_field("none"), Ok(None));
    assert_eq!(due_field("2024-01-02T03:04:05Z"), Ok(Some("2024-01-02T03:04:05+00:00".to_string())));
    let e = due_field("tomorrow").unwrap_err();
    assert!(e.starts_with("invalid --due date (expected RFC 3339 or \"none\"): "));
    assert_eq!(create_due(None), Ok(None));
    assert!(create_due(Some("none")).unwrap_err().starts_with("invalid --due date (expected RFC 3339): "));
}

#[test]
fn update_body_members() {
    let m = update_members(Some("T".into()), None, Some("high".into()), Some("none".into())).unwrap();
    assert_eq!(
        m,
        vec![("title".to_string(), Some("T".to_string())), ("priority".to_string(), Some("high".to_string())), (
            "due_date".to_string(),
            None
        )]
    );
    assert!(update_members(None, Some("done".into()), None, Some("x".into())).is_err());
    assert_eq!(update_members(None, None, None, None).unwrap(), vec![]);
}

#[test]
fn archived_tasks_hidden_unless_all() {
    let tasks = vec!["a", "b", "c"];
    assert_eq!(visible_tasks(tasks.clone(), &vec![false, true, false], false), vec!["a", "c"]);
    assert_eq!(visible_tasks(tasks, &vec![false, true, false], true), vec!["a", "b", "c"]);
}
