use designkit::report::{
    output_file, sample_records, to_report_data, CsvReportGenerator, HtmlReportGenerator, JsonReportGenerator,
    PdfReportGenerator, RenderedReport, ReportData, ReportEngine, ReportError, ReportGenerator, ReportRequest,
};

fn request() -> ReportRequest {
    ReportRequest { query: "SELECT 1".into(), title: "Test".into(), output_path: "/tmp/test".into() }
}

#[test]
fn solution_csv_format_produces_valid_output() {
    let gen = CsvReportGenerator;
    let data = ReportData {
        title: "Test".into(),
        headers: vec!["A".into(), "B".into()],
        rows: vec![vec!["1".into(), "2".into()]],
    };
    let rendered = gen.format(&data).unwrap();
    let output = String::from_utf8(rendered.content).unwrap();
    assert!(output.contains("A,B"));
    assert!(output.contains("1,2"));
    assert_eq!(rendered.file_extension, "csv");
}

#[test]
fn html_format_produces_table() {
    let gen = HtmlReportGenerator;
    let data = ReportData {
        title: "Test".into(),
        headers: vec!["Name".into()],
        rows: vec![vec!["Alice".into()]],
    };
    let rendered = gen.format(&data).unwrap();
    let output = String::from_utf8(rendered.content).unwrap();
    assert!(output.contains("<table>"));
    assert!(output.contains("<th>Name</th>"));
    assert!(output.contains("<td>Alice</td>"));
}

#[test]
fn json_format_produces_valid_structure() {
    let gen = JsonReportGenerator;
    let data = ReportData {
        title: "Test".into(),
        headers: vec!["ID".into(), "Val".into()],
        rows: vec![vec!["1".into(), "X".into()]],
    };
    let rendered = gen.format(&data).unwrap();
    let output = String::from_utf8(rendered.content).unwrap();
    assert!(output.contains("\"title\": \"Test\""));
    assert!(output.contains("\"ID\": \"1\""));
}

#[test]
fn engine_rejects_unknown_type() {
    let engine = ReportEngine::with_builtin_types();
    let result = engine.generate("xlsx", &request());
    assert!(result.is_err());
    match result {
        Err(e) => assert_eq!(e.to_string(), "Format error: Unknown report type: xlsx"),
        Ok(_) => panic!("expected an error"),
    }
}

#[test]
fn engine_lists_registered_types() {
    let engine = ReportEngine::with_builtin_types();
    let types = engine.available_types();
    assert_eq!(types.len(), 4);
    assert_eq!(types, vec!["CSV", "HTML", "PDF", "JSON"]);
}

#[test]
fn engine_generates_by_case_insensitive_key() {
    let engine = ReportEngine::with_builtin_types();
    let rendered = engine.generate("CSV", &request()).unwrap();
    let text = String::from_utf8(rendered.content).unwrap();
    assert_eq!(text, "ID,Name,Amount\n1,Alice,1500.00\n2,Bob,2300.50\n");
}

#[test]
fn engine_register_replaces_a_key() {
    let mut engine = ReportEngine::with_builtin_types();
    engine.register("Csv", Box::new(JsonReportGenerator));
    let types = engine.available_types();
    assert_eq!(types, vec!["JSON", "HTML", "PDF", "JSON"]);
}

#[test]
fn csv_quotes_fields_with_commas_and_quotes() {
    let data = ReportData {
        title: "T".into(),
        headers: vec!["a".into(), "b".into()],
        rows: vec![vec!["x,y".into(), "say \"hi\"".into()], vec!["plain".into(), "".into()]],
    };
    let r = CsvReportGenerator.format(&data).unwrap();
    assert_eq!(String::from_utf8(r.content).unwrap(), "a,b\n\"x,y\",\"say \"\"hi\"\"\"\nplain,\n");
}

#[test]
fn pdf_and_json_layouts() {
    let data = ReportData {
        title: "Q".into(),
        headers: vec!["A".into(), "B".into()],
        rows: vec![vec!["1".into(), "2".into()], vec!["3".into()]],
    };
    let pdf = PdfReportGenerator.format(&data).unwrap();
    assert_eq!(pdf.file_extension, "pdf");
    assert_eq!(
        String::from_utf8(pdf.content).unwrap(),
        "%%PDF-PLACEHOLDER\nTitle: Q\nColumns: A | B\nRow: 1 | 2\nRow: 3\n"
    );
    let json = JsonReportGenerator.format(&data).unwrap();
    assert_eq!(
        String::from_utf8(json.content).unwrap(),
        "{\n  \"title\": \"Q\",\n  \"records\": [\n    {\"A\": \"1\", \"B\": \"2\"},\n    {\"A\": \"3\"}\n  ]\n}"
    );
}

#[test]
fn html_full_page() {
    let data = ReportData { title: "T".into(), headers: vec!["H".into()], rows: vec![] };
    let r = HtmlReportGenerator.format(&data).unwrap();
    let text = String::from_utf8(r.content).unwrap();
    assert!(text.starts_with("<!DOCTYPE html>\n<html><head><meta charset=\"utf-8\">\n<title>T</title>\n<style>\n"));
    assert!(text.ends_with("<h1>T</h1>\n<table>\n<tr><th>H</th></tr>\n</table>\n</body></html>"));
}

#[test]
fn transform_fills_missing_fields_with_empty() {
    let mut raw = sample_records();
    raw[1].fields.remove("amount");
    let data = to_report_data(&raw, "Sales");
    assert_eq!(data.title, "Sales");
    assert_eq!(data.headers, vec!["ID", "Name", "Amount"]);
    assert_eq!(data.rows, vec![vec!["1", "Alice", "1500.00"], vec!["2", "Bob", ""]]);
}

#[test]
fn report_errors_and_output_file() {
    assert_eq!(ReportError::FetchError("db".into()).to_string(), "Fetch error: db");
    assert_eq!(ReportError::TransformError("x".into()).to_string(), "Transform error: x");
    assert_eq!(ReportError::WriteError("w".into()).to_string(), "Write error: w");
    let r = RenderedReport { content: vec![], file_extension: "csv".into() };
    assert_eq!(output_file("/tmp/q1", &r), "/tmp/q1.csv");
}
