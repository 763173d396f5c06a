use designkit::log_stream::{
    parse_line, Destination, ElasticsearchDestination, FieldRedactor, GeoIpEnricher,
    KafkaDestination, LogRecord, MetricsAggregator, Pipeline, PipelineResult, Processor, Sampler,
    Severity, SeverityFilter, Source,
};
use std::io;

fn sample_records() -> Vec<LogRecord> {
    vec![
        LogRecord::new(Severity::Debug, "debug msg".into()),
        LogRecord::new(Severity::Info, "info msg".into()),
        LogRecord::new(Severity::Warn, "warn msg".into()),
        LogRecord::new(Severity::Error, "error msg".into()),
    ]
}

#[test]
fn severity_filter_keeps_warn_and_above() {
    let mut filter = SeverityFilter::new(Severity::Warn);
    let result = filter.process(sample_records());
    assert_eq!(result.len(), 2);
    assert_eq!(result[0].severity, Severity::Warn);
    assert_eq!(result[1].severity, Severity::Error);
}

#[test]
fn field_redactor_replaces_sensitive_values() {
    let mut redactor = FieldRedactor::new(vec!["password".into()]);
    let mut record = LogRecord::new(Severity::Info, "login".into());
    record.fields.insert("password", "secret123");
    record.fields.insert("user", "alice");

    let result = redactor.process(vec![record]);
    assert_eq!(result[0].fields.get("password").unwrap(), "[REDACTED]");
    assert_eq!(result[0].fields.get("user").unwrap(), "alice");
}

#[test]
fn sampler_keeps_every_nth_record() {
    let mut sampler = Sampler::new(2);
    let records = sample_records();
    let result = sampler.process(records);
    assert_eq!(result.len(), 2);
}

#[test]
fn metrics_aggregator_counts_by_severity() {
    let mut aggregator = MetricsAggregator::new();
    let _result = aggregator.process(sample_records());
    let (counts, total) = aggregator.snapshot();
    assert_eq!(total, 4);
    assert_eq!(*counts.get(&Severity::Debug).unwrap(), 1);
    assert_eq!(*counts.get(&Severity::Error).unwrap(), 1);
}

#[test]
fn geo_ip_enricher_adds_country_field() {
    let mut enricher = GeoIpEnricher::new("/path/to/GeoLite2.mmdb");
    let mut record = LogRecord::new(Severity::Info, "request".into());
    record.fields.insert("ip", "8.8.8.8");

    let result = enricher.process(vec![record]);
    assert!(result[0].fields.contains_key("geo_country"));
}

#[test]
fn parse_line_extracts_severity_and_message() {
    let record = parse_line("[ERROR] disk full");
    assert_eq!(record.severity, Severity::Error);
    assert_eq!(record.message, "disk full");
}

#[test]
fn parse_line_defaults_to_info_on_unknown_format() {
    let record = parse_line("some random log line");
    assert_eq!(record.severity, Severity::Info);
    assert_eq!(record.message, "some random log line");
}

#[test]
fn pipeline_chains_processors() {
    let mut filter = SeverityFilter::new(Severity::Warn);
    let mut sampler = Sampler::new(1);

    let records = sample_records();
    let after_filter = filter.process(records);
    let after_sample = sampler.process(after_filter);
    assert_eq!(after_sample.len(), 2);
}

struct TestSource {
    lines: Vec<String>,
}

impl Source for TestSource {
    fn name(&self) -> &str {
        "test"
    }
    fn read_lines(&mut self) -> io::Result<Vec<String>> {
        Ok(self.lines.clone())
    }
}

struct CaptureDest {
    captured: Vec<String>,
}

impl CaptureDest {
    fn new() -> Self {
        Self { captured: Vec::new() }
    }
}

impl Destination for CaptureDest {
    fn name(&self) -> &str {
        "capture"
    }
    fn ship(&mut self, records: &[LogRecord]) -> io::Result<()> {
        for r in records {
            self.captured.push(format!("[{}] {}", r.severity.to_string(), r.message));
        }
        Ok(())
    }
}

#[test]
fn full_pipeline_integration() {
    let source = TestSource {
        lines: vec![
            "[DEBUG] verbose stuff".into(),
            "[INFO] normal operation".into(),
            "[WARN] something off".into(),
            "[ERROR] bad thing happened".into(),
        ],
    };

    let dest = CaptureDest::new();
    let mut pipeline = Pipeline::new()
        .source(source)
        .processor(SeverityFilter::new(Severity::Warn))
        .destination(dest);

    let result = pipeline.run().unwrap();
    assert_eq!(result.lines_read, 4);
    assert_eq!(result.records_parsed, 4);
    assert_eq!(result.records_output, 2);
}

// ---- further scenarios ----

#[test]
fn severity_parse_accepts_aliases() {
    assert_eq!(Severity::parse("warning"), Some(Severity::Warn));
    assert_eq!(Severity::parse("Err"), Some(Severity::Error));
    assert_eq!(Severity::parse("notice"), None);
}

#[test]
fn parse_line_edge_cases() {
    let r = parse_line("  [warn]   spaced   ");
    assert_eq!(r.severity, Severity::Warn);
    assert_eq!(r.message, "spaced");
    assert_eq!(r.raw, "  [warn]   spaced   ");
    let r = parse_line("[NOPE] x");
    assert_eq!(r.severity, Severity::Info);
    assert_eq!(r.message, "[NOPE] x");
    let r = parse_line("[INFO no close");
    assert_eq!(r.severity, Severity::Info);
    assert_eq!(r.message, "[INFO no close");
}

#[test]
fn redactor_custom_replacement() {
    let mut redactor = FieldRedactor::new(vec!["ssn".into()]).with_replacement("***");
    let mut record = LogRecord::new(Severity::Info, "x".into());
    record.fields.insert("ssn", "123");
    let out = redactor.process(vec![record]);
    assert_eq!(out[0].fields.get("ssn").unwrap(), "***");
}

#[test]
fn enricher_skips_records_without_ip() {
    let mut enricher = GeoIpEnricher::new("db");
    let out = enricher.process(vec![LogRecord::new(Severity::Info, "x".into())]);
    assert!(!out[0].fields.contains_key("geo_country"));
}

#[test]
fn destinations_and_result_text() {
    let recs = sample_records();
    let mut es = ElasticsearchDestination::new("http://localhost:9200", "logs");
    es.ship(&recs).unwrap();
    es.flush().unwrap();
    let mut k = KafkaDestination::new("b", "t");
    k.ship(&recs).unwrap();
    assert_eq!(k.name(), "kafka");
    let res = PipelineResult { lines_read: 4, records_parsed: 4, records_output: 2 };
    assert_eq!(res.to_string(), "Pipeline: 4 lines read, 4 parsed, 2 output");
}

#[test]
fn failing_source_is_skipped() {
    struct Broken;
    impl Source for Broken {
        fn name(&self) -> &str {
            "broken"
        }
        fn read_lines(&mut self) -> io::Result<Vec<String>> {
            Err(io::Error::new(io::ErrorKind::Other, "nope"))
        }
    }
    let mut pipeline = Pipeline::new()
        .source(Broken)
        .source(TestSource { lines: vec!["[INFO] ok".into()] });
    let result = pipeline.run().unwrap();
    assert_eq!(result.lines_read, 1);
    assert_eq!(result.records_output, 1);
}
