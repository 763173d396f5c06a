use designkit::log_pipeline::{
    parse_log_line, Destination, ElasticsearchDestination, FieldRedactor, GeoIpEnricher,
    KafkaDestination, LogRecord, MemorySource, MetricsAggregator, Pipeline, Processor, Sampler,
    Severity, SeverityFilter, Source,
};
use std::io;
use std::sync::{Arc, Mutex};

#[test]
fn test_parse_log_line_with_severity() {
    let r = parse_log_line("ERROR something broke");
    assert_eq!(r.severity, Severity::Error);
    assert_eq!(r.message, "something broke");
}

#[test]
fn test_parse_log_line_default_severity() {
    let r = parse_log_line("just a plain message");
    assert_eq!(r.severity, Severity::Info);
    assert_eq!(r.message, "just a plain message");
}

#[test]
fn test_severity_ordering() {
    assert!(Severity::Error > Severity::Warn);
    assert!(Severity::Warn > Severity::Info);
    assert!(Severity::Info > Severity::Debug);
    assert!(Severity::Debug > Severity::Trace);
}

#[test]
fn test_severity_filter_drops_below_threshold() {
    let records = vec![
        LogRecord::new(Severity::Debug, "low"),
        LogRecord::new(Severity::Error, "high"),
        LogRecord::new(Severity::Trace, "lowest"),
        LogRecord::new(Severity::Warn, "medium"),
    ];
    let mut filter = SeverityFilter::new(Severity::Warn);
    let result = filter.process(records);
    assert_eq!(result.len(), 2);
    assert_eq!(result[0].severity, Severity::Error);
    assert_eq!(result[1].severity, Severity::Warn);
}

#[test]
fn test_field_redactor() {
    let records = vec![LogRecord::new(Severity::Info, "login")
        .with_field("password", "secret123")
        .with_field("username", "alice")];
    let mut redactor = FieldRedactor::new(vec!["password".into()]);
    let result = redactor.process(records);
    assert_eq!(result[0].fields.get("password").unwrap(), "[REDACTED]");
    assert_eq!(result[0].fields.get("username").unwrap(), "alice");
}

#[test]
fn test_geo_ip_enricher_known_ip() {
    let records = vec![LogRecord::new(Severity::Info, "request").with_field("ip", "192.168.1.1")];
    let mut enricher = GeoIpEnricher::new();
    let result = enricher.process(records);
    assert_eq!(result[0].fields.get("geo").unwrap(), "US/San Francisco");
}

#[test]
fn test_geo_ip_enricher_unknown_ip() {
    let records = vec![LogRecord::new(Severity::Info, "request").with_field("ip", "8.8.8.8")];
    let mut enricher = GeoIpEnricher::new();
    let result = enricher.process(records);
    assert_eq!(result[0].fields.get("geo").unwrap(), "unknown");
}

#[test]
fn test_geo_ip_enricher_no_ip_field() {
    let records = vec![LogRecord::new(Severity::Info, "no ip here")];
    let mut enricher = GeoIpEnricher::new();
    let result = enricher.process(records);
    assert!(!result[0].fields.contains_key("geo"));
}

#[test]
fn test_metrics_aggregator() {
    let records = vec![
        LogRecord::new(Severity::Info, "a"),
        LogRecord::new(Severity::Info, "b"),
        LogRecord::new(Severity::Error, "c"),
    ];
    let mut metrics = MetricsAggregator::new();
    let result = metrics.process(records);
    assert_eq!(result.len(), 3); // pass-through
    assert_eq!(metrics.total(), 3);
    assert_eq!(*metrics.counts().get(&Severity::Info).unwrap(), 2);
    assert_eq!(*metrics.counts().get(&Severity::Error).unwrap(), 1);
}

#[test]
fn test_sampler_rate_2() {
    let records: Vec<LogRecord> = (0..10)
        .map(|i| LogRecord::new(Severity::Info, &format!("msg {}", i)))
        .collect();
    let mut sampler = Sampler::new(2);
    let result = sampler.process(records);
    assert_eq!(result.len(), 5); // keeps every 2nd
}

#[test]
fn test_sampler_rate_1_keeps_all() {
    let records: Vec<LogRecord> = (0..5)
        .map(|i| LogRecord::new(Severity::Info, &format!("msg {}", i)))
        .collect();
    let mut sampler = Sampler::new(1);
    let result = sampler.process(records);
    assert_eq!(result.len(), 5);
}

#[test]
fn test_memory_source() {
    let mut src = MemorySource::new("test", vec!["INFO hello".into(), "ERROR boom".into()]);
    let records = src.read_records();
    assert_eq!(records.len(), 2);
    assert_eq!(records[0].severity, Severity::Info);
    assert_eq!(records[1].severity, Severity::Error);

    // Second read returns empty (consumed).
    let records2 = src.read_records();
    assert!(records2.is_empty());
}

#[test]
fn test_full_pipeline() {
    let source = MemorySource::new(
        "test",
        vec![
            "DEBUG low".into(),
            "INFO medium".into(),
            "ERROR high".into(),
            "TRACE lowest".into(),
            "WARN warning".into(),
        ],
    );

    struct CollectDestination {
        collected: Arc<Mutex<Vec<String>>>,
    }
    impl Destination for CollectDestination {
        fn write_records(&mut self, records: &[LogRecord]) -> io::Result<()> {
            let mut c = self.collected.lock().unwrap();
            for r in records {
                c.push(format!("{}: {}", r.severity.to_string(), r.message));
            }
            Ok(())
        }
        fn name(&self) -> &str {
            "collect"
        }
        fn flush(&mut self) -> io::Result<()> {
            Ok(())
        }
    }

    let collected = Arc::new(Mutex::new(Vec::new()));
    let dest = CollectDestination { collected: collected.clone() };

    let mut pipeline = Pipeline::new()
        .source(source)
        .processor(SeverityFilter::new(Severity::Warn))
        .destination(dest);

    let stats = pipeline.run().unwrap();
    assert_eq!(stats.records_read, 5);
    assert_eq!(stats.records_after_processing, 2);

    let results = collected.lock().unwrap();
    assert_eq!(results.len(), 2);
    assert!(results.iter().any(|s| s.contains("ERROR")));
    assert!(results.iter().any(|s| s.contains("WARN")));
}

#[test]
fn test_pipeline_multiple_sources_and_destinations() {
    let src1 = MemorySource::new("s1", vec!["INFO from s1".into()]);
    let src2 = MemorySource::new("s2", vec!["ERROR from s2".into()]);

    struct CountDestination {
        count: Arc<Mutex<u64>>,
    }
    impl Destination for CountDestination {
        fn write_records(&mut self, records: &[LogRecord]) -> io::Result<()> {
            *self.count.lock().unwrap() += records.len() as u64;
            Ok(())
        }
        fn name(&self) -> &str {
            "counter"
        }
        fn flush(&mut self) -> io::Result<()> {
            Ok(())
        }
    }

    let count1 = Arc::new(Mutex::new(0u64));
    let count2 = Arc::new(Mutex::new(0u64));
    let d1 = CountDestination { count: count1.clone() };
    let d2 = CountDestination { count: count2.clone() };

    let mut pipeline = Pipeline::new().source(src1).source(src2).destination(d1).destination(d2);

    pipeline.run().unwrap();

    assert_eq!(*count1.lock().unwrap(), 2);
    assert_eq!(*count2.lock().unwrap(), 2);
}

#[test]
fn test_processor_chain_ordering() {
    let records: Vec<LogRecord> = (0..20)
        .map(|i| {
            if i % 2 == 0 {
                LogRecord::new(Severity::Error, &format!("err {}", i))
            } else {
                LogRecord::new(Severity::Debug, &format!("dbg {}", i))
            }
        })
        .collect();

    let mut src = MemorySource::new("test", Vec::new());
    src.lines = Vec::new();

    let mut filter = SeverityFilter::new(Severity::Warn);
    let mut sampler = Sampler::new(2);

    let after_filter = filter.process(records);
    assert_eq!(after_filter.len(), 10);

    let after_sample = sampler.process(after_filter);
    assert_eq!(after_sample.len(), 5);
}

#[test]
fn test_log_record_display() {
    let r = LogRecord::new(Severity::Error, "disk full").with_field("host", "srv-01");
    let s = r.to_string();
    assert!(s.contains("[ERROR]"));
    assert!(s.contains("disk full"));
    assert!(s.contains("host=srv-01"));
}

#[test]
fn test_empty_pipeline() {
    let mut pipeline = Pipeline::new();
    let stats = pipeline.run().unwrap();
    assert_eq!(stats.records_read, 0);
    assert_eq!(stats.records_after_processing, 0);
}

// ---- further scenarios ----

#[test]
fn severity_parse_ignores_case_and_defaults_to_info() {
    assert_eq!(Severity::parse("warn"), Severity::Warn);
    assert_eq!(Severity::parse("FaTaL"), Severity::Fatal);
    assert_eq!(Severity::parse("verbose"), Severity::Info);
    assert_eq!(Severity::Warn.to_string(), "WARN");
}

#[test]
fn parse_log_line_trims_and_handles_edge_cases() {
    let r = parse_log_line("   ");
    assert_eq!(r.severity, Severity::Info);
    assert_eq!(r.message, "");
    let r = parse_log_line("  debug   spaced out  ");
    assert_eq!(r.severity, Severity::Debug);
    assert_eq!(r.message, "  spaced out");
    let r = parse_log_line("WARN");
    assert_eq!(r.severity, Severity::Info);
    assert_eq!(r.message, "WARN");
    let r = parse_log_line("notice something");
    assert_eq!(r.severity, Severity::Info);
    assert_eq!(r.message, "notice something");
}

#[test]
fn record_display_exact_text() {
    let mut r = LogRecord::new(Severity::Warn, "hot").with_field("a", "1").with_field("b", "2");
    r.timestamp = 42;
    assert_eq!(r.to_string(), "[WARN] 42 | hot | a=1, b=2");
    let mut plain = LogRecord::new(Severity::Info, "x");
    plain.timestamp = 7;
    assert_eq!(plain.to_string(), "[INFO] 7 | x");
}

#[test]
fn with_field_replaces_existing_value() {
    let r = LogRecord::new(Severity::Info, "m").with_field("k", "1").with_field("k", "2");
    assert_eq!(r.fields.len(), 1);
    assert_eq!(r.fields.get("k").unwrap(), "2");
}

#[test]
fn sampler_counter_carries_over_batches() {
    let mut sampler = Sampler::new(3);
    let a: Vec<LogRecord> = (0..2).map(|_| LogRecord::new(Severity::Info, "m")).collect();
    assert_eq!(sampler.process(a).len(), 0);
    let b: Vec<LogRecord> = (0..4).map(|_| LogRecord::new(Severity::Info, "m")).collect();
    assert_eq!(sampler.process(b).len(), 2);
}

#[test]
fn kafka_counts_sent_records_and_es_buffers() {
    let recs = vec![LogRecord::new(Severity::Info, "a"), LogRecord::new(Severity::Error, "b")];
    let mut k = KafkaDestination::new("localhost:9092", "logs");
    k.write_records(&recs).unwrap();
    assert_eq!(k.sent_count(), 2);
    assert_eq!(k.name(), "logs");
    let mut es = ElasticsearchDestination::new("http://es");
    es.write_records(&recs).unwrap();
    es.flush().unwrap();
    assert_eq!(es.name(), "http://es");
}

#[test]
fn metrics_absent_severity_has_no_entry() {
    let mut metrics = MetricsAggregator::new();
    metrics.process(vec![LogRecord::new(Severity::Warn, "w")]);
    assert!(metrics.counts().get(&Severity::Fatal).is_none());
    assert_eq!(*metrics.counts().get(&Severity::Warn).unwrap(), 1);
}

#[test]
fn test_pipeline_without_processors_keeps_every_record() {
    let src1 = MemorySource::new("a", vec!["INFO one".into(), "WARN two".into()]);
    let src2 = MemorySource::new("b", vec!["ERROR three".into()]);
    let mut pipeline = Pipeline::new().source(src1).source(src2);
    let stats = pipeline.run().unwrap();
    assert_eq!(stats.records_read, 3);
    assert_eq!(stats.records_after_processing, 3);
}

#[test]
fn sampler_keeps_positions_after_counter_offset() {
    let mut sampler = Sampler::new(4);
    let a: Vec<LogRecord> = (0..3).map(|i| LogRecord::new(Severity::Info, &format!("a{i}"))).collect();
    assert_eq!(sampler.process(a).len(), 0);
    let b: Vec<LogRecord> = (0..6).map(|i| LogRecord::new(Severity::Info, &format!("b{i}"))).collect();
    let kept = sampler.process(b);
    let messages: Vec<String> = kept.iter().map(|r| r.message.clone()).collect();
    assert_eq!(messages, vec!["b0".to_string(), "b4".to_string()]);
}
