//! A log processing pipeline over raw lines: sources read lines, which are
//! parsed as `[LEVEL] message`, run through processors in order, and shipped
//! to every destination.
use vstd::prelude::*;
use crate::boxed::push_boxed;
use crate::fields::Fields;
use crate::log_pipeline::{counted, lemma_counted_step};
use crate::text::{
    chars_of, find_char, first_index, owned, push_str, str_eq, string_from_chars,
    string_from_range, to_uppercase, trim, trim_chars, uppercase,
};
use crate::wrap::{lemma_wrap_step, lemma_wrap_succ, lemma_wrap_zero, wrap_add, wrapping_succ};
use crate::sys::{describe_io_error, read_all_stdin_lines, system_now, write_stderr_line, write_stdout_line};

verus! {

/// Severity levels for log records, from least to most severe.
#[derive(Debug, Clone, Copy, PartialEq, Eq, Structural, PartialOrd, Ord, Hash)]
pub enum Severity {
    Trace,
    Debug,
    Info,
    Warn,
    Error,
    Fatal,
}

/// The severity whose upper-case name (or alias) is `u`.
pub open spec fn level_named(u: Seq<char>) -> Option<Severity> {
    if u == "TRACE"@ {
        Some(Severity::Trace)
    } else if u == "DEBUG"@ {
        Some(Severity::Debug)
    } else if u == "INFO"@ {
        Some(Severity::Info)
    } else if u == "WARN"@ || u == "WARNING"@ {
        Some(Severity::Warn)
    } else if u == "ERROR"@ || u == "ERR"@ {
        Some(Severity::Error)
    } else if u == "FATAL"@ {
        Some(Severity::Fatal)
    } else {
        None
    }
}

/// The level-name law: each severity is named by its own label, and the
/// labels of different severities differ, so reading a label gives back the
/// severity it was written for. The aliases `WARNING` and `ERR` name `Warn`
/// and `Error`.
pub proof fn lemma_level_names(v: Severity, w: Severity)
    ensures
        level_named(v.spec_label()) == Some(v),
        v != w ==> v.spec_label() != w.spec_label(),
        level_named("WARNING"@) == Some(Severity::Warn),
        level_named("ERR"@) == Some(Severity::Error),
{
    reveal_strlit("TRACE");
    reveal_strlit("DEBUG");
    reveal_strlit("INFO");
    reveal_strlit("WARN");
    reveal_strlit("WARNING");
    reveal_strlit("ERROR");
    reveal_strlit("ERR");
    reveal_strlit("FATAL");
    let names = seq!["TRACE"@, "DEBUG"@, "INFO"@, "WARN"@, "ERROR"@, "FATAL"@];
    assert forall|a: int, b: int| 0 <= a < 6 && 0 <= b < 6 && a != b implies #[trigger] names[a] != #[trigger] names[b] by {
        if names[a][0] == names[b][0] {
            assert(names[a].len() != names[b].len() || names[a][1] != names[b][1]);
        }
    }
    assert(names[0] == "TRACE"@ && names[1] == "DEBUG"@ && names[2] == "INFO"@);
    assert(names[3] == "WARN"@ && names[4] == "ERROR"@ && names[5] == "FATAL"@);
    assert("WARNING"@.len() == 7 && "ERR"@.len() == 3);
    assert("TRACE"@.len() == 5 && "DEBUG"@.len() == 5 && "INFO"@.len() == 4 && "WARN"@.len() == 4);
}

fn level_from_name(u: &str) -> (r: Option<Severity>)
    ensures
        r == level_named(u@),
{
    if str_eq(u, "TRACE") {
        Some(Severity::Trace)
    } else if str_eq(u, "DEBUG") {
        Some(Severity::Debug)
    } else if str_eq(u, "INFO") {
        Some(Severity::Info)
    } else if str_eq(u, "WARN") || str_eq(u, "WARNING") {
        Some(Severity::Warn)
    } else if str_eq(u, "ERROR") || str_eq(u, "ERR") {
        Some(Severity::Error)
    } else if str_eq(u, "FATAL") {
        Some(Severity::Fatal)
    } else {
        None
    }
}

impl Severity {
    pub open spec fn spec_rank(self) -> nat {
        match self {
            Severity::Trace => 0,
            Severity::Debug => 1,
            Severity::Info => 2,
            Severity::Warn => 3,
            Severity::Error => 4,
            Severity::Fatal => 5,
        }
    }

    pub open spec fn spec_label(self) -> Seq<char> {
        match self {
            Severity::Trace => "TRACE"@,
            Severity::Debug => "DEBUG"@,
            Severity::Info => "INFO"@,
            Severity::Warn => "WARN"@,
            Severity::Error => "ERROR"@,
            Severity::Fatal => "FATAL"@,
        }
    }

    pub fn rank(&self) -> (r: u8)
        ensures
            r == self.spec_rank(),
    {
        match self {
            Severity::Trace => 0,
            Severity::Debug => 1,
            Severity::Info => 2,
            Severity::Warn => 3,
            Severity::Error => 4,
            Severity::Fatal => 5,
        }
    }

    pub fn label(&self) -> (r: &'static str)
        ensures
            r@ == self.spec_label(),
    {
        match self {
            Severity::Trace => "TRACE",
            Severity::Debug => "DEBUG",
            Severity::Info => "INFO",
            Severity::Warn => "WARN",
            Severity::Error => "ERROR",
            Severity::Fatal => "FATAL",
        }
    }

    /// The displayed form of the level, e.g. `WARN`.
    pub fn to_string(&self) -> (r: String)
        ensures
            r@ == self.spec_label(),
    {
        owned(self.label())
    }

    /// The level named by `s` in any case; `WARNING` and `ERR` are accepted too.
    pub fn parse(s: &str) -> (r: Option<Severity>)
        ensures
            r == level_named(uppercase(s@)),
    {
        let u = to_uppercase(s);
        level_from_name(u.as_str())
    }
}

/// A structured log record produced by parsing a raw log line.
#[derive(Debug)]
pub struct LogRecord {
    pub timestamp: Option<std::time::SystemTime>,
    pub severity: Severity,
    pub message: String,
    pub fields: Fields,
    pub raw: String,
}

impl LogRecord {
    /// A record stamped with the current time, with no fields and no raw text.
    pub fn new(severity: Severity, message: String) -> (r: Self)
        ensures
            r.timestamp is Some,
            r.severity == severity,
            r.message == message,
            r.fields.map() == Map::<Seq<char>, Seq<char>>::empty(),
            r.fields.pairs().len() == 0,
            r.raw@ == Seq::<char>::empty(),
    {
        LogRecord {
            timestamp: Some(system_now()),
            severity,
            message,
            fields: Fields::new(),
            raw: String::new(),
        }
    }
}

/// The position of the first `]` after a leading `[` in the trimmed line.
pub open spec fn close_pos(t: Seq<char>) -> int {
    first_index(t.skip(1), ']')
}

/// Whether `parse_line` finds a known `[LEVEL]` prefix in the trimmed line `t`.
pub open spec fn has_level(t: Seq<char>) -> bool {
    &&& t.len() > 0
    &&& t[0] == '['
    &&& close_pos(t) < t.len() - 1
    &&& level_named(uppercase(t.skip(1).take(close_pos(t)))) is Some
}

/// The severity `parse_line` gives `raw`.
pub open spec fn parsed_severity(raw: Seq<char>) -> Severity {
    let t = trim(raw);
    if has_level(t) {
        level_named(uppercase(t.skip(1).take(close_pos(t)))).unwrap()
    } else {
        Severity::Info
    }
}

/// The message `parse_line` gives `raw`.
pub open spec fn parsed_message(raw: Seq<char>) -> Seq<char> {
    let t = trim(raw);
    if has_level(t) {
        trim(t.skip(1).skip(close_pos(t) + 1))
    } else {
        t
    }
}

/// The record `parse_line` gives `raw`.
pub open spec fn parsed_from(r: LogRecord, raw: Seq<char>) -> bool {
    &&& r.timestamp is Some
    &&& r.severity == parsed_severity(raw)
    &&& r.message@ == parsed_message(raw)
    &&& r.fields.map() == Map::<Seq<char>, Seq<char>>::empty()
    &&& r.fields.pairs().len() == 0
    &&& r.raw@ == raw
}

/// Parses `[LEVEL] message`; any other line becomes an `Info` record whose
/// message is the trimmed line. The raw line is kept.
pub fn parse_line(raw: &str) -> (r: LogRecord)
    ensures
        parsed_from(r, raw@),
{
    let cs = chars_of(raw);
    let t = trim_chars(&cs);
    if t.len() > 0 && t[0] == '[' {
        let rest = string_from_range(&t, 1, t.len());
        let rc = chars_of(rest.as_str());
        assert(rc@ =~= t@.skip(1));
        let b = find_char(&rc, ']');
        if b < rc.len() {
            let level = string_from_range(&rc, 0, b);
            assert(level@ =~= rc@.take(b as int));
            let u = to_uppercase(level.as_str());
            match level_from_name(u.as_str()) {
                Some(severity) => {
                    let tail = string_from_range(&rc, b + 1, rc.len());
                    assert(tail@ =~= rc@.skip(b + 1));
                    let tc = chars_of(tail.as_str());
                    let msg = trim_chars(&tc);
                    return LogRecord {
                        timestamp: Some(system_now()),
                        severity,
                        message: string_from_chars(&msg),
                        fields: Fields::new(),
                        raw: owned(raw),
                    };
                },
                None => {},
            }
        }
    }
    LogRecord {
        timestamp: Some(system_now()),
        severity: Severity::Info,
        message: string_from_chars(&t),
        fields: Fields::new(),
        raw: owned(raw),
    }
}

/// A log source produces a batch of raw lines.
pub trait Source {
    fn name(&self) -> &str;

    /// Whether a read may give `lines` (`None` for a failed read). A source
    /// that does not say may give anything.
    open spec fn may_read(&self, lines: Option<Seq<String>>) -> bool {
        true
    }

    /// Reads all available lines.
    fn read_lines(&mut self) -> (r: std::io::Result<Vec<String>>)
        ensures
            old(self).may_read(match r {
                Ok(v) => Some(v@),
                Err(_) => None,
            });
}

/// Reads every line of standard input.
pub struct StdinSource;

impl Source for StdinSource {
    fn name(&self) -> (r: &str)
        ensures
            r@ == "stdin"@,
    {
        "stdin"
    }

    fn read_lines(&mut self) -> std::io::Result<Vec<String>> {
        read_all_stdin_lines()
    }
}

/// A step of the pipeline that filters, mutates or enriches a batch.
pub trait Processor {
    fn name(&self) -> &str;

    /// Whether processing `input` may give `output`. A processor that does not
    /// say may give anything.
    open spec fn may_process(&self, input: Seq<LogRecord>, output: Seq<LogRecord>) -> bool {
        true
    }

    fn process(&mut self, records: Vec<LogRecord>) -> (r: Vec<LogRecord>)
        ensures
            old(self).may_process(records@, r@);
}

/// The records of `s` whose severity is at least `min`, in order.
pub open spec fn at_least(s: Seq<LogRecord>, min: Severity) -> Seq<LogRecord>
    decreases s.len(),
{
    if s.len() == 0 {
        Seq::empty()
    } else if s.last().severity.spec_rank() >= min.spec_rank() {
        at_least(s.drop_last(), min).push(s.last())
    } else {
        at_least(s.drop_last(), min)
    }
}

/// Keeps records at or above a minimum severity.
pub struct SeverityFilter {
    min_severity: Severity,
}

impl SeverityFilter {
    pub closed spec fn min(&self) -> Severity {
        self.min_severity
    }

    pub fn new(min_severity: Severity) -> (r: Self)
        ensures
            r.min() == min_severity,
    {
        SeverityFilter { min_severity }
    }
}

impl Processor for SeverityFilter {
    fn name(&self) -> (r: &str)
        ensures
            r@ == "severity_filter"@,
    {
        "severity_filter"
    }

    fn process(&mut self, records: Vec<LogRecord>) -> (r: Vec<LogRecord>)
        ensures
            r@ == at_least(records@, old(self).min()),
            final(self).min() == old(self).min(),
    {
        let ghost all = records@;
        let mut out: Vec<LogRecord> = Vec::new();
        for rec in it: records.into_iter()
            invariant
                it.seq() == all,
                out@ == at_least(all.take(it.index() as int), self.min_severity),
        {
            let ghost k = it.index();
            proof {
                assert(all.take(k + 1).drop_last() =~= all.take(k as int));
                assert(all.take(k + 1).last() == rec);
            }
            if rec.severity.rank() >= self.min_severity.rank() {
                out.push(rec);
            }
        }
        assert(all.take(all.len() as int) =~= all);
        out
    }
}

/// `b` carries the same record as `a`, apart from its fields.
pub open spec fn same_but_fields(a: LogRecord, b: LogRecord) -> bool {
    &&& b.timestamp == a.timestamp
    &&& b.severity == a.severity
    &&& b.message == a.message
    &&& b.raw == a.raw
}

/// `m` with the value of every key of `keys` that it holds replaced by `with`.
pub open spec fn replaced(m: Map<Seq<char>, Seq<char>>, keys: Seq<Seq<char>>, with: Seq<char>) -> Map<Seq<char>, Seq<char>> {
    Map::new(
        |k: Seq<char>| m.dom().contains(k),
        |k: Seq<char>| if keys.contains(k) { with } else { m[k] },
    )
}

/// Replaces the values of sensitive fields (default replacement `[REDACTED]`).
pub struct FieldRedactor {
    sensitive_fields: Vec<String>,
    replacement: String,
}

impl FieldRedactor {
    pub closed spec fn keys(&self) -> Seq<Seq<char>> {
        self.sensitive_fields@.map_values(|k: String| k@)
    }

    pub closed spec fn spec_replacement(&self) -> Seq<char> {
        self.replacement@
    }

    pub fn new(fields: Vec<String>) -> (r: Self)
        ensures
            r.keys() == fields@.map_values(|k: String| k@),
            r.spec_replacement() == "[REDACTED]"@,
    {
        FieldRedactor { sensitive_fields: fields, replacement: owned("[REDACTED]") }
    }

    /// The redactor with another replacement text.
    pub fn with_replacement(self, replacement: &str) -> (r: Self)
        ensures
            r.keys() == self.keys(),
            r.spec_replacement() == replacement@,
    {
        FieldRedactor { sensitive_fields: self.sensitive_fields, replacement: owned(replacement) }
    }

    fn redact_one(&self, rec: LogRecord) -> (r: LogRecord)
        ensures
            same_but_fields(rec, r),
            r.fields.map() == replaced(rec.fields.map(), self.keys(), self.spec_replacement()),
    {
        let ghost r0 = rec;
        let mut rec = rec;
        let ghost m0 = rec.fields.map();
        let ghost keys = self.keys();
        let ghost with = self.replacement@;
        let mut j: usize = 0;
        while j < self.sensitive_fields.len()
            invariant
                0 <= j <= self.sensitive_fields.len(),
                keys == self.keys(),
                with == self.replacement@,
                keys.len() == self.sensitive_fields.len(),
                rec.fields.map() =~= replaced(m0, keys.take(j as int), with),
                same_but_fields(r0, rec),
            decreases self.sensitive_fields.len() - j,
        {
            let key = self.sensitive_fields[j].as_str();
            proof {
                assert(keys[j as int] == key@);
                assert forall|k: Seq<char>| keys.take(j + 1).contains(k) <==> (keys.take(j as int).contains(k) || k == key@) by {
                    if keys.take(j + 1).contains(k) {
                        let t = choose|t: int| 0 <= t < j + 1 && #[trigger] keys.take(j + 1)[t] == k;
                        if t < j {
                            assert(keys.take(j as int)[t] == k);
                        }
                    }
                    if keys.take(j as int).contains(k) {
                        let t = choose|t: int| 0 <= t < j && #[trigger] keys.take(j as int)[t] == k;
                        assert(keys.take(j + 1)[t] == k);
                    }
                    if k == key@ {
                        assert(keys.take(j + 1)[j as int] == k);
                    }
                }
            }
            if rec.fields.contains_key(key) {
                let ghost before = rec.fields.map();
                rec.fields.insert(key, self.replacement.as_str());
                assert(keys.take(j + 1)[j as int] == key@);
                assert(keys.take(j + 1).contains(key@));
                assert(rec.fields.map() =~= replaced(m0, keys.take(j + 1), with));
            } else {
                assert(rec.fields.map() =~= replaced(m0, keys.take(j + 1), with));
            }
            j = j + 1;
        }
        assert(keys.take(keys.len() as int) =~= keys);
        rec
    }
}

impl Processor for FieldRedactor {
    fn name(&self) -> (r: &str)
        ensures
            r@ == "field_redactor"@,
    {
        "field_redactor"
    }

    fn process(&mut self, records: Vec<LogRecord>) -> (r: Vec<LogRecord>)
        ensures
            r.len() == records.len(),
            forall|i: int| 0 <= i < records.len() ==> {
                &&& same_but_fields(records@[i], #[trigger] r@[i])
                &&& r@[i].fields.map() == replaced(records@[i].fields.map(), old(self).keys(), old(self).spec_replacement())
            },
            final(self).keys() == old(self).keys(),
            final(self).spec_replacement() == old(self).spec_replacement(),
    {
        let ghost all = records@;
        let mut out: Vec<LogRecord> = Vec::new();
        for rec in it: records.into_iter()
            invariant
                it.seq() == all,
                out.len() == it.index(),
                forall|i: int| 0 <= i < it.index() ==> {
                    &&& same_but_fields(all[i], #[trigger] out@[i])
                    &&& out@[i].fields.map() == replaced(all[i].fields.map(), self.keys(), self.spec_replacement())
                },
        {
            let r = self.redact_one(rec);
            out.push(r);
        }
        out
    }
}

/// The fields after enrichment: a record with an `ip` field gains `geo_country`.
pub open spec fn with_country(m: Map<Seq<char>, Seq<char>>) -> Map<Seq<char>, Seq<char>> {
    if m.dom().contains("ip"@) {
        m.insert("geo_country"@, "US"@)
    } else {
        m
    }
}

/// Adds a `geo_country` field to records that have an `ip` field. The lookup
/// is a placeholder that answers `US` for every address.
pub struct GeoIpEnricher {
    db_path: String,
}

impl GeoIpEnricher {
    pub closed spec fn spec_db_path(&self) -> Seq<char> {
        self.db_path@
    }

    pub fn new(db_path: &str) -> (r: Self)
        ensures
            r.spec_db_path() == db_path@,
    {
        GeoIpEnricher { db_path: owned(db_path) }
    }

    fn lookup(&self, ip: &str) -> (r: Option<String>)
        ensures
            r matches Some(c) && c@ == "US"@,
    {
        Some(owned("US"))
    }

    fn enrich_one(&self, rec: LogRecord) -> (r: LogRecord)
        ensures
            same_but_fields(rec, r),
            r.fields.map() == with_country(rec.fields.map()),
    {
        let mut rec = rec;
        let ip_opt = match rec.fields.get("ip") {
            Some(ip) => Some(ip.clone()),
            None => None,
        };
        match ip_opt {
            Some(ip) => {
                match self.lookup(ip.as_str()) {
                    Some(country) => {
                        rec.fields.insert("geo_country", country.as_str());
                    },
                    None => {},
                }
            },
            None => {},
        }
        rec
    }
}

impl Processor for GeoIpEnricher {
    fn name(&self) -> (r: &str)
        ensures
            r@ == "geo_ip_enricher"@,
    {
        "geo_ip_enricher"
    }

    fn process(&mut self, records: Vec<LogRecord>) -> (r: Vec<LogRecord>)
        ensures
            r.len() == records.len(),
            forall|i: int| 0 <= i < records.len() ==> {
                &&& same_but_fields(records@[i], #[trigger] r@[i])
                &&& r@[i].fields.map() == with_country(records@[i].fields.map())
            },
    {
        let ghost all = records@;
        let mut out: Vec<LogRecord> = Vec::new();
        for rec in it: records.into_iter()
            invariant
                it.seq() == all,
                out.len() == it.index(),
                forall|i: int| 0 <= i < it.index() ==> {
                    &&& same_but_fields(all[i], #[trigger] out@[i])
                    &&& out@[i].fields.map() == with_country(all[i].fields.map())
                },
        {
            let r = self.enrich_one(rec);
            out.push(r);
        }
        out
    }
}


/// How many records of `s` have severity `sev`.
pub open spec fn count_in(s: Seq<LogRecord>, sev: Severity) -> nat
    decreases s.len(),
{
    if s.len() == 0 {
        0
    } else if s.last().severity == sev {
        count_in(s.drop_last(), sev) + 1
    } else {
        count_in(s.drop_last(), sev)
    }
}

/// Record counts per severity; a severity that was never seen has no entry.
#[derive(Debug)]
pub struct SeverityCounts {
    slots: Vec<Option<u64>>,
}

impl SeverityCounts {
    #[verifier::type_invariant]
    spec fn six_slots(&self) -> bool {
        self.slots@.len() == 6
    }

    /// The count for `s`, if any record of it was seen.
    pub closed spec fn count_of(&self, s: Severity) -> Option<u64> {
        self.slots@[s.spec_rank() as int]
    }

    fn new() -> (r: Self)
        ensures
            forall|s: Severity| #[trigger] r.count_of(s) == None::<u64>,
    {
        SeverityCounts { slots: vec![None, None, None, None, None, None] }
    }

    /// The count for `s`.
    pub fn get(&self, s: &Severity) -> (r: Option<&u64>)
        ensures
            match r {
                Some(c) => self.count_of(*s) == Some(*c),
                None => self.count_of(*s) == None::<u64>,
            },
    {
        proof { use_type_invariant(self); }
        match &self.slots[s.rank() as usize] {
            Some(c) => Some(c),
            None => None,
        }
    }

    fn bump(&mut self, s: Severity)
        ensures
            final(self).count_of(s) == counted(old(self).count_of(s), 1),
            forall|t: Severity| t != s ==> #[trigger] final(self).count_of(t) == old(self).count_of(t),
    {
        proof { use_type_invariant(&*self); }
        let i = s.rank() as usize;
        let mut slots: Vec<Option<u64>> = vec![None, None, None, None, None, None];
        std::mem::swap(&mut slots, &mut self.slots);
        let next = match slots[i] {
            Some(c) => wrapping_succ(c),
            None => 1,
        };
        proof {
            lemma_wrap_step(0, 0);
            lemma_wrap_zero(0);
        }
        slots.set(i, Some(next));
        proof {
            assert forall|t: Severity| t != s implies t.spec_rank() != s.spec_rank() by {}
        }
        self.slots = slots;
    }
}

/// Counts records per severity; records pass through unchanged.
pub struct MetricsAggregator {
    counts: SeverityCounts,
    total: u64,
}

impl MetricsAggregator {
    pub closed spec fn count_of(&self, s: Severity) -> Option<u64> {
        self.counts.count_of(s)
    }

    pub closed spec fn spec_total(&self) -> u64 {
        self.total
    }

    pub fn new() -> (r: Self)
        ensures
            forall|s: Severity| #[trigger] r.count_of(s) == None::<u64>,
            r.spec_total() == 0,
    {
        MetricsAggregator { counts: SeverityCounts::new(), total: 0 }
    }

    /// The counts per severity and the total seen so far.
    pub fn snapshot(&self) -> (r: (&SeverityCounts, u64))
        ensures
            forall|s: Severity| #[trigger] r.0.count_of(s) == self.count_of(s),
            r.1 == self.spec_total(),
    {
        (&self.counts, self.total)
    }
}

impl Processor for MetricsAggregator {
    fn name(&self) -> (r: &str)
        ensures
            r@ == "metrics_aggregator"@,
    {
        "metrics_aggregator"
    }

    fn process(&mut self, records: Vec<LogRecord>) -> (r: Vec<LogRecord>)
        ensures
            r == records,
            forall|s: Severity| #[trigger] final(self).count_of(s) == counted(old(self).count_of(s), count_in(records@, s)),
            final(self).spec_total() == wrap_add(old(self).spec_total() as int, records.len() as int),
    {
        let ghost c0 = self.counts;
        let ghost t0 = self.total;
        let mut i: usize = 0;
        proof { lemma_wrap_step(t0 as int, 0); lemma_wrap_zero(t0 as int); }
        while i < records.len()
            invariant
                0 <= i <= records.len(),
                forall|s: Severity| #[trigger] self.counts.count_of(s) == counted(c0.count_of(s), count_in(records@.take(i as int), s)),
                self.total as int == wrap_add(t0 as int, i as int),
            decreases records.len() - i,
        {
            let sev = records[i].severity;
            proof {
                assert(records@.take(i + 1).drop_last() =~= records@.take(i as int));
                assert(records@.take(i + 1).last() == records@[i as int]);
                lemma_counted_step(c0.count_of(sev), count_in(records@.take(i as int), sev));
                lemma_wrap_succ(t0 as int, i as int);
            }
            self.counts.bump(sev);
            self.total = wrapping_succ(self.total);
            i = i + 1;
        }
        assert(records@.take(records.len() as int) =~= records@);
        records
    }
}

/// The records of `s` that a sampler with counter `c0` and `rate` keeps: the
/// i-th record (from 1) is kept when `c0 + i` (wrapping) is a multiple of `rate`.
pub open spec fn sampled(s: Seq<LogRecord>, c0: u64, rate: u64) -> Seq<LogRecord>
    decreases s.len(),
{
    if s.len() == 0 {
        Seq::empty()
    } else if wrap_add(c0 as int, s.len() as int) % (rate as int) == 0 {
        sampled(s.drop_last(), c0, rate).push(s.last())
    } else {
        sampled(s.drop_last(), c0, rate)
    }
}

/// Keeps one out of every `rate` records.
pub struct Sampler {
    rate: u64,
    counter: u64,
}

impl Sampler {
    #[verifier::type_invariant]
    spec fn positive_rate(&self) -> bool {
        self.rate >= 1
    }

    pub closed spec fn spec_rate(&self) -> u64 {
        self.rate
    }

    pub closed spec fn spec_counter(&self) -> u64 {
        self.counter
    }

    pub fn new(rate: u64) -> (r: Self)
        requires
            rate > 0,
        ensures
            r.spec_rate() == rate,
            r.spec_counter() == 0,
    {
        Sampler { rate, counter: 0 }
    }
}

impl Processor for Sampler {
    fn name(&self) -> (r: &str)
        ensures
            r@ == "sampler"@,
    {
        "sampler"
    }

    fn process(&mut self, records: Vec<LogRecord>) -> (r: Vec<LogRecord>)
        ensures
            r@ == sampled(records@, old(self).spec_counter(), old(self).spec_rate()),
            final(self).spec_rate() == old(self).spec_rate(),
            final(self).spec_counter() == wrap_add(old(self).spec_counter() as int, records.len() as int),
    {
        proof { use_type_invariant(&*self); }
        let ghost all = records@;
        let ghost c0 = self.counter;
        let ghost rate = self.rate;
        proof { lemma_wrap_step(c0 as int, 0); lemma_wrap_zero(c0 as int); }
        let mut out: Vec<LogRecord> = Vec::new();
        for rec in it: records.into_iter()
            invariant
                it.seq() == all,
                self.rate == rate,
                rate >= 1,
                self.counter as int == wrap_add(c0 as int, it.index() as int),
                out@ == sampled(all.take(it.index() as int), c0, rate),
        {
            let ghost k = it.index();
            proof {
                assert(all.take(k + 1).drop_last() =~= all.take(k as int));
                assert(all.take(k + 1).last() == rec);
                lemma_wrap_succ(c0 as int, k as int);
            }
            self.counter = wrapping_succ(self.counter);
            if self.counter % self.rate == 0 {
                out.push(rec);
            }
        }
        assert(all.take(all.len() as int) =~= all);
        out
    }
}

/// A destination ships processed records somewhere.
pub trait Destination {
    fn name(&self) -> &str;

    /// Whether shipping `records` may succeed (`ok`) or fail (`!ok`). A
    /// destination that does not say may do either.
    open spec fn may_ship(&self, records: Seq<LogRecord>, ok: bool) -> bool {
        true
    }

    /// Ships a batch of records.
    fn ship(&mut self, records: &[LogRecord]) -> (r: std::io::Result<()>)
        ensures
            old(self).may_ship(records@, r is Ok);

    /// Flushes buffered data; called at the end of a run.
    fn flush(&mut self) -> std::io::Result<()> {
        Ok(())
    }
}

/// `[SEVERITY] message`, the line form several destinations use.
pub open spec fn short_line(r: LogRecord) -> Seq<char> {
    "["@ + r.severity.spec_label() + "] "@ + r.message@
}

fn short_line_of(r: &LogRecord) -> (s: String)
    ensures
        s@ == short_line(*r),
{
    let mut s = String::new();
    push_str(&mut s, "[");
    push_str(&mut s, r.severity.label());
    push_str(&mut s, "] ");
    push_str(&mut s, r.message.as_str());
    s
}

/// Writes `[SEVERITY] message` lines to standard output.
pub struct StdoutDestination;

impl Destination for StdoutDestination {
    fn name(&self) -> (r: &str)
        ensures
            r@ == "stdout"@,
    {
        "stdout"
    }

    fn ship(&mut self, records: &[LogRecord]) -> (r: std::io::Result<()>)
        ensures
            records@.len() == 0 ==> r is Ok,
    {
        let mut i: usize = 0;
        while i < records.len()
            decreases records.len() - i,
        {
            let line = short_line_of(&records[i]);
            match write_stdout_line(line.as_str()) {
                Ok(()) => {},
                Err(e) => {
                    return Err(e);
                },
            }
            i = i + 1;
        }
        Ok(())
    }
}

/// The bulk document buffered for a record in `index`.
pub open spec fn index_doc(index: Seq<char>, r: LogRecord) -> Seq<char> {
    "{\"index\":\""@ + index + "\",\"severity\":\""@ + r.severity.spec_label() + "\",\"message\":\""@
        + r.message@ + "\"}"@
}

/// Buffers records as bulk documents; flushing drops the buffer (the HTTP
/// request is a placeholder).
pub struct ElasticsearchDestination {
    url: String,
    index: String,
    buffer: Vec<String>,
}

impl ElasticsearchDestination {
    pub closed spec fn spec_url(&self) -> Seq<char> {
        self.url@
    }

    pub closed spec fn spec_index(&self) -> Seq<char> {
        self.index@
    }

    pub closed spec fn buffered(&self) -> Seq<Seq<char>> {
        self.buffer@.map_values(|d: String| d@)
    }

    pub fn new(url: &str, index: &str) -> (r: Self)
        ensures
            r.spec_url() == url@,
            r.spec_index() == index@,
            r.buffered() == Seq::<Seq<char>>::empty(),
    {
        let r = ElasticsearchDestination { url: owned(url), index: owned(index), buffer: Vec::new() };
        assert(r.buffered() =~= Seq::<Seq<char>>::empty());
        r
    }
}

impl Destination for ElasticsearchDestination {
    fn name(&self) -> (r: &str)
        ensures
            r@ == "elasticsearch"@,
    {
        "elasticsearch"
    }

    fn ship(&mut self, records: &[LogRecord]) -> (r: std::io::Result<()>)
        ensures
            r is Ok,
            final(self).spec_url() == old(self).spec_url(),
            final(self).spec_index() == old(self).spec_index(),
            final(self).buffered() == old(self).buffered() + records@.map_values(|x: LogRecord| index_doc(old(self).spec_index(), x)),
    {
        let ghost b0 = self.buffered();
        let ghost idx = self.index@;
        let mut i: usize = 0;
        while i < records.len()
            invariant
                0 <= i <= records.len(),
                self.url == old(self).url,
                self.index == old(self).index,
                idx == self.index@,
                self.buffered() == b0 + records@.take(i as int).map_values(|x: LogRecord| index_doc(idx, x)),
            decreases records.len() - i,
        {
            let mut doc = String::new();
            push_str(&mut doc, "{\"index\":\"");
            push_str(&mut doc, self.index.as_str());
            push_str(&mut doc, "\",\"severity\":\"");
            push_str(&mut doc, records[i].severity.label());
            push_str(&mut doc, "\",\"message\":\"");
            push_str(&mut doc, records[i].message.as_str());
            push_str(&mut doc, "\"}");
            assert(doc@ =~= index_doc(idx, records@[i as int]));
            let ghost before = self.buffer@;
            self.buffer.push(doc);
            assert(self.buffer@ == before.push(doc));
            assert(self.buffer@.map_values(|d: String| d@) =~= before.map_values(|d: String| d@).push(doc@));
            assert(records@.take(i + 1).map_values(|x: LogRecord| index_doc(idx, x)) =~= records@.take(i as int).map_values(|x: LogRecord| index_doc(idx, x)).push(index_doc(idx, records@[i as int])));
            i = i + 1;
        }
        assert(records@.take(records.len() as int) =~= records@);
        Ok(())
    }

    /// Drops the buffered documents.
    fn flush(&mut self) -> (r: std::io::Result<()>)
        ensures
            r is Ok,
            final(self).spec_url() == old(self).spec_url(),
            final(self).spec_index() == old(self).spec_index(),
            final(self).buffered() == Seq::<Seq<char>>::empty(),
    {
        if self.buffer.len() > 0 {
            self.buffer.clear();
        }
        assert(self.buffered() =~= Seq::<Seq<char>>::empty());
        Ok(())
    }
}

/// Hands records to a Kafka topic (the producer is a placeholder).
pub struct KafkaDestination {
    brokers: String,
    topic: String,
}

impl KafkaDestination {
    pub closed spec fn spec_brokers(&self) -> Seq<char> {
        self.brokers@
    }

    pub closed spec fn spec_topic(&self) -> Seq<char> {
        self.topic@
    }

    pub fn new(brokers: &str, topic: &str) -> (r: Self)
        ensures
            r.spec_brokers() == brokers@,
            r.spec_topic() == topic@,
    {
        KafkaDestination { brokers: owned(brokers), topic: owned(topic) }
    }
}

impl Destination for KafkaDestination {
    fn name(&self) -> (r: &str)
        ensures
            r@ == "kafka"@,
    {
        "kafka"
    }

    /// Builds the `[SEVERITY] message` payload of each record.
    fn ship(&mut self, records: &[LogRecord]) -> (r: std::io::Result<()>)
        ensures
            r is Ok,
    {
        let mut i: usize = 0;
        while i < records.len()
            decreases records.len() - i,
        {
            let _payload = short_line_of(&records[i]);
            i = i + 1;
        }
        Ok(())
    }
}

/// Summary of a pipeline execution.
#[derive(Debug)]
pub struct PipelineResult {
    pub lines_read: usize,
    pub records_parsed: usize,
    pub records_output: usize,
}

impl PipelineResult {
    /// `Pipeline: L lines read, P parsed, O output`.
    pub fn to_string(&self) -> (s: String)
        ensures
            s@ == "Pipeline: "@ + crate::text::decimal(self.lines_read as nat) + " lines read, "@
                + crate::text::decimal(self.records_parsed as nat) + " parsed, "@
                + crate::text::decimal(self.records_output as nat) + " output"@,
    {
        let mut s = String::new();
        push_str(&mut s, "Pipeline: ");
        crate::text::push_decimal(&mut s, self.lines_read as u64);
        push_str(&mut s, " lines read, ");
        crate::text::push_decimal(&mut s, self.records_parsed as u64);
        push_str(&mut s, " parsed, ");
        crate::text::push_decimal(&mut s, self.records_output as u64);
        push_str(&mut s, " output");
        s
    }
}

/// `what 'name' outcome: error`, the line that reports a failing source or
/// destination.
pub open spec fn failure_text(what: Seq<char>, name: Seq<char>, outcome: Seq<char>, error: Seq<char>) -> Seq<char> {
    what + " '"@ + name + "' "@ + outcome + ": "@ + error
}

/// The line that reports a failing source or destination.
pub fn failure_line(what: &str, name: &str, outcome: &str, error: &str) -> (r: String)
    ensures
        r@ == failure_text(what@, name@, outcome@, error@),
{
    let mut s = String::new();
    push_str(&mut s, what);
    push_str(&mut s, " '");
    push_str(&mut s, name);
    push_str(&mut s, "' ");
    push_str(&mut s, outcome);
    push_str(&mut s, ": ");
    push_str(&mut s, error);
    s
}

/// Reports a failing source or destination on standard error.
fn report_io_failure(what: &str, name: &str, outcome: &str, err: &std::io::Error) {
    let text = describe_io_error(err);
    let line = failure_line(what, name, outcome, text.as_str());
    write_stderr_line(line.as_str());
}

/// The lines of the reads that succeeded, one read after another.
pub open spec fn read_lines_of(reads: Seq<Option<Seq<String>>>) -> Seq<String>
    decreases reads.len(),
{
    if reads.len() == 0 {
        Seq::empty()
    } else {
        read_lines_of(reads.drop_last()) + match reads.last() {
            Some(v) => v,
            None => Seq::empty(),
        }
    }
}

/// Parses every raw line, in order.
pub fn parse_lines(lines: &[String]) -> (r: Vec<LogRecord>)
    ensures
        r.len() == lines.len(),
        forall|i: int| 0 <= i < lines.len() ==> parsed_from(#[trigger] r@[i], lines@[i]@),
{
    let mut r: Vec<LogRecord> = Vec::new();
    let mut i: usize = 0;
    while i < lines.len()
        invariant
            0 <= i <= lines.len(),
            r.len() == i,
            forall|j: int| 0 <= j < i ==> parsed_from(#[trigger] r@[j], lines@[j]@),
        decreases lines.len() - i,
    {
        r.push(parse_line(lines[i].as_str()));
        i = i + 1;
    }
    r
}

/// Reads from every source, parses the lines, runs the processors in order
/// and ships the result to every destination. Failing sources and
/// destinations are reported on standard error and skipped.
pub struct Pipeline {
    sources: Vec<Box<dyn Source>>,
    processors: Vec<Box<dyn Processor>>,
    destinations: Vec<Box<dyn Destination>>,
}

impl Pipeline {
    pub closed spec fn num_sources(&self) -> nat {
        self.sources@.len()
    }

    pub closed spec fn num_processors(&self) -> nat {
        self.processors@.len()
    }

    pub closed spec fn num_destinations(&self) -> nat {
        self.destinations@.len()
    }

    pub fn new() -> (r: Self)
        ensures
            r.num_sources() == 0,
            r.num_processors() == 0,
            r.num_destinations() == 0,
    {
        Pipeline { sources: Vec::new(), processors: Vec::new(), destinations: Vec::new() }
    }

    /// Adds a log source; all sources are read during a run.
    pub fn source<S: Source + 'static>(self, source: S) -> (r: Self)
        ensures
            r.num_sources() == self.num_sources() + 1,
            r.num_processors() == self.num_processors(),
            r.num_destinations() == self.num_destinations(),
    {
        let Pipeline { mut sources, processors, destinations } = self;
        let b: Box<dyn Source> = Box::new(source);
        push_boxed(&mut sources, b);
        Pipeline { sources, processors, destinations }
    }

    /// Appends a processor; processors run in the order they are added.
    pub fn processor<P: Processor + 'static>(self, processor: P) -> (r: Self)
        ensures
            r.num_sources() == self.num_sources(),
            r.num_processors() == self.num_processors() + 1,
            r.num_destinations() == self.num_destinations(),
    {
        let Pipeline { sources, mut processors, destinations } = self;
        let b: Box<dyn Processor> = Box::new(processor);
        push_boxed(&mut processors, b);
        Pipeline { sources, processors, destinations }
    }

    /// Adds a destination; records are shipped to every destination.
    pub fn destination<D: Destination + 'static>(self, dest: D) -> (r: Self)
        ensures
            r.num_sources() == self.num_sources(),
            r.num_processors() == self.num_processors(),
            r.num_destinations() == self.num_destinations() + 1,
    {
        let Pipeline { sources, processors, mut destinations } = self;
        let b: Box<dyn Destination> = Box::new(dest);
        push_boxed(&mut destinations, b);
        Pipeline { sources, processors, destinations }
    }

    /// `reads` are what each source may have read, in order, and `stages` the
    /// records before and after each processor in turn, starting from the
    /// records parsed from the lines read.
    pub closed spec fn run_fits(&self, reads: Seq<Option<Seq<String>>>, stages: Seq<Seq<LogRecord>>) -> bool {
        &&& reads.len() == self.sources@.len()
        &&& forall|i: int| 0 <= i < reads.len() ==> #[trigger] self.sources@[i].may_read(reads[i])
        &&& stages.len() == self.processors@.len() + 1
        &&& stages[0].len() == read_lines_of(reads).len()
        &&& forall|k: int| 0 <= k < stages[0].len() ==> parsed_from(#[trigger] stages[0][k], read_lines_of(reads)[k]@)
        &&& forall|j: int| 0 <= j < self.processors@.len() ==> #[trigger] self.processors@[j].may_process(stages[j], stages[j + 1])
    }

    /// Every destination was handed `records`, whatever it answered.
    pub closed spec fn all_handed(&self, records: Seq<LogRecord>) -> bool {
        forall|k: int| #![trigger self.destinations@[k]] 0 <= k < self.destinations@.len()
            ==> self.destinations@[k].may_ship(records, true) || self.destinations@[k].may_ship(records, false)
    }

    /// Executes the pipeline: read, parse, process, ship, flush.
    ///
    /// What the sources read, the processors give and the destinations answer
    /// is their own affair (the traits are for users to implement): the run is
    /// stated over what each of them may do.
    pub fn run(&mut self) -> (r: std::io::Result<PipelineResult>)
        ensures
            r matches Ok(res) && res.records_parsed == res.lines_read,
            old(self).num_processors() == 0 ==> (r matches Ok(res) && res.records_output == res.records_parsed),
            old(self).num_sources() == 0 ==> (r matches Ok(res) && res.lines_read == 0),
            final(self).num_sources() == old(self).num_sources(),
            final(self).num_processors() == old(self).num_processors(),
            final(self).num_destinations() == old(self).num_destinations(),
            exists|reads: Seq<Option<Seq<String>>>, stages: Seq<Seq<LogRecord>>| #[trigger] old(self).run_fits(reads, stages)
                && (r matches Ok(res) && res.lines_read == read_lines_of(reads).len()
                    && res.records_output == stages.last().len())
                && old(self).all_handed(stages.last()),
    {
        let ghost srcs0 = self.sources@;
        let ghost procs0 = self.processors@;
        let ghost dests0 = self.destinations@;
        let ghost mut reads: Seq<Option<Seq<String>>> = Seq::empty();
        let mut raw_lines: Vec<String> = Vec::new();
        let mut i: usize = 0;
        while i < self.sources.len()
            invariant
                0 <= i <= self.sources.len(),
                srcs0 == old(self).sources@,
                self.sources@.len() == old(self).sources@.len(),
                self.processors == old(self).processors,
                self.destinations == old(self).destinations,
                self.sources@.len() == 0 ==> raw_lines@.len() == 0,
                forall|q: int| i <= q < srcs0.len() ==> #[trigger] self.sources@[q] == srcs0[q],
                reads.len() == i,
                forall|q: int| 0 <= q < i ==> #[trigger] srcs0[q].may_read(reads[q]),
                raw_lines@ == read_lines_of(reads),
            decreases self.sources.len() - i,
        {
            let got = self.sources[i].read_lines();
            let ghost r0 = reads;
            match got {
                Ok(lines) => {
                    let mut lines = lines;
                    proof {
                        reads = reads.push(Some(lines@));
                        assert(reads.drop_last() == r0);
                    }
                    raw_lines.append(&mut lines);
                },
                Err(e) => {
                    proof {
                        reads = reads.push(None);
                        assert(reads.drop_last() == r0);
                        assert(raw_lines@ =~= read_lines_of(reads));
                    }
                    report_io_failure("Source", self.sources[i].name(), "failed", &e);
                },
            }
            proof {
                assert forall|q: int| 0 <= q < i + 1 implies #[trigger] srcs0[q].may_read(reads[q]) by {
                    if q < i {
                        assert(reads[q] == r0[q]);
                    }
                }
            }
            i = i + 1;
        }
        let mut records = parse_lines(raw_lines.as_slice());
        let parsed_count = records.len();
        let ghost parsed0 = records@;
        let ghost mut stages: Seq<Seq<LogRecord>> = seq![records@];
        let mut j: usize = 0;
        while j < self.processors.len()
            invariant
                0 <= j <= self.processors.len(),
                procs0 == old(self).processors@,
                self.sources@.len() == old(self).sources@.len(),
                self.processors@.len() == old(self).processors@.len(),
                self.destinations == old(self).destinations,
                self.processors@.len() == 0 ==> records@.len() == parsed_count,
                forall|q: int| j <= q < procs0.len() ==> #[trigger] self.processors@[q] == procs0[q],
                stages.len() == j + 1,
                records@ == stages[j as int],
                stages[0] == parsed0,
                parsed0.len() == read_lines_of(reads).len(),
                forall|q: int| 0 <= q < parsed0.len() ==> parsed_from(#[trigger] parsed0[q], read_lines_of(reads)[q]@),
                reads.len() == srcs0.len(),
                srcs0 == old(self).sources@,
                forall|q: int| 0 <= q < reads.len() ==> #[trigger] srcs0[q].may_read(reads[q]),
                forall|q: int| 0 <= q < j ==> #[trigger] procs0[q].may_process(stages[q], stages[q + 1]),
            decreases self.processors.len() - j,
        {
            records = self.processors[j].process(records);
            proof {
                let s0 = stages;
                stages = stages.push(records@);
                assert forall|q: int| 0 <= q < j + 1 implies #[trigger] procs0[q].may_process(stages[q], stages[q + 1]) by {
                    if q < j {
                        assert(stages[q] == s0[q] && stages[q + 1] == s0[q + 1]);
                    }
                }
            }
            j = j + 1;
        }
        let output_count = records.len();
        let ghost out = records@;
        assert(old(self).run_fits(reads, stages));
        let mut k: usize = 0;
        while k < self.destinations.len()
            invariant
                0 <= k <= self.destinations.len(),
                dests0 == old(self).destinations@,
                self.sources@.len() == old(self).sources@.len(),
                self.processors@.len() == old(self).processors@.len(),
                self.destinations@.len() == old(self).destinations@.len(),
                out == records@,
                forall|q: int| k <= q < dests0.len() ==> #[trigger] self.destinations@[q] == dests0[q],
                forall|q: int| #![trigger dests0[q]] 0 <= q < k ==> dests0[q].may_ship(out, true) || dests0[q].may_ship(out, false),
            decreases self.destinations.len() - k,
        {
            let shipped = self.destinations[k].ship(records.as_slice());
            proof {
                assert(dests0[k as int].may_ship(out, shipped is Ok));
                assert forall|q: int| #![trigger dests0[q]] 0 <= q < k + 1 implies dests0[q].may_ship(out, true) || dests0[q].may_ship(out, false) by {
                    if q == k {
                        assert(dests0[q].may_ship(out, shipped is Ok));
                    }
                }
            }
            match shipped {
                Ok(()) => {},
                Err(e) => {
                    report_io_failure("Destination", self.destinations[k].name(), "failed", &e);
                },
            }
            k = k + 1;
        }
        assert(old(self).all_handed(out));
        let mut m: usize = 0;
        while m < self.destinations.len()
            invariant
                0 <= m <= self.destinations.len(),
                self.sources@.len() == old(self).sources@.len(),
                self.processors@.len() == old(self).processors@.len(),
                self.destinations@.len() == old(self).destinations@.len(),
            decreases self.destinations.len() - m,
        {
            match self.destinations[m].flush() {
                Ok(()) => {},
                Err(e) => {
                    report_io_failure("Destination", self.destinations[m].name(), "flush failed", &e);
                },
            }
            m = m + 1;
        }
        Ok(PipelineResult { lines_read: raw_lines.len(), records_parsed: parsed_count, records_output: output_count })
    }
}

} // verus!
