//! A log processing pipeline: sources yield records, a chain of processors
//! filters or enriches them, and destinations ship them.
use vstd::prelude::*;
use crate::boxed::push_boxed;
use crate::fields::{Fields, to_map};
use crate::text::{all_ascii, ascii_upper, 
    chars_of, decimal, find_char, first_index, owned, push_char, push_decimal, push_str,
    str_eq, string_from_chars, string_from_range, to_uppercase, trim, trim_chars, uppercase,
};
use vstd::arithmetic::div_mod::{lemma_fundamental_div_mod, lemma_fundamental_div_mod_converse, lemma_mod_multiples_vanish, lemma_mod_pos_bound};
use crate::wrap::{lemma_wrap_step, lemma_wrap_succ, lemma_wrap_zero, wrap_add, wrapping_succ};
use crate::sys::{now_millis, read_stdin_lines, write_stdout_line};

verus! {

/// Severity levels for log records, from least to most severe.
#[derive(Debug, Clone, Copy, PartialEq, Eq, Structural, PartialOrd, Ord, Hash)]
pub enum Severity {
    Trace,
    Debug,
    Info,
    Warn,
    Error,
    Fatal,
}

/// The severity whose upper-case name is `u`.
pub open spec fn severity_named(u: Seq<char>) -> Option<Severity> {
    if u == "TRACE"@ {
        Some(Severity::Trace)
    } else if u == "DEBUG"@ {
        Some(Severity::Debug)
    } else if u == "INFO"@ {
        Some(Severity::Info)
    } else if u == "WARN"@ {
        Some(Severity::Warn)
    } else if u == "ERROR"@ {
        Some(Severity::Error)
    } else if u == "FATAL"@ {
        Some(Severity::Fatal)
    } else {
        None
    }
}

impl Severity {
    /// Position in the order Trace < Debug < Info < Warn < Error < Fatal.
    pub open spec fn spec_rank(self) -> nat {
        match self {
            Severity::Trace => 0,
            Severity::Debug => 1,
            Severity::Info => 2,
            Severity::Warn => 3,
            Severity::Error => 4,
            Severity::Fatal => 5,
        }
    }

    /// The upper-case name of the level.
    pub open spec fn spec_label(self) -> Seq<char> {
        match self {
            Severity::Trace => "TRACE"@,
            Severity::Debug => "DEBUG"@,
            Severity::Info => "INFO"@,
            Severity::Warn => "WARN"@,
            Severity::Error => "ERROR"@,
            Severity::Fatal => "FATAL"@,
        }
    }

    pub fn rank(&self) -> (r: u8)
        ensures
            r == self.spec_rank(),
    {
        match self {
            Severity::Trace => 0,
            Severity::Debug => 1,
            Severity::Info => 2,
            Severity::Warn => 3,
            Severity::Error => 4,
            Severity::Fatal => 5,
        }
    }

    pub fn label(&self) -> (r: &'static str)
        ensures
            r@ == self.spec_label(),
    {
        match self {
            Severity::Trace => "TRACE",
            Severity::Debug => "DEBUG",
            Severity::Info => "INFO",
            Severity::Warn => "WARN",
            Severity::Error => "ERROR",
            Severity::Fatal => "FATAL",
        }
    }

    /// The displayed form of the level, e.g. `ERROR`.
    pub fn to_string(&self) -> (r: String)
        ensures
            r@ == self.spec_label(),
    {
        owned(self.label())
    }

    /// The level named by `s`, ignoring case; unknown names give `Info`.
    pub fn parse(s: &str) -> (r: Severity)
        ensures
            r == (match severity_named(uppercase(s@)) {
                Some(v) => v,
                None => Severity::Info,
            }),
            all_ascii(s@) ==> r == (match severity_named(ascii_upper(s@)) {
                Some(v) => v,
                None => Severity::Info,
            }),
    {
        let u = to_uppercase(s);
        match severity_from_name(u.as_str()) {
            Some(v) => v,
            None => Severity::Info,
        }
    }
}

/// Every level is read back from its label: the label is upper-case ASCII,
/// so `parse` finds it again.
pub proof fn lemma_severity_round_trip(v: Severity)
    ensures
        all_ascii(v.spec_label()),
        severity_named(ascii_upper(v.spec_label())) == Some(v),
{
    reveal_strlit("TRACE");
    reveal_strlit("DEBUG");
    reveal_strlit("INFO");
    reveal_strlit("WARN");
    reveal_strlit("ERROR");
    reveal_strlit("FATAL");
    assert(ascii_upper(v.spec_label()) =~= v.spec_label());
    let names = seq!["TRACE"@, "DEBUG"@, "INFO"@, "WARN"@, "ERROR"@, "FATAL"@];
    assert forall|a: int, b: int| 0 <= a < 6 && 0 <= b < 6 && a != b implies #[trigger] names[a] != #[trigger] names[b] by {
        assert(names[a][0] != names[b][0]);
    }
    assert(names[0] == "TRACE"@ && names[1] == "DEBUG"@ && names[2] == "INFO"@);
    assert(names[3] == "WARN"@ && names[4] == "ERROR"@ && names[5] == "FATAL"@);
}

fn severity_from_name(u: &str) -> (r: Option<Severity>)
    ensures
        r == severity_named(u@),
{
    if str_eq(u, "TRACE") {
        Some(Severity::Trace)
    } else if str_eq(u, "DEBUG") {
        Some(Severity::Debug)
    } else if str_eq(u, "INFO") {
        Some(Severity::Info)
    } else if str_eq(u, "WARN") {
        Some(Severity::Warn)
    } else if str_eq(u, "ERROR") {
        Some(Severity::Error)
    } else if str_eq(u, "FATAL") {
        Some(Severity::Fatal)
    } else {
        None
    }
}

/// A structured log record flowing through the pipeline.
#[derive(Debug)]
pub struct LogRecord {
    pub timestamp: u64,
    pub severity: Severity,
    pub message: String,
    pub source: String,
    pub fields: Fields,
}

impl Clone for LogRecord {
    fn clone(&self) -> (r: Self)
        ensures
            r.timestamp == self.timestamp,
            r.severity == self.severity,
            r.message == self.message,
            r.source == self.source,
            r.fields.map() == self.fields.map(),
            r.fields.pairs() == self.fields.pairs(),
    {
        LogRecord {
            timestamp: self.timestamp,
            severity: self.severity,
            message: self.message.clone(),
            source: self.source.clone(),
            fields: self.fields.clone(),
        }
    }
}

/// `k=v` for one field.
pub open spec fn pair_text(p: (Seq<char>, Seq<char>)) -> Seq<char> {
    p.0 + "="@ + p.1
}

/// The fields as `k=v` items joined by `, `.
pub open spec fn joined_pairs(ps: Seq<(Seq<char>, Seq<char>)>) -> Seq<char>
    decreases ps.len(),
{
    if ps.len() == 0 {
        Seq::empty()
    } else if ps.len() == 1 {
        pair_text(ps[0])
    } else {
        joined_pairs(ps.drop_last()) + ", "@ + pair_text(ps.last())
    }
}

/// `[SEVERITY] timestamp | message`, then ` | k=v, ...` when there are fields.
pub open spec fn record_text(r: LogRecord) -> Seq<char> {
    let head = "["@ + r.severity.spec_label() + "] "@ + decimal(r.timestamp as nat) + " | "@ + r.message@;
    if r.fields.pairs().len() == 0 {
        head
    } else {
        head + " | "@ + joined_pairs(r.fields.pairs())
    }
}

impl LogRecord {
    /// A record stamped with the current time, with no source and no fields.
    pub fn new(severity: Severity, message: &str) -> (r: Self)
        ensures
            r.severity == severity,
            r.message@ == message@,
            r.source@ == Seq::<char>::empty(),
            r.fields.map() == Map::<Seq<char>, Seq<char>>::empty(),
            r.fields.pairs().len() == 0,
    {
        LogRecord {
            timestamp: now_millis(),
            severity,
            message: owned(message),
            source: String::new(),
            fields: Fields::new(),
        }
    }

    /// The record with field `key` set to `value`.
    pub fn with_field(self, key: &str, value: &str) -> (r: Self)
        ensures
            r.timestamp == self.timestamp,
            r.severity == self.severity,
            r.message == self.message,
            r.source == self.source,
            r.fields.map() == self.fields.map().insert(key@, value@),
    {
        let mut r = self;
        r.fields.insert(key, value);
        r
    }

    /// The record with its source set to `source`.
    pub fn with_source(self, source: &str) -> (r: Self)
        ensures
            r.timestamp == self.timestamp,
            r.severity == self.severity,
            r.message == self.message,
            r.source@ == source@,
            r.fields.map() == self.fields.map(),
            r.fields.pairs() == self.fields.pairs(),
    {
        let mut r = self;
        r.source = owned(source);
        r
    }

    /// The displayed form of the record.
    pub fn to_string(&self) -> (s: String)
        ensures
            s@ == record_text(*self),
    {
        let mut s = String::new();
        push_str(&mut s, "[");
        push_str(&mut s, self.severity.label());
        push_str(&mut s, "] ");
        push_decimal(&mut s, self.timestamp);
        push_str(&mut s, " | ");
        push_str(&mut s, self.message.as_str());
        assert(s@ =~= "["@ + self.severity.spec_label() + "] "@ + decimal(self.timestamp as nat) + " | "@ + self.message@);
        let n = self.fields.len();
        if n > 0 {
            push_str(&mut s, " | ");
            let ghost head = s@;
            let mut i: usize = 0;
            while i < n
                invariant
                    0 <= i <= n,
                    n == self.fields.pairs().len(),
                    s@ == head + joined_pairs(self.fields.pairs().take(i as int)),
                decreases n - i,
            {
                let (k, v) = self.fields.entry(i);
                let ghost before = s@;
                if i > 0 {
                    push_str(&mut s, ", ");
                }
                push_str(&mut s, k.as_str());
                push_str(&mut s, "=");
                push_str(&mut s, v.as_str());
                proof {
                    let ps = self.fields.pairs();
                    assert(ps.take(i + 1).drop_last() =~= ps.take(i as int));
                    assert(ps.take(i + 1).last() == ps[i as int]);
                    assert(pair_text(ps[i as int]) == k@ + "="@ + v@);
                    if i == 0 {
                        assert(joined_pairs(ps.take(0)) =~= Seq::<char>::empty());
                        assert(joined_pairs(ps.take(1)) == pair_text(ps.take(1)[0]));
                        assert(s@ =~= head + joined_pairs(ps.take(i + 1)));
                    } else {
                        assert(joined_pairs(ps.take(i + 1)) == joined_pairs(ps.take(i as int)) + ", "@ + pair_text(ps[i as int]));
                        assert(s@ =~= head + joined_pairs(ps.take(i + 1)));
                    }
                }
                i = i + 1;
            }
            assert(self.fields.pairs().take(n as int) =~= self.fields.pairs());
        }
        s
    }
}

/// The severity `parse_log_line` gives a line.
pub open spec fn line_severity(line: Seq<char>) -> Severity {
    let t = trim(line);
    let p = first_index(t, ' ');
    if p < t.len() {
        match severity_named(uppercase(t.take(p))) {
            Some(v) => v,
            None => Severity::Info,
        }
    } else {
        Severity::Info
    }
}

/// The message `parse_log_line` gives a line.
pub open spec fn line_message(line: Seq<char>) -> Seq<char> {
    let t = trim(line);
    let p = first_index(t, ' ');
    if p < t.len() && severity_named(uppercase(t.take(p))) is Some {
        t.skip(p + 1)
    } else {
        t
    }
}

/// Parses `SEVERITY message` (severity in any case) or a bare message, which
/// is `INFO`. Surrounding whitespace is dropped.
pub fn parse_log_line(line: &str) -> (r: LogRecord)
    ensures
        r.severity == line_severity(line@),
        r.message@ == line_message(line@),
        r.source@ == Seq::<char>::empty(),
        r.fields.map() == Map::<Seq<char>, Seq<char>>::empty(),
        r.fields.pairs().len() == 0,
{
    let cs = chars_of(line);
    let t = trim_chars(&cs);
    let p = find_char(&t, ' ');
    if t.len() == 0 {
        let whole = string_from_chars(&t);
        return LogRecord::new(Severity::Info, whole.as_str());
    }
    if p < t.len() {
        let first = string_from_range(&t, 0, p);
        assert(first@ =~= t@.take(p as int));
        let candidate = to_uppercase(first.as_str());
        match severity_from_name(candidate.as_str()) {
            Some(sev) => {
                let rest = string_from_range(&t, p + 1, t.len());
                assert(rest@ =~= t@.skip(p + 1));
                LogRecord::new(sev, rest.as_str())
            },
            None => {
                let whole = string_from_chars(&t);
                LogRecord::new(Severity::Info, whole.as_str())
            },
        }
    } else {
        let whole = string_from_chars(&t);
        LogRecord::new(Severity::Info, whole.as_str())
    }
}


/// The record `parse_log_line` gives `line`, tagged with `source`.
pub open spec fn parsed_from(r: LogRecord, line: Seq<char>, source: Seq<char>) -> bool {
    &&& r.severity == line_severity(line)
    &&& r.message@ == line_message(line)
    &&& r.source@ == source
    &&& r.fields.map() == Map::<Seq<char>, Seq<char>>::empty()
    &&& r.fields.pairs().len() == 0
}

/// Parses each line and tags the record with `source`.
pub fn records_from_lines(lines: &[String], source: &str) -> (r: Vec<LogRecord>)
    ensures
        r.len() == lines.len(),
        forall|i: int| 0 <= i < lines.len() ==> parsed_from(#[trigger] r@[i], lines@[i]@, source@),
{
    let mut r: Vec<LogRecord> = Vec::new();
    let mut i: usize = 0;
    while i < lines.len()
        invariant
            0 <= i <= lines.len(),
            r.len() == i,
            forall|j: int| 0 <= j < i ==> parsed_from(#[trigger] r@[j], lines@[j]@, source@),
        decreases lines.len() - i,
    {
        let rec = parse_log_line(lines[i].as_str()).with_source(source);
        r.push(rec);
        i = i + 1;
    }
    r
}

/// A source yields log records read from somewhere.
pub trait Source {
    /// Whether a read may give `batch`. A source that does not say may give
    /// anything.
    open spec fn may_read(&self, batch: Seq<LogRecord>) -> bool {
        true
    }

    /// Reads all available records; empty once the source is exhausted.
    fn read_records(&mut self) -> (r: Vec<LogRecord>)
        ensures
            old(self).may_read(r@);

    /// Name used for tagging records.
    fn name(&self) -> &str;
}

/// A processor transforms or filters a batch of records.
pub trait Processor {
    /// Whether processing `input` may give `output`. A processor that does not
    /// say may give anything.
    open spec fn may_process(&self, input: Seq<LogRecord>, output: Seq<LogRecord>) -> bool {
        true
    }

    fn process(&mut self, records: Vec<LogRecord>) -> (r: Vec<LogRecord>)
        ensures
            old(self).may_process(records@, r@);

    fn name(&self) -> &str;
}

/// A destination ships processed records somewhere.
pub trait Destination {
    /// Whether writing `records` may succeed (`ok`) or fail (`!ok`). A
    /// destination that does not say may do either.
    open spec fn may_write(&self, records: Seq<LogRecord>, ok: bool) -> bool {
        true
    }

    fn write_records(&mut self, records: &[LogRecord]) -> (r: std::io::Result<()>)
        ensures
            old(self).may_write(records@, r is Ok);

    /// Whether flushing may succeed (`ok`) or fail (`!ok`). A destination
    /// that does not say may do either.
    open spec fn may_flush(&self, ok: bool) -> bool {
        true
    }

    /// Called once when the pipeline shuts down. (Each destination says how
    /// it flushes, so that what it may answer is tied to what it does.)
    fn flush(&mut self) -> (r: std::io::Result<()>)
        ensures
            old(self).may_flush(r is Ok);

    fn name(&self) -> &str;
}

/// Log lines held in memory, read once.
pub struct MemorySource {
    pub label: String,
    pub lines: Vec<String>,
    pub consumed: bool,
}

impl MemorySource {
    pub fn new(label: &str, lines: Vec<String>) -> (r: Self)
        ensures
            r.label@ == label@,
            r.lines == lines,
            !r.consumed,
    {
        MemorySource { label: owned(label), lines, consumed: false }
    }
}

impl Source for MemorySource {
    /// The first call parses every line, tagged with the label; later calls give nothing.
    fn read_records(&mut self) -> (r: Vec<LogRecord>)
        ensures
            final(self).consumed,
            final(self).label == old(self).label,
            final(self).lines == old(self).lines,
            old(self).consumed ==> r.len() == 0,
            !old(self).consumed ==> r.len() == old(self).lines.len() && forall|i: int|
                0 <= i < old(self).lines.len() ==> parsed_from(#[trigger] r@[i], old(self).lines@[i]@, old(self).label@),
    {
        if self.consumed {
            return Vec::new();
        }
        self.consumed = true;
        records_from_lines(self.lines.as_slice(), self.label.as_str())
    }

    fn name(&self) -> (r: &str)
        ensures
            r@ == self.label@,
    {
        self.label.as_str()
    }
}

/// Reads lines from standard input once, up to a limit.
pub struct StdinSource {
    max_lines: usize,
    consumed: bool,
}

impl StdinSource {
    pub closed spec fn spec_max_lines(&self) -> usize {
        self.max_lines
    }

    pub closed spec fn spec_consumed(&self) -> bool {
        self.consumed
    }

    pub fn new(max_lines: usize) -> (r: Self)
        ensures
            r.spec_max_lines() == max_lines,
            !r.spec_consumed(),
    {
        StdinSource { max_lines, consumed: false }
    }
}

impl Source for StdinSource {
    /// The first call parses the lines read from standard input, each tagged
    /// `stdin`; later calls give nothing.
    fn read_records(&mut self) -> (r: Vec<LogRecord>)
        ensures
            final(self).spec_consumed(),
            final(self).spec_max_lines() == old(self).spec_max_lines(),
            old(self).spec_consumed() ==> r.len() == 0,
            forall|i: int| 0 <= i < r.len() ==> (#[trigger] r@[i]).source@ == "stdin"@ && r@[i].fields.pairs().len() == 0,
    {
        if self.consumed {
            return Vec::new();
        }
        self.consumed = true;
        let lines = read_stdin_lines(self.max_lines);
        records_from_lines(lines.as_slice(), "stdin")
    }

    fn name(&self) -> (r: &str)
        ensures
            r@ == "stdin"@,
    {
        "stdin"
    }
}

/// The records of `s` whose severity is at least `min`, in order.
pub open spec fn at_least(s: Seq<LogRecord>, min: Severity) -> Seq<LogRecord>
    decreases s.len(),
{
    if s.len() == 0 {
        Seq::empty()
    } else if s.last().severity.spec_rank() >= min.spec_rank() {
        at_least(s.drop_last(), min).push(s.last())
    } else {
        at_least(s.drop_last(), min)
    }
}

/// Drops records below a minimum severity.
pub struct SeverityFilter {
    min_severity: Severity,
}

impl SeverityFilter {
    pub closed spec fn min(&self) -> Severity {
        self.min_severity
    }

    pub fn new(min_severity: Severity) -> (r: Self)
        ensures
            r.min() == min_severity,
    {
        SeverityFilter { min_severity }
    }
}

impl Processor for SeverityFilter {
    fn process(&mut self, records: Vec<LogRecord>) -> (r: Vec<LogRecord>)
        ensures
            r@ == at_least(records@, old(self).min()),
            final(self).min() == old(self).min(),
    {
        let ghost all = records@;
        let mut out: Vec<LogRecord> = Vec::new();
        for rec in it: records.into_iter()
            invariant
                it.seq() == all,
                out@ == at_least(all.take(it.index() as int), self.min_severity),
        {
            let ghost k = it.index();
            proof {
                assert(all.take(k + 1).drop_last() =~= all.take(k as int));
                assert(all.take(k + 1).last() == rec);
            }
            if rec.severity.rank() >= self.min_severity.rank() {
                out.push(rec);
            }
        }
        assert(all.take(all.len() as int) =~= all);
        out
    }

    fn name(&self) -> (r: &str)
        ensures
            r@ == "severity_filter"@,
    {
        "severity_filter"
    }
}


/// `b` carries the same record as `a`, apart from its fields.
pub open spec fn same_but_fields(a: LogRecord, b: LogRecord) -> bool {
    &&& b.timestamp == a.timestamp
    &&& b.severity == a.severity
    &&& b.message == a.message
    &&& b.source == a.source
}

/// `m` with the value of every key of `keys` that it holds replaced by `[REDACTED]`.
pub open spec fn redacted(m: Map<Seq<char>, Seq<char>>, keys: Seq<Seq<char>>) -> Map<Seq<char>, Seq<char>> {
    Map::new(
        |k: Seq<char>| m.dom().contains(k),
        |k: Seq<char>| if keys.contains(k) { "[REDACTED]"@ } else { m[k] },
    )
}

/// Replaces the values of sensitive fields with `[REDACTED]`.
pub struct FieldRedactor {
    sensitive_keys: Vec<String>,
}

impl FieldRedactor {
    pub closed spec fn keys(&self) -> Seq<Seq<char>> {
        self.sensitive_keys@.map_values(|k: String| k@)
    }

    pub fn new(keys: Vec<String>) -> (r: Self)
        ensures
            r.keys() == keys@.map_values(|k: String| k@),
    {
        FieldRedactor { sensitive_keys: keys }
    }

    fn redact_one(&self, rec: LogRecord) -> (r: LogRecord)
        ensures
            same_but_fields(rec, r),
            r.fields.map() == redacted(rec.fields.map(), self.keys()),
    {
        let ghost r0 = rec;
        let mut rec = rec;
        let ghost m0 = rec.fields.map();
        let ghost keys = self.keys();
        let mut j: usize = 0;
        while j < self.sensitive_keys.len()
            invariant
                0 <= j <= self.sensitive_keys.len(),
                keys == self.keys(),
                keys.len() == self.sensitive_keys.len(),
                rec.fields.map() =~= redacted(m0, keys.take(j as int)),
                same_but_fields(r0, rec),
            decreases self.sensitive_keys.len() - j,
        {
            let key = self.sensitive_keys[j].as_str();
            proof {
                assert(keys[j as int] == key@);
                assert forall|k: Seq<char>| keys.take(j + 1).contains(k) <==> (keys.take(j as int).contains(k) || k == key@) by {
                    if keys.take(j + 1).contains(k) {
                        let t = choose|t: int| 0 <= t < j + 1 && #[trigger] keys.take(j + 1)[t] == k;
                        if t < j {
                            assert(keys.take(j as int)[t] == k);
                        }
                    }
                    if keys.take(j as int).contains(k) {
                        let t = choose|t: int| 0 <= t < j && #[trigger] keys.take(j as int)[t] == k;
                        assert(keys.take(j + 1)[t] == k);
                    }
                    if k == key@ {
                        assert(keys.take(j + 1)[j as int] == k);
                    }
                }
            }
            if rec.fields.contains_key(key) {
                let ghost before = rec.fields.map();
                rec.fields.insert(key, "[REDACTED]");
                assert(rec.fields.map() == before.insert(key@, "[REDACTED]"@));
                assert(before.dom().contains(key@));
                assert(m0.dom().contains(key@));
                assert(keys.take(j + 1)[j as int] == key@);
                assert(keys.take(j + 1).contains(key@));
                assert(redacted(m0, keys.take(j + 1))[key@] == "[REDACTED]"@);
                assert(rec.fields.map().dom() =~= redacted(m0, keys.take(j + 1)).dom());
                assert(rec.fields.map() =~= redacted(m0, keys.take(j + 1)));
            } else {
                assert(rec.fields.map() =~= redacted(m0, keys.take(j + 1)));
            }
            j = j + 1;
        }
        assert(keys.take(keys.len() as int) =~= keys);
        rec
    }
}

impl Processor for FieldRedactor {
    fn process(&mut self, records: Vec<LogRecord>) -> (r: Vec<LogRecord>)
        ensures
            r.len() == records.len(),
            forall|i: int| 0 <= i < records.len() ==> {
                &&& same_but_fields(records@[i], #[trigger] r@[i])
                &&& r@[i].fields.map() == redacted(records@[i].fields.map(), old(self).keys())
            },
            final(self).keys() == old(self).keys(),
    {
        let ghost all = records@;
        let mut out: Vec<LogRecord> = Vec::new();
        for rec in it: records.into_iter()
            invariant
                it.seq() == all,
                out.len() == it.index(),
                forall|i: int| 0 <= i < it.index() ==> {
                    &&& same_but_fields(all[i], #[trigger] out@[i])
                    &&& out@[i].fields.map() == redacted(all[i].fields.map(), self.keys())
                },
        {
            let r = self.redact_one(rec);
            out.push(r);
        }
        out
    }

    fn name(&self) -> (r: &str)
        ensures
            r@ == "field_redactor"@,
    {
        "field_redactor"
    }
}

/// The geo location an enricher records for address `ip`.
pub open spec fn geo_for(table: Map<Seq<char>, Seq<char>>, ip: Seq<char>) -> Seq<char> {
    if table.dom().contains(ip) {
        table[ip]
    } else {
        "unknown"@
    }
}

/// The fields after enrichment: a record with an `ip` field gains `geo`.
pub open spec fn enriched(m: Map<Seq<char>, Seq<char>>, table: Map<Seq<char>, Seq<char>>) -> Map<Seq<char>, Seq<char>> {
    if m.dom().contains("ip"@) {
        m.insert("geo"@, geo_for(table, m["ip"@]))
    } else {
        m
    }
}

/// Adds a `geo` field to records that have an `ip` field, from a lookup table.
pub struct GeoIpEnricher {
    lookup: Fields,
}

impl GeoIpEnricher {
    /// The address-to-location table.
    pub closed spec fn table(&self) -> Map<Seq<char>, Seq<char>> {
        self.lookup.map()
    }

    /// An enricher seeded with three example addresses.
    pub fn new() -> (r: Self)
        ensures
            r.table() == Map::<Seq<char>, Seq<char>>::empty().insert("192.168.1.1"@, "US/San Francisco"@).insert(
                "10.0.0.1"@,
                "DE/Berlin"@,
            ).insert("172.16.0.1"@, "JP/Tokyo"@),
    {
        let mut lookup = Fields::new();
        lookup.insert("192.168.1.1", "US/San Francisco");
        lookup.insert("10.0.0.1", "DE/Berlin");
        lookup.insert("172.16.0.1", "JP/Tokyo");
        GeoIpEnricher { lookup }
    }

    /// The enricher with `ip` mapped to `geo`.
    pub fn with_mapping(self, ip: &str, geo: &str) -> (r: Self)
        ensures
            r.table() == self.table().insert(ip@, geo@),
    {
        let mut r = self;
        r.lookup.insert(ip, geo);
        r
    }

    fn enrich_one(&self, rec: LogRecord) -> (r: LogRecord)
        ensures
            same_but_fields(rec, r),
            r.fields.map() == enriched(rec.fields.map(), self.table()),
    {
        let mut rec = rec;
        let ip_opt = match rec.fields.get("ip") {
            Some(ip) => Some(ip.clone()),
            None => None,
        };
        match ip_opt {
            Some(ip) => {
                match self.lookup.get(ip.as_str()) {
                    Some(geo) => {
                        let g = geo.clone();
                        rec.fields.insert("geo", g.as_str());
                    },
                    None => {
                        rec.fields.insert("geo", "unknown");
                    },
                }
            },
            None => {},
        }
        rec
    }
}

impl Processor for GeoIpEnricher {
    fn process(&mut self, records: Vec<LogRecord>) -> (r: Vec<LogRecord>)
        ensures
            r.len() == records.len(),
            forall|i: int| 0 <= i < records.len() ==> {
                &&& same_but_fields(records@[i], #[trigger] r@[i])
                &&& r@[i].fields.map() == enriched(records@[i].fields.map(), old(self).table())
            },
            final(self).table() == old(self).table(),
    {
        let ghost all = records@;
        let mut out: Vec<LogRecord> = Vec::new();
        for rec in it: records.into_iter()
            invariant
                it.seq() == all,
                out.len() == it.index(),
                forall|i: int| 0 <= i < it.index() ==> {
                    &&& same_but_fields(all[i], #[trigger] out@[i])
                    &&& out@[i].fields.map() == enriched(all[i].fields.map(), self.table())
                },
        {
            let r = self.enrich_one(rec);
            out.push(r);
        }
        out
    }

    fn name(&self) -> (r: &str)
        ensures
            r@ == "geo_ip_enricher"@,
    {
        "geo_ip_enricher"
    }
}


/// How many records of `s` have severity `sev`.
pub open spec fn count_in(s: Seq<LogRecord>, sev: Severity) -> nat
    decreases s.len(),
{
    if s.len() == 0 {
        0
    } else if s.last().severity == sev {
        count_in(s.drop_last(), sev) + 1
    } else {
        count_in(s.drop_last(), sev)
    }
}

/// A per-severity count after `k` more records of that severity: absent
/// until the first one, then counting with wrap-around.
pub open spec fn counted(o: Option<u64>, k: nat) -> Option<u64> {
    if k == 0 {
        o
    } else {
        Some(wrap_add(
            match o {
                Some(c) => c as int,
                None => 0,
            },
            k as int,
        ) as u64)
    }
}

/// Record counts per severity; a severity that was never seen has no entry.
#[derive(Debug)]
pub struct SeverityCounts {
    slots: Vec<Option<u64>>,
}

impl SeverityCounts {
    #[verifier::type_invariant]
    spec fn six_slots(&self) -> bool {
        self.slots@.len() == 6
    }

    /// The count for `s`, if any record of it was seen.
    pub closed spec fn count_of(&self, s: Severity) -> Option<u64> {
        self.slots@[s.spec_rank() as int]
    }

    fn new() -> (r: Self)
        ensures
            forall|s: Severity| #[trigger] r.count_of(s) == None::<u64>,
    {
        let mut slots: Vec<Option<u64>> = Vec::new();
        let mut i: usize = 0;
        while i < 6
            invariant
                0 <= i <= 6,
                slots@.len() == i,
                forall|j: int| 0 <= j < i ==> slots@[j] == None::<u64>,
            decreases 6 - i,
        {
            slots.push(None);
            i = i + 1;
        }
        SeverityCounts { slots }
    }

    /// The count for `s`.
    pub fn get(&self, s: &Severity) -> (r: Option<&u64>)
        ensures
            match r {
                Some(c) => self.count_of(*s) == Some(*c),
                None => self.count_of(*s) == None::<u64>,
            },
    {
        proof { use_type_invariant(self); }
        match &self.slots[s.rank() as usize] {
            Some(c) => Some(c),
            None => None,
        }
    }

    fn bump(&mut self, s: Severity)
        ensures
            final(self).count_of(s) == counted(old(self).count_of(s), 1),
            forall|t: Severity| t != s ==> #[trigger] final(self).count_of(t) == old(self).count_of(t),
    {
        proof { use_type_invariant(&*self); }
        let i = s.rank() as usize;
        let mut slots: Vec<Option<u64>> = vec![None, None, None, None, None, None];
        std::mem::swap(&mut slots, &mut self.slots);
        let next = match slots[i] {
            Some(c) => wrapping_succ(c),
            None => 1,
        };
        proof {
            lemma_wrap_step(0, 0);
            lemma_wrap_zero(0);
        }
        slots.set(i, Some(next));
        proof {
            assert forall|t: Severity| t != s implies t.spec_rank() != s.spec_rank() by {}
        }
        self.slots = slots;
    }
}

pub proof fn lemma_counted_step(o: Option<u64>, k: nat)
    ensures
        counted(counted(o, k), 1) == counted(o, k + 1),
{
    let b: int = match o {
        Some(c) => c as int,
        None => 0,
    };
    if k == 0 {
        lemma_wrap_step(b, 0);
        if o is Some {
            lemma_wrap_zero(b);
        }
    } else {
        lemma_wrap_step(b, k as int);
        lemma_wrap_succ(b, k as int);
        lemma_wrap_step(wrap_add(b, k as int), 0);
        lemma_wrap_zero(wrap_add(b, k as int));
    }
}

/// Counts records per severity while passing them through unchanged.
pub struct MetricsAggregator {
    counts: SeverityCounts,
    total: u64,
}

impl MetricsAggregator {
    pub closed spec fn count_of(&self, s: Severity) -> Option<u64> {
        self.counts.count_of(s)
    }

    pub closed spec fn spec_total(&self) -> u64 {
        self.total
    }

    pub fn new() -> (r: Self)
        ensures
            forall|s: Severity| #[trigger] r.count_of(s) == None::<u64>,
            r.spec_total() == 0,
    {
        MetricsAggregator { counts: SeverityCounts::new(), total: 0 }
    }

    /// The counts per severity seen so far.
    pub fn counts(&self) -> (r: &SeverityCounts)
        ensures
            forall|s: Severity| #[trigger] r.count_of(s) == self.count_of(s),
    {
        &self.counts
    }

    /// The number of records seen so far (wrapping after `u64::MAX`).
    pub fn total(&self) -> (r: u64)
        ensures
            r == self.spec_total(),
    {
        self.total
    }
}

impl Processor for MetricsAggregator {
    fn process(&mut self, records: Vec<LogRecord>) -> (r: Vec<LogRecord>)
        ensures
            r == records,
            forall|s: Severity| #[trigger] final(self).count_of(s) == counted(old(self).count_of(s), count_in(records@, s)),
            final(self).spec_total() == wrap_add(old(self).spec_total() as int, records.len() as int),
    {
        let ghost c0 = self.counts;
        let ghost t0 = self.total;
        let mut i: usize = 0;
        proof { lemma_wrap_step(t0 as int, 0); lemma_wrap_zero(t0 as int); }
        while i < records.len()
            invariant
                0 <= i <= records.len(),
                forall|s: Severity| #[trigger] self.counts.count_of(s) == counted(c0.count_of(s), count_in(records@.take(i as int), s)),
                self.total as int == wrap_add(t0 as int, i as int),
            decreases records.len() - i,
        {
            let sev = records[i].severity;
            proof {
                assert(records@.take(i + 1).drop_last() =~= records@.take(i as int));
                assert(records@.take(i + 1).last() == records@[i as int]);
                lemma_counted_step(c0.count_of(sev), count_in(records@.take(i as int), sev));
                lemma_wrap_succ(t0 as int, i as int);
            }
            self.counts.bump(sev);
            self.total = wrapping_succ(self.total);
            i = i + 1;
        }
        assert(records@.take(records.len() as int) =~= records@);
        records
    }

    fn name(&self) -> (r: &str)
        ensures
            r@ == "metrics_aggregator"@,
    {
        "metrics_aggregator"
    }
}

/// The records of `s` that a sampler with counter `c0` and `rate` keeps: the
/// i-th record (from 1) is kept when `c0 + i` (wrapping) is a multiple of `rate`.
pub open spec fn sampled(s: Seq<LogRecord>, c0: u64, rate: u64) -> Seq<LogRecord>
    decreases s.len(),
{
    if s.len() == 0 {
        Seq::empty()
    } else if wrap_add(c0 as int, s.len() as int) % (rate as int) == 0 {
        sampled(s.drop_last(), c0, rate).push(s.last())
    } else {
        sampled(s.drop_last(), c0, rate)
    }
}

/// The sampling law: with the counter at `c0` and no wrap-around, the
/// records kept are those at the 1-based positions `i` where `c0 + i` is a
/// multiple of `rate`, in input order. The first such position is
/// `rate - c0 % rate`, and every `rate`-th one after it follows.
pub proof fn lemma_sampled_positions(s: Seq<LogRecord>, c0: u64, rate: u64)
    requires
        rate >= 1,
        c0 + s.len() < 0x1_0000_0000_0000_0000,
    ensures
        ({
            let first = rate - c0 % rate;
            let kept = sampled(s, c0, rate);
            &&& kept.len() == (if s.len() >= first { (s.len() - first) / (rate as int) + 1 } else { 0 })
            &&& forall|j: int| 0 <= j < kept.len() ==> #[trigger] kept[j] == s[first + j * rate - 1]
        }),
    decreases s.len(),
{
    let c = c0 as int;
    let r = rate as int;
    let n = s.len() as int;
    let cm = c % r;
    let q = c / r;
    lemma_fundamental_div_mod(c, r);
    lemma_mod_pos_bound(c, r);
    let first: int = r - cm;
    assert(first == rate - c0 % rate);
    if n > 0 {
        let t = s.drop_last();
        lemma_sampled_positions(t, c0, rate);
        assert(wrap_add(c, n) == c + n);
        let kept = sampled(s, c0, rate);
        let kt = sampled(t, c0, rate);
        if n < first {
            lemma_fundamental_div_mod_converse(c + n, r, q, cm + n);
            assert((c + n) % r != 0);
            assert(kept == kt);
            assert forall|j: int| 0 <= j < kept.len() implies #[trigger] kept[j] == s[first + j * rate - 1] by {
                assert(kt[j] == t[first + j * rate - 1]);
            }
        } else {
            let d = n - first;
            assert(c + n == r * (q + 1) + d) by (nonlinear_arith)
                requires c == r * q + cm, first == r - cm, d == n - first;
            lemma_mod_multiples_vanish(q + 1, d, r);
            lemma_fundamental_div_mod(d, r);
            lemma_mod_pos_bound(d, r);
            let dq = d / r;
            let dm = d % r;
            if dm == 0 {
                assert(kept == kt.push(s.last()));
                if d > 0 {
                    assert(dq >= 1) by (nonlinear_arith) requires d == r * dq, d > 0, r >= 1;
                    assert(d - 1 == (dq - 1) * r + (r - 1)) by (nonlinear_arith) requires d == r * dq;
                    lemma_fundamental_div_mod_converse(d - 1, r, dq - 1, r - 1);
                }
                assert(kt.len() == dq);
                assert forall|j: int| 0 <= j < kept.len() implies #[trigger] kept[j] == s[first + j * rate - 1] by {
                    if j < kt.len() {
                        assert(kt[j] == t[first + j * rate - 1]);
                        assert(j * r <= d - r) by (nonlinear_arith) requires 0 <= j < dq, d == r * dq, r >= 1;
                    } else {
                        assert(j * r == d) by (nonlinear_arith) requires j == dq, d == r * dq;
                    }
                }
            } else {
                assert(kept == kt);
                assert(d >= 1);
                assert(d - 1 == dq * r + (dm - 1)) by (nonlinear_arith) requires d == r * dq + dm;
                lemma_fundamental_div_mod_converse(d - 1, r, dq, dm - 1);
                assert forall|j: int| 0 <= j < kept.len() implies #[trigger] kept[j] == s[first + j * rate - 1] by {
                    assert(kt[j] == t[first + j * rate - 1]);
                    assert(j * r <= d - dm) by (nonlinear_arith) requires 0 <= j <= dq, d == r * dq + dm, r >= 1;
                }
            }
        }
    }
}

/// Deterministic sampling: keeps one out of every `rate` records.
pub struct Sampler {
    rate: u64,
    counter: u64,
}

impl Sampler {
    #[verifier::type_invariant]
    spec fn positive_rate(&self) -> bool {
        self.rate >= 1
    }

    pub closed spec fn spec_rate(&self) -> u64 {
        self.rate
    }

    pub closed spec fn spec_counter(&self) -> u64 {
        self.counter
    }

    /// A rate of 1 keeps everything; a rate of 10 keeps every tenth record.
    pub fn new(rate: u64) -> (r: Self)
        requires
            rate >= 1,
        ensures
            r.spec_rate() == rate,
            r.spec_counter() == 0,
    {
        Sampler { rate, counter: 0 }
    }
}

impl Processor for Sampler {
    fn process(&mut self, records: Vec<LogRecord>) -> (r: Vec<LogRecord>)
        ensures
            r@ == sampled(records@, old(self).spec_counter(), old(self).spec_rate()),
            final(self).spec_rate() == old(self).spec_rate(),
            final(self).spec_counter() == wrap_add(old(self).spec_counter() as int, records.len() as int),
    {
        proof { use_type_invariant(&*self); }
        let ghost all = records@;
        let ghost c0 = self.counter;
        let ghost rate = self.rate;
        proof { lemma_wrap_step(c0 as int, 0); lemma_wrap_zero(c0 as int); }
        let mut out: Vec<LogRecord> = Vec::new();
        for rec in it: records.into_iter()
            invariant
                it.seq() == all,
                self.rate == rate,
                rate >= 1,
                self.counter as int == wrap_add(c0 as int, it.index() as int),
                out@ == sampled(all.take(it.index() as int), c0, rate),
        {
            let ghost k = it.index();
            proof {
                assert(all.take(k + 1).drop_last() =~= all.take(k as int));
                assert(all.take(k + 1).last() == rec);
                lemma_wrap_succ(c0 as int, k as int);
            }
            self.counter = wrapping_succ(self.counter);
            if self.counter % self.rate == 0 {
                out.push(rec);
            }
        }
        assert(all.take(all.len() as int) =~= all);
        out
    }

    fn name(&self) -> (r: &str)
        ensures
            r@ == "sampler"@,
    {
        "sampler"
    }
}


/// Prints each record's displayed form on standard output.
pub struct StdoutDestination;

impl Destination for StdoutDestination {
    open spec fn may_flush(&self, ok: bool) -> bool {
        ok
    }

    /// Nothing is buffered.
    fn flush(&mut self) -> (r: std::io::Result<()>) {
        Ok(())
    }

    fn write_records(&mut self, records: &[LogRecord]) -> (r: std::io::Result<()>)
        ensures
            records@.len() == 0 ==> r is Ok,
    {
        let mut i: usize = 0;
        while i < records.len()
            decreases records.len() - i,
        {
            let line = records[i].to_string();
            match write_stdout_line(line.as_str()) {
                Ok(()) => {},
                Err(e) => {
                    return Err(e);
                },
            }
            i = i + 1;
        }
        Ok(())
    }

    fn name(&self) -> (r: &str)
        ensures
            r@ == "stdout"@,
    {
        "stdout"
    }
}

/// `"k":"v"` items joined by `,`.
pub open spec fn json_pairs(ps: Seq<(Seq<char>, Seq<char>)>) -> Seq<char>
    decreases ps.len(),
{
    if ps.len() == 0 {
        Seq::empty()
    } else if ps.len() == 1 {
        "\""@ + ps[0].0 + "\":\""@ + ps[0].1 + "\""@
    } else {
        json_pairs(ps.drop_last()) + ","@ + "\""@ + ps.last().0 + "\":\""@ + ps.last().1 + "\""@
    }
}

/// The document an Elasticsearch destination buffers for a record (values are
/// not escaped).
pub open spec fn json_doc(r: LogRecord) -> Seq<char> {
    "{\"timestamp\":"@ + decimal(r.timestamp as nat) + ",\"severity\":\""@ + r.severity.spec_label()
        + "\",\"message\":\""@ + r.message@ + "\",\"source\":\""@ + r.source@ + "\",\"fields\":{"@
        + json_pairs(r.fields.pairs()) + "}}"@
}

/// Buffers records as JSON documents and reports them on flush.
pub struct ElasticsearchDestination {
    url: String,
    buffer: Vec<String>,
}

impl ElasticsearchDestination {
    pub closed spec fn spec_url(&self) -> Seq<char> {
        self.url@
    }

    /// The documents waiting to be sent.
    pub closed spec fn buffered(&self) -> Seq<Seq<char>> {
        self.buffer@.map_values(|d: String| d@)
    }

    pub fn new(url: &str) -> (r: Self)
        ensures
            r.spec_url() == url@,
            r.buffered() == Seq::<Seq<char>>::empty(),
    {
        let r = ElasticsearchDestination { url: owned(url), buffer: Vec::new() };
        assert(r.buffered() =~= Seq::<Seq<char>>::empty());
        r
    }

    fn record_to_json(r: &LogRecord) -> (s: String)
        ensures
            s@ == json_doc(*r),
    {
        let mut s = String::new();
        push_str(&mut s, "{\"timestamp\":");
        push_decimal(&mut s, r.timestamp);
        push_str(&mut s, ",\"severity\":\"");
        push_str(&mut s, r.severity.label());
        push_str(&mut s, "\",\"message\":\"");
        push_str(&mut s, r.message.as_str());
        push_str(&mut s, "\",\"source\":\"");
        push_str(&mut s, r.source.as_str());
        push_str(&mut s, "\",\"fields\":{");
        let ghost head = s@;
        let n = r.fields.len();
        let mut i: usize = 0;
        while i < n
            invariant
                0 <= i <= n,
                n == r.fields.pairs().len(),
                s@ == head + json_pairs(r.fields.pairs().take(i as int)),
            decreases n - i,
        {
            let (k, v) = r.fields.entry(i);
            if i > 0 {
                push_str(&mut s, ",");
            }
            push_str(&mut s, "\"");
            push_str(&mut s, k.as_str());
            push_str(&mut s, "\":\"");
            push_str(&mut s, v.as_str());
            push_str(&mut s, "\"");
            proof {
                let ps = r.fields.pairs();
                assert(ps.take(i + 1).drop_last() =~= ps.take(i as int));
                assert(ps.take(i + 1).last() == ps[i as int]);
                if i == 0 {
                    assert(json_pairs(ps.take(0)) =~= Seq::<char>::empty());
                    assert(json_pairs(ps.take(1)) == "\""@ + ps.take(1)[0].0 + "\":\""@ + ps.take(1)[0].1 + "\""@);
                } else {
                    assert(json_pairs(ps.take(i + 1)) == json_pairs(ps.take(i as int)) + ","@ + "\""@ + ps[i as int].0 + "\":\""@ + ps[i as int].1 + "\""@);
                }
                assert(s@ =~= head + json_pairs(ps.take(i + 1)));
            }
            i = i + 1;
        }
        assert(r.fields.pairs().take(n as int) =~= r.fields.pairs());
        push_str(&mut s, "}}");
        assert(s@ =~= json_doc(*r));
        s
    }
}

impl Destination for ElasticsearchDestination {
    open spec fn may_flush(&self, ok: bool) -> bool {
        ok
    }

    /// Buffers one document per record.
    fn write_records(&mut self, records: &[LogRecord]) -> (r: std::io::Result<()>)
        ensures
            r is Ok,
            final(self).spec_url() == old(self).spec_url(),
            final(self).buffered() == old(self).buffered() + records@.map_values(|x: LogRecord| json_doc(x)),
    {
        let ghost b0 = self.buffered();
        let mut i: usize = 0;
        while i < records.len()
            invariant
                0 <= i <= records.len(),
                self.url == old(self).url,
                self.buffered() == b0 + records@.take(i as int).map_values(|x: LogRecord| json_doc(x)),
            decreases records.len() - i,
        {
            let doc = Self::record_to_json(&records[i]);
            let ghost before = self.buffer@;
            self.buffer.push(doc);
            assert(self.buffer@ == before.push(doc));
            assert(self.buffer@.map_values(|d: String| d@) =~= before.map_values(|d: String| d@).push(doc@));
            assert(records@.take(i + 1).map_values(|x: LogRecord| json_doc(x)) =~= records@.take(i as int).map_values(|x: LogRecord| json_doc(x)).push(json_doc(records@[i as int])));
            assert(self.buffered() =~= b0 + records@.take(i + 1).map_values(|x: LogRecord| json_doc(x)));
            i = i + 1;
        }
        assert(records@.take(records.len() as int) =~= records@);
        Ok(())
    }

    /// Prints the would-be bulk request (a header line, then each document)
    /// when documents are buffered, and empties the buffer.
    fn flush(&mut self) -> (r: std::io::Result<()>)
        ensures
            r is Ok,
            final(self).spec_url() == old(self).spec_url(),
            final(self).buffered() == Seq::<Seq<char>>::empty(),
    {
        if self.buffer.len() > 0 {
            let mut header = String::new();
            push_str(&mut header, "[ES] Would POST ");
            push_decimal(&mut header, self.buffer.len() as u64);
            push_str(&mut header, " records to ");
            push_str(&mut header, self.url.as_str());
            let _ = write_stdout_line(header.as_str());
            let mut i: usize = 0;
            while i < self.buffer.len()
                decreases self.buffer.len() - i,
            {
                let mut line = String::new();
                push_str(&mut line, "[ES]   ");
                push_str(&mut line, self.buffer[i].as_str());
                let _ = write_stdout_line(line.as_str());
                i = i + 1;
            }
            self.buffer.clear();
        }
        assert(self.buffered() =~= Seq::<Seq<char>>::empty());
        Ok(())
    }

    fn name(&self) -> (r: &str)
        ensures
            r@ == self.spec_url(),
    {
        self.url.as_str()
    }
}

/// Prints each record as a message to a Kafka topic and counts them.
pub struct KafkaDestination {
    topic: String,
    broker: String,
    sent: u64,
}

impl KafkaDestination {
    pub closed spec fn spec_topic(&self) -> Seq<char> {
        self.topic@
    }

    pub closed spec fn spec_broker(&self) -> Seq<char> {
        self.broker@
    }

    pub closed spec fn spec_sent(&self) -> u64 {
        self.sent
    }

    pub fn new(broker: &str, topic: &str) -> (r: Self)
        ensures
            r.spec_broker() == broker@,
            r.spec_topic() == topic@,
            r.spec_sent() == 0,
    {
        KafkaDestination { topic: owned(topic), broker: owned(broker), sent: 0 }
    }

    /// How many records were sent (wrapping after `u64::MAX`).
    pub fn sent_count(&self) -> (r: u64)
        ensures
            r == self.spec_sent(),
    {
        self.sent
    }
}

impl Destination for KafkaDestination {
    open spec fn may_flush(&self, ok: bool) -> bool {
        ok
    }

    /// Nothing is buffered.
    fn flush(&mut self) -> (r: std::io::Result<()>) {
        Ok(())
    }

    /// Prints `[Kafka] broker:topic <- [SEVERITY] message` per record.
    fn write_records(&mut self, records: &[LogRecord]) -> (r: std::io::Result<()>)
        ensures
            r is Ok,
            final(self).spec_topic() == old(self).spec_topic(),
            final(self).spec_broker() == old(self).spec_broker(),
            final(self).spec_sent() == wrap_add(old(self).spec_sent() as int, records.len() as int),
    {
        let ghost s0 = self.sent;
        proof { lemma_wrap_step(s0 as int, 0); lemma_wrap_zero(s0 as int); }
        let mut i: usize = 0;
        while i < records.len()
            invariant
                0 <= i <= records.len(),
                self.topic == old(self).topic,
                self.broker == old(self).broker,
                self.sent as int == wrap_add(s0 as int, i as int),
            decreases records.len() - i,
        {
            let mut line = String::new();
            push_str(&mut line, "[Kafka] ");
            push_str(&mut line, self.broker.as_str());
            push_str(&mut line, ":");
            push_str(&mut line, self.topic.as_str());
            push_str(&mut line, " <- [");
            push_str(&mut line, records[i].severity.label());
            push_str(&mut line, "] ");
            push_str(&mut line, records[i].message.as_str());
            let _ = write_stdout_line(line.as_str());
            proof { lemma_wrap_succ(s0 as int, i as int); }
            self.sent = wrapping_succ(self.sent);
            i = i + 1;
        }
        Ok(())
    }

    fn name(&self) -> (r: &str)
        ensures
            r@ == self.spec_topic(),
    {
        self.topic.as_str()
    }
}

/// Summary statistics from a pipeline run.
#[derive(Debug)]
pub struct PipelineStats {
    pub records_read: u64,
    pub records_after_processing: u64,
}

impl Default for PipelineStats {
    fn default() -> (r: Self)
        ensures
            r.records_read == 0,
            r.records_after_processing == 0,
    {
        PipelineStats { records_read: 0, records_after_processing: 0 }
    }
}

impl PipelineStats {
    /// `Pipeline stats: R read, P after processing`.
    pub fn to_string(&self) -> (s: String)
        ensures
            s@ == "Pipeline stats: "@ + decimal(self.records_read as nat) + " read, "@ + decimal(
                self.records_after_processing as nat,
            ) + " after processing"@,
    {
        let mut s = String::new();
        push_str(&mut s, "Pipeline stats: ");
        push_decimal(&mut s, self.records_read);
        push_str(&mut s, " read, ");
        push_decimal(&mut s, self.records_after_processing);
        push_str(&mut s, " after processing");
        s
    }
}

/// Reads from several sources, runs the records through a chain of
/// processors in order, and fans them out to every destination.
pub struct Pipeline {
    sources: Vec<Box<dyn Source>>,
    processors: Vec<Box<dyn Processor>>,
    destinations: Vec<Box<dyn Destination>>,
}

impl Pipeline {
    pub closed spec fn num_sources(&self) -> nat {
        self.sources@.len()
    }

    pub closed spec fn num_processors(&self) -> nat {
        self.processors@.len()
    }

    pub closed spec fn num_destinations(&self) -> nat {
        self.destinations@.len()
    }

    pub fn new() -> (r: Self)
        ensures
            r.num_sources() == 0,
            r.num_processors() == 0,
            r.num_destinations() == 0,
    {
        Pipeline { sources: Vec::new(), processors: Vec::new(), destinations: Vec::new() }
    }

    /// Adds a source.
    pub fn source<S: Source + 'static>(self, s: S) -> (r: Self)
        ensures
            r.num_sources() == self.num_sources() + 1,
            r.num_processors() == self.num_processors(),
            r.num_destinations() == self.num_destinations(),
    {
        let Pipeline { mut sources, processors, destinations } = self;
        let b: Box<dyn Source> = Box::new(s);
        push_boxed(&mut sources, b);
        Pipeline { sources, processors, destinations }
    }

    /// Appends a processor to the chain.
    pub fn processor<P: Processor + 'static>(self, p: P) -> (r: Self)
        ensures
            r.num_sources() == self.num_sources(),
            r.num_processors() == self.num_processors() + 1,
            r.num_destinations() == self.num_destinations(),
    {
        let Pipeline { sources, mut processors, destinations } = self;
        let b: Box<dyn Processor> = Box::new(p);
        push_boxed(&mut processors, b);
        Pipeline { sources, processors, destinations }
    }

    /// Adds a destination.
    pub fn destination<D: Destination + 'static>(self, d: D) -> (r: Self)
        ensures
            r.num_sources() == self.num_sources(),
            r.num_processors() == self.num_processors(),
            r.num_destinations() == self.num_destinations() + 1,
    {
        let Pipeline { sources, processors, mut destinations } = self;
        let b: Box<dyn Destination> = Box::new(d);
        push_boxed(&mut destinations, b);
        Pipeline { sources, processors, destinations }
    }

    /// `batches` are what each source may have read, in order, and `stages`
    /// the records before and after each processor in turn, starting from all
    /// the batches one after another.
    pub closed spec fn run_fits(&self, batches: Seq<Seq<LogRecord>>, stages: Seq<Seq<LogRecord>>) -> bool {
        &&& batches.len() == self.sources@.len()
        &&& forall|i: int| 0 <= i < batches.len() ==> #[trigger] self.sources@[i].may_read(batches[i])
        &&& stages.len() == self.processors@.len() + 1
        &&& stages[0] == batches.flatten()
        &&& forall|j: int| 0 <= j < self.processors@.len() ==> #[trigger] self.processors@[j].may_process(stages[j], stages[j + 1])
    }

    /// How writing `records` to every destination in turn and then flushing
    /// each in turn may end, the destinations being as they were left by their
    /// write (`mid`) when they are flushed: on success every write and every
    /// flush succeeded; on failure the first write that failed stopped the run,
    /// or, every write having succeeded, the first flush that failed did.
    pub closed spec fn run_outcome(&self, records: Seq<LogRecord>, mid: Seq<Box<dyn Destination>>, ok: bool) -> bool {
        let ds = self.destinations@;
        &&& mid.len() == ds.len()
        &&& ok ==> (forall|k: int| 0 <= k < ds.len() ==> #[trigger] ds[k].may_write(records, true))
            && (forall|k: int| 0 <= k < ds.len() ==> #[trigger] mid[k].may_flush(true))
        &&& !ok ==> (exists|j: int| 0 <= j < ds.len()
                && (forall|i: int| 0 <= i < j ==> #[trigger] ds[i].may_write(records, true))
                && #[trigger] ds[j].may_write(records, false))
            || ((forall|k: int| 0 <= k < ds.len() ==> #[trigger] ds[k].may_write(records, true))
                && exists|j: int| 0 <= j < ds.len()
                && (forall|i: int| 0 <= i < j ==> #[trigger] mid[i].may_flush(true))
                && #[trigger] mid[j].may_flush(false))
    }

    /// Reads every source, runs the processors in order, writes the result to
    /// every destination, then flushes them; the first destination error is
    /// returned.
    ///
    /// What the sources read, the processors give and the destinations answer
    /// is their own affair (the traits are for users to implement): the run is
    /// stated over what each of them may do.
    #[verifier::spinoff_prover]
    #[verifier::rlimit(40)]
    pub fn run(&mut self) -> (r: std::io::Result<PipelineStats>)
        ensures
            final(self).num_sources() == old(self).num_sources(),
            final(self).num_processors() == old(self).num_processors(),
            final(self).num_destinations() == old(self).num_destinations(),
            old(self).num_destinations() == 0 ==> r is Ok,
            old(self).num_sources() == 0 && old(self).num_processors() == 0 ==> (r matches Ok(st)
                ==> st.records_read == 0 && st.records_after_processing == 0),
            old(self).num_processors() == 0 ==> (r matches Ok(st) ==> st.records_after_processing == st.records_read),
            exists|batches: Seq<Seq<LogRecord>>, stages: Seq<Seq<LogRecord>>, mid: Seq<Box<dyn Destination>>|
                #![trigger old(self).run_fits(batches, stages), old(self).run_outcome(stages.last(), mid, r is Ok)]
                old(self).run_fits(batches, stages)
                && (r matches Ok(st) ==> st.records_read == stages[0].len()
                    && st.records_after_processing == stages.last().len())
                && old(self).run_outcome(stages.last(), mid, r is Ok),
    {
        let ghost srcs0 = self.sources@;
        let ghost procs0 = self.processors@;
        let ghost dests0 = self.destinations@;
        let ghost mut batches: Seq<Seq<LogRecord>> = Seq::empty();
        let mut stats = PipelineStats { records_read: 0, records_after_processing: 0 };
        let mut records: Vec<LogRecord> = Vec::new();
        let mut i: usize = 0;
        while i < self.sources.len()
            invariant
                0 <= i <= self.sources.len(),
                srcs0 == old(self).sources@,
                self.sources@.len() == old(self).sources@.len(),
                self.processors == old(self).processors,
                self.destinations == old(self).destinations,
                self.sources@.len() == 0 ==> stats.records_read == 0 && records@.len() == 0,
                stats.records_read == records@.len(),
                forall|q: int| i <= q < srcs0.len() ==> #[trigger] self.sources@[q] == srcs0[q],
                batches.len() == i,
                forall|q: int| 0 <= q < i ==> #[trigger] srcs0[q].may_read(batches[q]),
                records@ == batches.flatten(),
            decreases self.sources.len() - i,
        {
            let mut batch = self.sources[i].read_records();
            let ghost b = batch@;
            let before = records.len();
            let added = batch.len();
            records.append(&mut batch);
            let total = records.len();
            assert(total == before + added);
            stats.records_read = stats.records_read.wrapping_add(added as u64);
            proof {
                broadcast use Seq::lemma_flatten_push;
                let b0 = batches;
                batches = batches.push(b);
                assert(records@ =~= batches.flatten());
                assert forall|q: int| 0 <= q < i + 1 implies #[trigger] srcs0[q].may_read(batches[q]) by {
                    if q < i {
                        assert(batches[q] == b0[q]);
                    }
                }
            }
            i = i + 1;
        }
        let ghost mut stages: Seq<Seq<LogRecord>> = seq![records@];
        let mut j: usize = 0;
        while j < self.processors.len()
            invariant
                0 <= j <= self.processors.len(),
                procs0 == old(self).processors@,
                self.sources@.len() == old(self).sources@.len(),
                self.processors@.len() == old(self).processors@.len(),
                self.destinations == old(self).destinations,
                self.sources@.len() == 0 ==> stats.records_read == 0,
                self.sources@.len() == 0 && self.processors@.len() == 0 ==> records@.len() == 0,
                self.processors@.len() == 0 ==> stats.records_read == records@.len(),
                stats.records_read == stages[0].len(),
                forall|q: int| j <= q < procs0.len() ==> #[trigger] self.processors@[q] == procs0[q],
                stages.len() == j + 1,
                stages[0] == batches.flatten(),
                records@ == stages[j as int],
                forall|q: int| 0 <= q < j ==> #[trigger] procs0[q].may_process(stages[q], stages[q + 1]),
            decreases self.processors.len() - j,
        {
            records = self.processors[j].process(records);
            proof {
                let s0 = stages;
                stages = stages.push(records@);
                assert forall|q: int| 0 <= q < j + 1 implies #[trigger] procs0[q].may_process(stages[q], stages[q + 1]) by {
                    if q < j {
                        assert(stages[q] == s0[q] && stages[q + 1] == s0[q + 1]);
                    }
                }
            }
            j = j + 1;
        }
        stats.records_after_processing = records.len() as u64;
        let ghost out = records@;
        assert(old(self).run_fits(batches, stages));
        assert(stages.last() == out);
        let mut k: usize = 0;
        while k < self.destinations.len()
            invariant
                0 <= k <= self.destinations.len(),
                dests0 == old(self).destinations@,
                self.sources@.len() == old(self).sources@.len(),
                self.processors@.len() == old(self).processors@.len(),
                self.destinations@.len() == old(self).destinations@.len(),
                out == records@,
                old(self).run_fits(batches, stages),
                stages.last() == out,
                stats.records_read == stages[0].len(),
                stats.records_after_processing == out.len(),
                forall|q: int| k <= q < dests0.len() ==> #[trigger] self.destinations@[q] == dests0[q],
                forall|q: int| 0 <= q < k ==> #[trigger] dests0[q].may_write(out, true),
            decreases self.destinations.len() - k,
        {
            match self.destinations[k].write_records(records.as_slice()) {
                Ok(()) => {},
                Err(e) => {
                    assert(dests0[k as int].may_write(out, false));
                    let ghost mid = dests0;
                    proof {
                        assert(old(self).run_fits(batches, stages));
                        assert(old(self).run_outcome(out, mid, false));
                    }
                    return Err(e);
                },
            }
            k = k + 1;
        }
        assert(forall|q: int| 0 <= q < dests0.len() ==> #[trigger] dests0[q].may_write(out, true));
        let ghost mid = self.destinations@;
        let mut m: usize = 0;
        while m < self.destinations.len()
            invariant
                0 <= m <= self.destinations.len(),
                old(self).run_fits(batches, stages),
                dests0 == old(self).destinations@,
                out == stages.last(),
                forall|q: int| 0 <= q < dests0.len() ==> #[trigger] dests0[q].may_write(out, true),
                mid.len() == dests0.len(),
                forall|q: int| m <= q < mid.len() ==> #[trigger] self.destinations@[q] == mid[q],
                forall|q: int| 0 <= q < m ==> #[trigger] mid[q].may_flush(true),
                stats.records_read == stages[0].len(),
                stats.records_after_processing == stages.last().len(),
                self.sources@.len() == old(self).sources@.len(),
                self.processors@.len() == old(self).processors@.len(),
                self.destinations@.len() == old(self).destinations@.len(),
            decreases self.destinations.len() - m,
        {
            let flushed = self.destinations[m].flush();
            assert(mid[m as int].may_flush(flushed is Ok));
            match flushed {
                Ok(()) => {},
                Err(e) => {
                    proof {
                        assert(old(self).run_outcome(out, mid, false));
                    }
                    return Err(e);
                },
            }
            m = m + 1;
        }
        assert(old(self).run_outcome(out, mid, true));
        Ok(stats)
    }
}

} // verus!
