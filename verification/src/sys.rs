//! The few calls into the running system that the library makes: the clock,
//! standard output, and the standard I/O error type.
use vstd::prelude::*;
use std::io::{BufRead, Write};

verus! {

#[verifier::external_type_specification]
#[verifier::external_body]
pub struct ExIoError(std::io::Error);

#[verifier::external_type_specification]
#[verifier::external_body]
pub struct ExSystemTime(std::time::SystemTime);

/// Milliseconds since the Unix epoch, from `SystemTime::now` (0 for a clock set
/// before the epoch). Nothing is promised of the value: it is the time.
#[verifier::external_body]
pub(crate) fn now_millis() -> u64 {
    std::time::SystemTime::now()
        .duration_since(std::time::UNIX_EPOCH)
        .unwrap_or_default()
        .as_millis() as u64
}

/// `SystemTime::now`. Nothing is promised of the value: it is the time.
#[verifier::external_body]
pub(crate) fn system_now() -> std::time::SystemTime {
    std::time::SystemTime::now()
}

/// Writes `line` and a newline to standard output (`writeln!` on `stdout`),
/// handing back the I/O outcome. Nothing is promised of the outcome.
#[verifier::external_body]
pub(crate) fn write_stdout_line(line: &str) -> std::io::Result<()> {
    writeln!(std::io::stdout(), "{}", line)
}


/// The next line of standard input (`BufRead::lines` on the locked `stdin`,
/// its next item), `None` at the end of input. Nothing is promised of the
/// line: it is input.
#[verifier::external_body]
pub(crate) fn next_stdin_line() -> Option<std::io::Result<String>> {
    std::io::stdin().lock().lines().next()
}

/// Reads up to `max` lines from standard input; a line that cannot be read
/// counts toward `max` and is skipped.
pub fn read_stdin_lines(max: usize) -> (r: Vec<String>)
    ensures
        r@.len() <= max,
{
    let mut out: Vec<String> = Vec::new();
    let mut taken: usize = 0;
    while taken < max
        invariant
            out@.len() <= taken <= max,
        decreases max - taken,
    {
        match next_stdin_line() {
            None => break,
            Some(Ok(line)) => out.push(line),
            Some(Err(_)) => {},
        }
        taken = taken + 1;
    }
    out
}

/// Reads every line of standard input (`BufRead::lines` on the locked `stdin`),
/// or the first read error. Nothing is promised of the outcome: it is input.
#[verifier::external_body]
pub(crate) fn read_all_stdin_lines() -> std::io::Result<Vec<String>> {
    std::io::stdin().lock().lines().collect()
}

/// Writes `line` and a newline to standard error (`writeln!` on `stderr`);
/// a failed write is ignored.
#[verifier::external_body]
pub(crate) fn write_stderr_line(line: &str) {
    let _ = writeln!(std::io::stderr(), "{}", line);
}



/// The `Display` text of an I/O error. Nothing is promised of it: the
/// operating system supplies much of it.
#[verifier::external_body]
pub(crate) fn describe_io_error(e: &std::io::Error) -> String {
    format!("{}", e)
}

} // verus!
