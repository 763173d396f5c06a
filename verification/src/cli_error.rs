//! Structured, user-friendly CLI errors: each carries a message and an
//! actionable hint, maps to a fixed exit code, and renders as text or JSON.
use vstd::prelude::*;
use crate::text::{chars_of, decimal, owned, push_char, push_decimal, push_str};
use crate::sys::describe_io_error;

pub mod exit_code;

verus! {

/// Top-level error returned by every CLI command.
#[derive(Debug)]
pub enum CliError {
    /// Authentication or authorization failure.
    Auth { message: String, hint: String },
    /// The remote API answered with a failure.
    Api { status: Option<u16>, message: String, hint: String },
    /// Configuration missing, malformed, or invalid.
    Config { message: String, hint: String },
    /// File system or network I/O failure.
    Io { message: String, hint: String },
    /// A request timed out.
    Timeout { message: String, hint: String },
    /// The server asked to slow down (HTTP 429).
    RateLimit { retry_after_secs: Option<u64>, message: String, hint: String },
    /// The requested resource does not exist.
    NotFound { resource: String, message: String, hint: String },
    /// The user supplied bad input.
    InvalidInput { message: String, hint: String },
}

/// The hexadecimal digits, in order.
pub open spec fn hex_digits() -> Seq<char> {
    seq!['0', '1', '2', '3', '4', '5', '6', '7', '8', '9', 'a', 'b', 'c', 'd', 'e', 'f']
}

/// How JSON writes `c` inside a string: `\` and `"` behind a backslash, the
/// control characters below U+0020 as `\n`, `\r`, `\t`, `\b`, `\f` or
/// `\u00XX`, every other character as itself.
pub open spec fn json_char(c: char) -> Seq<char> {
    if c == '\\' {
        seq!['\\', '\\']
    } else if c == '\u{22}' {
        seq!['\\', '\u{22}']
    } else if c == '\n' {
        seq!['\\', 'n']
    } else if c == '\r' {
        seq!['\\', 'r']
    } else if c == '\t' {
        seq!['\\', 't']
    } else if c == '\u{8}' {
        seq!['\\', 'b']
    } else if c == '\u{c}' {
        seq!['\\', 'f']
    } else if (c as u32) < 0x20 {
        seq!['\\', 'u', '0', '0', hex_digits()[((c as u32) / 16) as int], hex_digits()[((c as u32) % 16) as int]]
    } else {
        seq![c]
    }
}

/// `s` written as the inside of a JSON string.
pub open spec fn escaped(s: Seq<char>) -> Seq<char>
    decreases s.len(),
{
    if s.len() == 0 {
        Seq::empty()
    } else {
        escaped(s.drop_last()) + json_char(s.last())
    }
}

/// Appends how JSON writes `c` inside a string.
fn push_json_char(out: &mut String, c: char)
    ensures
        final(out)@ == old(out)@ + json_char(c),
{
    let ghost o0 = out@;
    if c == '\\' {
        push_char(out, '\\');
        push_char(out, '\\');
    } else if c == '\u{22}' {
        push_char(out, '\\');
        push_char(out, '\u{22}');
    } else if c == '\n' {
        push_char(out, '\\');
        push_char(out, 'n');
    } else if c == '\r' {
        push_char(out, '\\');
        push_char(out, 'r');
    } else if c == '\t' {
        push_char(out, '\\');
        push_char(out, 't');
    } else if c == '\u{8}' {
        push_char(out, '\\');
        push_char(out, 'b');
    } else if c == '\u{c}' {
        push_char(out, '\\');
        push_char(out, 'f');
    } else if (c as u32) < 0x20 {
        let digits: [char; 16] = ['0', '1', '2', '3', '4', '5', '6', '7', '8', '9', 'a', 'b', 'c', 'd', 'e', 'f'];
        assert(digits@ =~= hex_digits());
        let v = c as u32;
        push_char(out, '\\');
        push_char(out, 'u');
        push_char(out, '0');
        push_char(out, '0');
        push_char(out, digits[(v / 16) as usize]);
        push_char(out, digits[(v % 16) as usize]);
    } else {
        push_char(out, c);
    }
    assert(out@ =~= o0 + json_char(c));
}

pub fn push_escaped(out: &mut String, s: &str)
    ensures
        final(out)@ == old(out)@ + escaped(s@),
{
    let cs = chars_of(s);
    let ghost o0 = out@;
    let mut i: usize = 0;
    while i < cs.len()
        invariant
            0 <= i <= cs.len(),
            cs@ == s@,
            out@ == o0 + escaped(cs@.take(i as int)),
        decreases cs.len() - i,
    {
        let c = cs[i];
        proof {
            assert(cs@.take(i + 1).drop_last() =~= cs@.take(i as int));
            assert(cs@.take(i + 1).last() == c);
        }
        push_json_char(out, c);
        assert(out@ =~= o0 + escaped(cs@.take(i + 1)));
        i = i + 1;
    }
    assert(cs@.take(cs.len() as int) =~= cs@);
}

impl CliError {
    /// The message of any variant.
    pub open spec fn spec_message(&self) -> Seq<char> {
        match self {
            CliError::Auth { message, .. } => message@,
            CliError::Api { message, .. } => message@,
            CliError::Config { message, .. } => message@,
            CliError::Io { message, .. } => message@,
            CliError::Timeout { message, .. } => message@,
            CliError::RateLimit { message, .. } => message@,
            CliError::NotFound { message, .. } => message@,
            CliError::InvalidInput { message, .. } => message@,
        }
    }

    /// The hint of any variant.
    pub open spec fn spec_hint(&self) -> Seq<char> {
        match self {
            CliError::Auth { hint, .. } => hint@,
            CliError::Api { hint, .. } => hint@,
            CliError::Config { hint, .. } => hint@,
            CliError::Io { hint, .. } => hint@,
            CliError::Timeout { hint, .. } => hint@,
            CliError::RateLimit { hint, .. } => hint@,
            CliError::NotFound { hint, .. } => hint@,
            CliError::InvalidInput { hint, .. } => hint@,
        }
    }

    /// The exit code of each variant.
    pub open spec fn spec_exit_code(&self) -> i32 {
        match self {
            CliError::Auth { .. } => exit_code::AUTH_ERROR,
            CliError::Api { .. } => exit_code::API_ERROR,
            CliError::Config { .. } => exit_code::CONFIG_ERROR,
            CliError::Io { .. } => exit_code::IO_ERROR,
            CliError::Timeout { .. } => exit_code::TIMEOUT_ERROR,
            CliError::RateLimit { .. } => exit_code::RATE_LIMIT_ERROR,
            CliError::NotFound { .. } => exit_code::NOT_FOUND_ERROR,
            CliError::InvalidInput { .. } => exit_code::INVALID_INPUT_ERROR,
        }
    }

    /// The category tag of each variant.
    pub open spec fn spec_kind(&self) -> Seq<char> {
        match self {
            CliError::Auth { .. } => "auth_error"@,
            CliError::Api { .. } => "api_error"@,
            CliError::Config { .. } => "config_error"@,
            CliError::Io { .. } => "io_error"@,
            CliError::Timeout { .. } => "timeout_error"@,
            CliError::RateLimit { .. } => "rate_limit_error"@,
            CliError::NotFound { .. } => "not_found_error"@,
            CliError::InvalidInput { .. } => "invalid_input_error"@,
        }
    }

    pub fn auth_expired() -> (r: Self)
        ensures
            r is Auth,
            r.spec_message() == "Your session has expired."@,
            r.spec_hint() == "Run `deployr auth login` to re-authenticate."@,
    {
        CliError::Auth {
            message: owned("Your session has expired."),
            hint: owned("Run `deployr auth login` to re-authenticate."),
        }
    }

    pub fn auth_missing() -> (r: Self)
        ensures
            r is Auth,
            r.spec_message() == "No credentials found."@,
            r.spec_hint() == "Run `deployr auth login` or set DEPLOYR_TOKEN."@,
    {
        CliError::Auth {
            message: owned("No credentials found."),
            hint: owned("Run `deployr auth login` or set DEPLOYR_TOKEN."),
        }
    }

    pub fn auth_forbidden(detail: &str) -> (r: Self)
        ensures
            r is Auth,
            r.spec_message() == "Permission denied: "@ + detail@,
            r.spec_hint() == "Check that your account has access to this resource."@,
    {
        let mut message = String::new();
        push_str(&mut message, "Permission denied: ");
        push_str(&mut message, detail);
        CliError::Auth { message, hint: owned("Check that your account has access to this resource.") }
    }

    pub fn api(status: u16, body: &str) -> (r: Self)
        ensures
            r matches CliError::Api { status: Some(s), .. } && s == status,
            r.spec_message() == "API request failed (HTTP "@ + decimal(status as nat) + "): "@ + body@,
            r.spec_hint() == "Retry the command. If the problem persists, check https://status.notion.so or run with DEPLOYR_LOG=debug."@,
    {
        let mut message = String::new();
        push_str(&mut message, "API request failed (HTTP ");
        push_decimal(&mut message, status as u64);
        push_str(&mut message, "): ");
        push_str(&mut message, body);
        CliError::Api {
            status: Some(status),
            message,
            hint: owned(
                "Retry the command. If the problem persists, check https://status.notion.so or run with DEPLOYR_LOG=debug.",
            ),
        }
    }

    pub fn api_decode(detail: &str) -> (r: Self)
        ensures
            r matches CliError::Api { status: None, .. },
            r.spec_message() == "Could not understand the server response: "@ + detail@,
            r.spec_hint() == "The API may have changed. Update deployr (`deployr self-update`) or report a bug."@,
    {
        let mut message = String::new();
        push_str(&mut message, "Could not understand the server response: ");
        push_str(&mut message, detail);
        CliError::Api {
            status: None,
            message,
            hint: owned("The API may have changed. Update deployr (`deployr self-update`) or report a bug."),
        }
    }

    pub fn config_missing(path: &str) -> (r: Self)
        ensures
            r is Config,
            r.spec_message() == "Configuration file not found: "@ + path@,
            r.spec_hint() == "Run `deployr init` to create a default config at "@ + path@ + "."@,
    {
        let mut message = String::new();
        push_str(&mut message, "Configuration file not found: ");
        push_str(&mut message, path);
        let mut hint = String::new();
        push_str(&mut hint, "Run `deployr init` to create a default config at ");
        push_str(&mut hint, path);
        push_str(&mut hint, ".");
        CliError::Config { message, hint }
    }

    pub fn config_parse(path: &str, detail: &str) -> (r: Self)
        ensures
            r is Config,
            r.spec_message() == "Configuration file is malformed ("@ + path@ + "): "@ + detail@,
            r.spec_hint() == "Fix the syntax error, or delete the file and run `deployr init` to regenerate it."@,
    {
        let mut message = String::new();
        push_str(&mut message, "Configuration file is malformed (");
        push_str(&mut message, path);
        push_str(&mut message, "): ");
        push_str(&mut message, detail);
        CliError::Config {
            message,
            hint: owned("Fix the syntax error, or delete the file and run `deployr init` to regenerate it."),
        }
    }

    pub fn config_invalid(field: &str, reason: &str) -> (r: Self)
        ensures
            r is Config,
            r.spec_message() == "Invalid config value for `"@ + field@ + "`: "@ + reason@,
            r.spec_hint() == "Edit your config file or re-run `deployr init`."@,
    {
        let mut message = String::new();
        push_str(&mut message, "Invalid config value for `");
        push_str(&mut message, field);
        push_str(&mut message, "`: ");
        push_str(&mut message, reason);
        CliError::Config { message, hint: owned("Edit your config file or re-run `deployr init`.") }
    }

    /// An I/O failure during `action`; the message ends with the error's own
    /// description, which the operating system supplies.
    pub fn io(action: &str, inner: std::io::Error) -> (r: Self)
        ensures
            r is Io,
            r.spec_message().len() >= action@.len() + 2,
            r.spec_message().take(action@.len() + 2int) == action@ + ": "@,
            r.spec_hint() == "Check file permissions and available disk space."@,
    {
        let mut message = String::new();
        push_str(&mut message, action);
        push_str(&mut message, ": ");
        let ghost head = message@;
        let detail = describe_io_error(&inner);
        push_str(&mut message, detail.as_str());
        proof { reveal_strlit(": "); }
        assert(message@.take(action@.len() + 2int) =~= head);
        CliError::Io { message, hint: owned("Check file permissions and available disk space.") }
    }

    pub fn io_network(detail: &str) -> (r: Self)
        ensures
            r is Io,
            r.spec_message() == "Network error: "@ + detail@,
            r.spec_hint() == "Check your internet connection and any proxy settings (HTTPS_PROXY)."@,
    {
        let mut message = String::new();
        push_str(&mut message, "Network error: ");
        push_str(&mut message, detail);
        CliError::Io { message, hint: owned("Check your internet connection and any proxy settings (HTTPS_PROXY).") }
    }

    pub fn timeout(url: &str) -> (r: Self)
        ensures
            r is Timeout,
            r.spec_message() == "Request timed out: "@ + url@,
            r.spec_hint() == "Retry the command. You can increase the timeout with --timeout <seconds>."@,
    {
        let mut message = String::new();
        push_str(&mut message, "Request timed out: ");
        push_str(&mut message, url);
        CliError::Timeout {
            message,
            hint: owned("Retry the command. You can increase the timeout with --timeout <seconds>."),
        }
    }

    pub fn rate_limited(retry_after: Option<u64>) -> (r: Self)
        ensures
            r matches CliError::RateLimit { retry_after_secs, .. } && retry_after_secs == retry_after,
            r.spec_message() == "Rate limit exceeded."@,
            r.spec_hint() == (match retry_after {
                Some(secs) => "Wait "@ + decimal(secs as nat) + " seconds and retry."@,
                None => "Wait a moment and retry. Reduce request frequency if this recurs."@,
            }),
    {
        let hint = match retry_after {
            Some(secs) => {
                let mut h = String::new();
                push_str(&mut h, "Wait ");
                push_decimal(&mut h, secs);
                push_str(&mut h, " seconds and retry.");
                h
            },
            None => owned("Wait a moment and retry. Reduce request frequency if this recurs."),
        };
        CliError::RateLimit { retry_after_secs: retry_after, message: owned("Rate limit exceeded."), hint }
    }

    pub fn not_found(resource: &str) -> (r: Self)
        ensures
            r matches CliError::NotFound { resource: res, .. } && res@ == resource@,
            r.spec_message() == resource@ + " not found."@,
            r.spec_hint() == "Verify the ID or name is correct. Use `deployr list` to see available resources."@,
    {
        let mut message = String::new();
        push_str(&mut message, resource);
        push_str(&mut message, " not found.");
        CliError::NotFound {
            message,
            hint: owned("Verify the ID or name is correct. Use `deployr list` to see available resources."),
            resource: owned(resource),
        }
    }

    pub fn invalid_input(message: &str, hint: &str) -> (r: Self)
        ensures
            r is InvalidInput,
            r.spec_message() == message@,
            r.spec_hint() == hint@,
    {
        CliError::InvalidInput { message: owned(message), hint: owned(hint) }
    }

    /// Wraps an I/O error from the standard library.
    pub fn from_io_error(e: std::io::Error) -> (r: Self)
        ensures
            r is Io,
            r.spec_message().len() >= 11,
            r.spec_message().take(11) == "I/O error: "@,
            r.spec_hint() == "Check file permissions and available disk space."@,
    {
        let mut message = String::new();
        push_str(&mut message, "I/O error: ");
        let ghost head = message@;
        let detail = describe_io_error(&e);
        push_str(&mut message, detail.as_str());
        proof {
            reveal_strlit("I/O error: ");
            assert(message@.take(11) =~= head);
        }
        CliError::Io { message, hint: owned("Check file permissions and available disk space.") }
    }

    pub fn exit_code(&self) -> (r: i32)
        ensures
            r == self.spec_exit_code(),
    {
        match self {
            CliError::Auth { .. } => exit_code::AUTH_ERROR,
            CliError::Api { .. } => exit_code::API_ERROR,
            CliError::Config { .. } => exit_code::CONFIG_ERROR,
            CliError::Io { .. } => exit_code::IO_ERROR,
            CliError::Timeout { .. } => exit_code::TIMEOUT_ERROR,
            CliError::RateLimit { .. } => exit_code::RATE_LIMIT_ERROR,
            CliError::NotFound { .. } => exit_code::NOT_FOUND_ERROR,
            CliError::InvalidInput { .. } => exit_code::INVALID_INPUT_ERROR,
        }
    }

    /// Short category tag used in JSON output and logs.
    pub fn kind(&self) -> (r: &'static str)
        ensures
            r@ == self.spec_kind(),
    {
        match self {
            CliError::Auth { .. } => "auth_error",
            CliError::Api { .. } => "api_error",
            CliError::Config { .. } => "config_error",
            CliError::Io { .. } => "io_error",
            CliError::Timeout { .. } => "timeout_error",
            CliError::RateLimit { .. } => "rate_limit_error",
            CliError::NotFound { .. } => "not_found_error",
            CliError::InvalidInput { .. } => "invalid_input_error",
        }
    }

    pub fn message(&self) -> (r: &str)
        ensures
            r@ == self.spec_message(),
    {
        match self {
            CliError::Auth { message, .. } => message.as_str(),
            CliError::Api { message, .. } => message.as_str(),
            CliError::Config { message, .. } => message.as_str(),
            CliError::Io { message, .. } => message.as_str(),
            CliError::Timeout { message, .. } => message.as_str(),
            CliError::RateLimit { message, .. } => message.as_str(),
            CliError::NotFound { message, .. } => message.as_str(),
            CliError::InvalidInput { message, .. } => message.as_str(),
        }
    }

    pub fn hint(&self) -> (r: &str)
        ensures
            r@ == self.spec_hint(),
    {
        match self {
            CliError::Auth { hint, .. } => hint.as_str(),
            CliError::Api { hint, .. } => hint.as_str(),
            CliError::Config { hint, .. } => hint.as_str(),
            CliError::Io { hint, .. } => hint.as_str(),
            CliError::Timeout { hint, .. } => hint.as_str(),
            CliError::RateLimit { hint, .. } => hint.as_str(),
            CliError::NotFound { hint, .. } => hint.as_str(),
            CliError::InvalidInput { hint, .. } => hint.as_str(),
        }
    }

    /// The human-readable form: `error: <message>` and `hint: <hint>` on two lines.
    pub fn to_string(&self) -> (s: String)
        ensures
            s@ == "error: "@ + self.spec_message() + "\nhint: "@ + self.spec_hint(),
    {
        let mut s = String::new();
        push_str(&mut s, "error: ");
        push_str(&mut s, self.message());
        push_str(&mut s, "\nhint: ");
        push_str(&mut s, self.hint());
        s
    }

    /// The variant-specific members appended to the JSON object.
    pub open spec fn json_extra(&self) -> Seq<char> {
        match self {
            CliError::Api { status: Some(code), .. } => ",\"http_status\":"@ + decimal(code as nat),
            CliError::RateLimit { retry_after_secs: Some(secs), .. } => ",\"retry_after_secs\":"@ + decimal(secs as nat),
            CliError::NotFound { resource, .. } => ",\"resource\":\""@ + escaped(resource@) + "\""@,
            _ => Seq::empty(),
        }
    }

    /// The machine-readable form: a single-line JSON object.
    pub fn to_json(&self) -> (s: String)
        ensures
            s@ == "{\"error\":true,\"kind\":\""@ + self.spec_kind() + "\",\"exit_code\":"@
                + decimal(self.spec_exit_code() as nat) + ",\"message\":\""@ + escaped(self.spec_message())
                + "\",\"hint\":\""@ + escaped(self.spec_hint()) + "\""@ + self.json_extra() + "}"@,
    {
        let mut s = String::new();
        push_str(&mut s, "{\"error\":true,\"kind\":\"");
        push_str(&mut s, self.kind());
        push_str(&mut s, "\",\"exit_code\":");
        push_decimal(&mut s, self.exit_code() as u64);
        push_str(&mut s, ",\"message\":\"");
        push_escaped(&mut s, self.message());
        push_str(&mut s, "\",\"hint\":\"");
        push_escaped(&mut s, self.hint());
        push_str(&mut s, "\"");
        let ghost head = s@;
        match self {
            CliError::Api { status: Some(code), .. } => {
                push_str(&mut s, ",\"http_status\":");
                push_decimal(&mut s, *code as u64);
            },
            CliError::RateLimit { retry_after_secs: Some(secs), .. } => {
                push_str(&mut s, ",\"retry_after_secs\":");
                push_decimal(&mut s, *secs);
            },
            CliError::NotFound { resource, .. } => {
                push_str(&mut s, ",\"resource\":\"");
                push_escaped(&mut s, resource.as_str());
                push_str(&mut s, "\"");
            },
            _ => {},
        }
        assert(s@ =~= head + self.json_extra());
        push_str(&mut s, "}");
        s
    }
}

} // verus!
