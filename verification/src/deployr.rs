//! Structured errors for a deployment CLI: every error says what failed, why,
//! and what to do; exit codes are a stable contract.
use vstd::prelude::*;
use crate::text::{push_str, push_decimal, decimal, push_signed, signed_decimal};
use crate::cli_error::{escaped, push_escaped};
use crate::sys::write_stderr_line;

verus! {

#[verifier::external_type_specification]
#[verifier::external_body]
pub struct ExPathBuf(std::path::PathBuf);

/// The text of a path as `Path::display` shows it. Nothing is promised of
/// the text: a path that is not valid Unicode is shown lossily.
#[verifier::external_body]
fn path_text(p: &std::path::PathBuf) -> String {
    p.display().to_string()
}

/// Authentication errors.
#[derive(Debug)]
pub enum AuthError {
    NoCredentials,
    TokenExpired,
    RefreshFailed { reason: String },
    CredentialRead { path: String, reason: String },
    CredentialParse { context: String, detail: String },
}

/// API and upstream errors.
#[derive(Debug)]
pub enum ApiError {
    Http { status: u16, endpoint: String, body: String },
    Timeout { endpoint: String, seconds: u64 },
    Network { host: String, reason: String },
    ResponseParse { endpoint: String, detail: String },
    RateLimited { retry_after_secs: u64 },
}

/// Configuration errors.
#[derive(Debug)]
pub enum ConfigError {
    NotFound { path: std::path::PathBuf },
    ReadFailed { path: std::path::PathBuf, reason: String },
    ParseFailed { path: std::path::PathBuf, detail: String },
    MissingKey { key: String },
    InvalidValue { key: String, detail: String },
}

/// File-system errors.
#[derive(Debug)]
pub enum IoError {
    ReadFailed { path: std::path::PathBuf, reason: String },
    WriteFailed { path: std::path::PathBuf, reason: String },
    DirNotFound { path: std::path::PathBuf },
    PermissionDenied { path: std::path::PathBuf },
}

/// The top-level CLI error.
#[derive(Debug)]
pub enum CliError {
    Auth(AuthError),
    Api(ApiError),
    Config(ConfigError),
    Io(IoError),
    Usage(String),
}

pub open spec fn auth_message(e: AuthError) -> Seq<char> {
    match e {
        AuthError::NoCredentials => "no credentials found (checked env vars, config file, and keychain)"@,
        AuthError::TokenExpired => "access token has expired"@,
        AuthError::RefreshFailed { reason } => "token refresh failed: "@ + reason@,
        AuthError::CredentialRead { path, reason } => "cannot read credentials from "@ + path@ + ": "@ + reason@,
        AuthError::CredentialParse { context, detail } => "cannot parse credential data ("@ + context@ + "): "@ + detail@,
    }
}

pub open spec fn api_message(e: ApiError) -> Seq<char> {
    match e {
        ApiError::Http { status, endpoint, body } => "server returned HTTP "@ + decimal(status as nat) + " for "@
            + endpoint@ + ": "@ + body@,
        ApiError::Timeout { endpoint, seconds } => "request to "@ + endpoint@ + " timed out after "@
            + decimal(seconds as nat) + "s"@,
        ApiError::Network { host, reason } => "cannot reach "@ + host@ + ": "@ + reason@,
        ApiError::ResponseParse { endpoint, detail } => "unexpected response from "@ + endpoint@ + ": "@ + detail@,
        ApiError::RateLimited { retry_after_secs } => "rate-limited by server (retry after "@
            + decimal(retry_after_secs as nat) + "s)"@,
    }
}

impl AuthError {
    pub fn to_string(&self) -> (r: String)
        ensures
            r@ == auth_message(*self),
    {
        let mut s = String::new();
        match self {
            AuthError::NoCredentials => push_str(&mut s, "no credentials found (checked env vars, config file, and keychain)"),
            AuthError::TokenExpired => push_str(&mut s, "access token has expired"),
            AuthError::RefreshFailed { reason } => {
                push_str(&mut s, "token refresh failed: ");
                push_str(&mut s, reason.as_str());
            },
            AuthError::CredentialRead { path, reason } => {
                push_str(&mut s, "cannot read credentials from ");
                push_str(&mut s, path.as_str());
                push_str(&mut s, ": ");
                push_str(&mut s, reason.as_str());
            },
            AuthError::CredentialParse { context, detail } => {
                push_str(&mut s, "cannot parse credential data (");
                push_str(&mut s, context.as_str());
                push_str(&mut s, "): ");
                push_str(&mut s, detail.as_str());
            },
        }
        s
    }
}

impl ApiError {
    pub fn to_string(&self) -> (r: String)
        ensures
            r@ == api_message(*self),
    {
        let mut s = String::new();
        match self {
            ApiError::Http { status, endpoint, body } => {
                push_str(&mut s, "server returned HTTP ");
                push_decimal(&mut s, *status as u64);
                push_str(&mut s, " for ");
                push_str(&mut s, endpoint.as_str());
                push_str(&mut s, ": ");
                push_str(&mut s, body.as_str());
            },
            ApiError::Timeout { endpoint, seconds } => {
                push_str(&mut s, "request to ");
                push_str(&mut s, endpoint.as_str());
                push_str(&mut s, " timed out after ");
                push_decimal(&mut s, *seconds);
                push_str(&mut s, "s");
            },
            ApiError::Network { host, reason } => {
                push_str(&mut s, "cannot reach ");
                push_str(&mut s, host.as_str());
                push_str(&mut s, ": ");
                push_str(&mut s, reason.as_str());
            },
            ApiError::ResponseParse { endpoint, detail } => {
                push_str(&mut s, "unexpected response from ");
                push_str(&mut s, endpoint.as_str());
                push_str(&mut s, ": ");
                push_str(&mut s, detail.as_str());
            },
            ApiError::RateLimited { retry_after_secs } => {
                push_str(&mut s, "rate-limited by server (retry after ");
                push_decimal(&mut s, *retry_after_secs);
                push_str(&mut s, "s)");
            },
        }
        s
    }
}

impl ConfigError {
    /// The message; the path's text is whatever `Path::display` shows.
    pub fn to_string(&self) -> (r: String)
        ensures
            *self matches ConfigError::MissingKey { key } ==> r@ == "missing required config key \""@ + key@ + "\""@,
            *self matches ConfigError::InvalidValue { key, detail } ==> r@ == "invalid value for \""@ + key@
                + "\": "@ + detail@,
            *self is NotFound ==> crate::text::has_prefix(r@, "config file not found at "@),
            *self is ReadFailed ==> crate::text::has_prefix(r@, "cannot read config file "@),
            *self is ParseFailed ==> crate::text::has_prefix(r@, "invalid config in "@),
    {
        let mut s = String::new();
        match self {
            ConfigError::NotFound { path } => {
                push_str(&mut s, "config file not found at ");
                let ghost h = s@;
                let p = path_text(path);
                push_str(&mut s, p.as_str());
                assert(s@.take(h.len() as int) == h);
            },
            ConfigError::ReadFailed { path, reason } => {
                push_str(&mut s, "cannot read config file ");
                let ghost h = s@;
                let p = path_text(path);
                push_str(&mut s, p.as_str());
                push_str(&mut s, ": ");
                push_str(&mut s, reason.as_str());
                assert(s@.take(h.len() as int) == h);
            },
            ConfigError::ParseFailed { path, detail } => {
                push_str(&mut s, "invalid config in ");
                let ghost h = s@;
                let p = path_text(path);
                push_str(&mut s, p.as_str());
                push_str(&mut s, ": ");
                push_str(&mut s, detail.as_str());
                assert(s@.take(h.len() as int) == h);
            },
            ConfigError::MissingKey { key } => {
                push_str(&mut s, "missing required config key \"");
                push_str(&mut s, key.as_str());
                push_str(&mut s, "\"");
            },
            ConfigError::InvalidValue { key, detail } => {
                push_str(&mut s, "invalid value for \"");
                push_str(&mut s, key.as_str());
                push_str(&mut s, "\": ");
                push_str(&mut s, detail.as_str());
            },
        }
        s
    }
}

impl IoError {
    /// The message; the path's text is whatever `Path::display` shows.
    pub fn to_string(&self) -> (r: String)
        ensures
            *self is ReadFailed ==> crate::text::has_prefix(r@, "cannot read "@),
            *self is WriteFailed ==> crate::text::has_prefix(r@, "cannot write "@),
            *self is DirNotFound ==> crate::text::has_prefix(r@, "directory "@)
                && crate::text::has_suffix(r@, " does not exist"@),
            *self is PermissionDenied ==> crate::text::has_prefix(r@, "permission denied on "@),
    {
        let mut s = String::new();
        match self {
            IoError::ReadFailed { path, reason } => {
                push_str(&mut s, "cannot read ");
                let ghost h = s@;
                let p = path_text(path);
                push_str(&mut s, p.as_str());
                push_str(&mut s, ": ");
                push_str(&mut s, reason.as_str());
                assert(s@.take(h.len() as int) == h);
            },
            IoError::WriteFailed { path, reason } => {
                push_str(&mut s, "cannot write ");
                let ghost h = s@;
                let p = path_text(path);
                push_str(&mut s, p.as_str());
                push_str(&mut s, ": ");
                push_str(&mut s, reason.as_str());
                assert(s@.take(h.len() as int) == h);
            },
            IoError::DirNotFound { path } => {
                push_str(&mut s, "directory ");
                let ghost h = s@;
                let p = path_text(path);
                push_str(&mut s, p.as_str());
                let ghost m = s@;
                push_str(&mut s, " does not exist");
                assert(s@.take(h.len() as int) == h);
                assert(s@ == m + " does not exist"@);
                assert(s@.skip(m.len() as int) == " does not exist"@);
            },
            IoError::PermissionDenied { path } => {
                push_str(&mut s, "permission denied on ");
                let ghost h = s@;
                let p = path_text(path);
                push_str(&mut s, p.as_str());
                assert(s@.take(h.len() as int) == h);
            },
        }
        s
    }
}

/// The exit code of an error category.
pub open spec fn spec_exit_code(e: CliError) -> i32 {
    match e {
        CliError::Usage(_) => 2,
        CliError::Auth(_) => 3,
        CliError::Api(_) => 4,
        CliError::Io(_) => 4,
        CliError::Config(_) => 2,
    }
}

/// The short tag of an error category.
pub open spec fn spec_code_name(e: CliError) -> Seq<char> {
    match e {
        CliError::Usage(_) => "usage_error"@,
        CliError::Auth(_) => "auth_error"@,
        CliError::Api(_) => "api_error"@,
        CliError::Config(_) => "config_error"@,
        CliError::Io(_) => "io_error"@,
    }
}

impl CliError {
    /// Stable exit code: 2 usage (and configuration), 3 authentication, 4
    /// upstream or I/O.
    pub fn exit_code(&self) -> (r: i32)
        ensures
            r == spec_exit_code(*self),
    {
        match self {
            CliError::Usage(_) => 2,
            CliError::Auth(_) => 3,
            CliError::Api(_) | CliError::Io(_) => 4,
            CliError::Config(_) => 2,
        }
    }

    /// Short stable tag for JSON output.
    pub fn code_name(&self) -> (r: &'static str)
        ensures
            r@ == spec_code_name(*self),
    {
        match self {
            CliError::Usage(_) => "usage_error",
            CliError::Auth(_) => "auth_error",
            CliError::Api(_) => "api_error",
            CliError::Config(_) => "config_error",
            CliError::Io(_) => "io_error",
        }
    }

    /// The message of the wrapped error.
    pub fn to_string(&self) -> (r: String)
        ensures
            *self matches CliError::Auth(e) ==> r@ == auth_message(e),
            *self matches CliError::Api(e) ==> r@ == api_message(e),
            *self matches CliError::Usage(m) ==> r@ == m@,
    {
        match self {
            CliError::Auth(e) => e.to_string(),
            CliError::Api(e) => e.to_string(),
            CliError::Config(e) => e.to_string(),
            CliError::Io(e) => e.to_string(),
            CliError::Usage(m) => m.clone(),
        }
    }
}

/// The suggestion that tells the user what to do about an error.
pub open spec fn spec_error_hint(e: CliError) -> Option<Seq<char>> {
    match e {
        CliError::Auth(AuthError::NoCredentials) => Some("run `deployr auth login` to authenticate, or set DEPLOYR_TOKEN"@),
        CliError::Auth(AuthError::TokenExpired) => Some("run `deployr auth refresh` to get a new token"@),
        CliError::Auth(AuthError::RefreshFailed { .. }) => Some("run `deployr auth login` to re-authenticate from scratch"@),
        CliError::Auth(AuthError::CredentialRead { .. }) => Some("check file permissions, or run `deployr auth login` to set up credentials again"@),
        CliError::Auth(AuthError::CredentialParse { .. }) => Some("credentials may be corrupted; run `deployr auth login` to reset"@),
        CliError::Api(ApiError::Http { status, .. }) => if status == 401 || status == 403 {
            Some("your token may be invalid; run `deployr auth refresh` or `deployr auth login`"@)
        } else if status >= 500 {
            Some("the server is having issues; retry in a few minutes"@)
        } else {
            None
        },
        CliError::Api(ApiError::Timeout { .. }) => Some("the server did not respond in time; check your connection and retry"@),
        CliError::Api(ApiError::Network { .. }) => Some("check your internet connection and DNS settings"@),
        CliError::Api(ApiError::RateLimited { retry_after_secs }) => if retry_after_secs > 0 {
            Some("wait for the retry period and try again"@)
        } else {
            Some("you are being rate-limited; wait a moment and retry"@)
        },
        CliError::Api(ApiError::ResponseParse { .. }) => Some("the server returned an unexpected format; check if deployr needs updating"@),
        CliError::Config(ConfigError::NotFound { .. }) => Some("run `deployr init` to create a config file, or pass options via flags"@),
        CliError::Config(ConfigError::ParseFailed { .. }) => Some("check your config file syntax (TOML format)"@),
        CliError::Config(ConfigError::MissingKey { .. }) => Some("add the missing key to your config file or pass it as a CLI flag"@),
        CliError::Config(_) => None,
        CliError::Io(IoError::PermissionDenied { .. }) => Some("check file/directory permissions, or run with appropriate access"@),
        CliError::Io(IoError::DirNotFound { .. }) => Some("create the directory first, or check the path for typos"@),
        CliError::Io(_) => None,
        CliError::Usage(_) => Some("run `deployr --help` for usage information"@),
    }
}

/// Returns a user-facing hint that tells the user what to do about the error.
pub fn error_hint(e: &CliError) -> (r: Option<&'static str>)
    ensures
        r is Some <==> spec_error_hint(*e) is Some,
        r matches Some(h) ==> h@ == spec_error_hint(*e)->Some_0,
{
    match e {
        CliError::Auth(AuthError::NoCredentials) => Some("run `deployr auth login` to authenticate, or set DEPLOYR_TOKEN"),
        CliError::Auth(AuthError::TokenExpired) => Some("run `deployr auth refresh` to get a new token"),
        CliError::Auth(AuthError::RefreshFailed { .. }) => Some("run `deployr auth login` to re-authenticate from scratch"),
        CliError::Auth(AuthError::CredentialRead { .. }) => Some("check file permissions, or run `deployr auth login` to set up credentials again"),
        CliError::Auth(AuthError::CredentialParse { .. }) => Some("credentials may be corrupted; run `deployr auth login` to reset"),
        CliError::Api(ApiError::Http { status, .. }) if *status == 401 || *status == 403 => {
            Some("your token may be invalid; run `deployr auth refresh` or `deployr auth login`")
        },
        CliError::Api(ApiError::Http { status, .. }) if *status >= 500 => {
            Some("the server is having issues; retry in a few minutes")
        },
        CliError::Api(ApiError::Timeout { .. }) => Some("the server did not respond in time; check your connection and retry"),
        CliError::Api(ApiError::Network { .. }) => Some("check your internet connection and DNS settings"),
        CliError::Api(ApiError::RateLimited { retry_after_secs }) => Some(
            if *retry_after_secs > 0 {
                "wait for the retry period and try again"
            } else {
                "you are being rate-limited; wait a moment and retry"
            },
        ),
        CliError::Api(ApiError::ResponseParse { .. }) => Some("the server returned an unexpected format; check if deployr needs updating"),
        CliError::Api(ApiError::Http { .. }) => None,
        CliError::Config(ConfigError::NotFound { .. }) => Some("run `deployr init` to create a config file, or pass options via flags"),
        CliError::Config(ConfigError::ParseFailed { .. }) => Some("check your config file syntax (TOML format)"),
        CliError::Config(ConfigError::MissingKey { .. }) => Some("add the missing key to your config file or pass it as a CLI flag"),
        CliError::Config(_) => None,
        CliError::Io(IoError::PermissionDenied { .. }) => Some("check file/directory permissions, or run with appropriate access"),
        CliError::Io(IoError::DirNotFound { .. }) => Some("create the directory first, or check the path for typos"),
        CliError::Io(_) => None,
        CliError::Usage(_) => Some("run `deployr --help` for usage information"),
    }
}

/// The exit code depends only on the error's category, and every category
/// has a code other than 0.
pub proof fn exit_codes_are_nonzero(e: CliError)
    ensures
        spec_exit_code(e) != 0,
        spec_exit_code(e) == 2 <==> (e is Usage || e is Config),
        spec_exit_code(e) == 3 <==> e is Auth,
{
}


/// The error as one JSON object: its message, exit code, tag and, when it
/// has one, its hint, with `\` and `"` escaped in the texts.
pub open spec fn error_json_text(message: Seq<char>, e: CliError) -> Seq<char> {
    "{\"error\":\""@ + escaped(message) + "\",\"code\":"@ + signed_decimal(spec_exit_code(e) as int)
        + ",\"code_name\":\""@ + spec_code_name(e) + "\""@ + match spec_error_hint(e) {
        Some(h) => ",\"hint\":\""@ + escaped(h) + "\""@,
        None => Seq::empty(),
    } + "}"@
}

/// The error as one JSON object, as `error_json_text` says.
pub fn error_json(e: &CliError) -> (r: String)
    ensures
        exists|m: String| r@ == error_json_text(m@, *e) && (*e matches CliError::Auth(a) ==> m@ == auth_message(a))
            && (*e matches CliError::Api(a) ==> m@ == api_message(a)) && (*e matches CliError::Usage(u) ==> m@ == u@),
{
    let message = e.to_string();
    let mut s = String::new();
    push_str(&mut s, "{\"error\":\"");
    push_escaped(&mut s, message.as_str());
    push_str(&mut s, "\",\"code\":");
    push_signed(&mut s, e.exit_code() as i64);
    push_str(&mut s, ",\"code_name\":\"");
    push_str(&mut s, e.code_name());
    push_str(&mut s, "\"");
    match error_hint(e) {
        Some(h) => {
            push_str(&mut s, ",\"hint\":\"");
            push_escaped(&mut s, h);
            push_str(&mut s, "\"");
        },
        None => {},
    }
    push_str(&mut s, "}");
    proof {
        assert(s@ == error_json_text(message@, *e));
    }
    s
}

/// The error for people: `error: <message>`, then `hint:  <hint>` when it
/// has one.
pub fn error_lines(e: &CliError) -> (r: Vec<String>)
    ensures
        r@.len() == (if spec_error_hint(*e) is Some { 2int } else { 1int }),
        *e matches CliError::Auth(a) ==> r@[0]@ == "error: "@ + auth_message(a),
        *e matches CliError::Api(a) ==> r@[0]@ == "error: "@ + api_message(a),
        *e matches CliError::Usage(u) ==> r@[0]@ == "error: "@ + u@,
        spec_error_hint(*e) matches Some(h) ==> r@[1]@ == "hint:  "@ + h,
{
    let message = e.to_string();
    let mut first = String::new();
    push_str(&mut first, "error: ");
    push_str(&mut first, message.as_str());
    let mut r: Vec<String> = Vec::new();
    r.push(first);
    match error_hint(e) {
        Some(h) => {
            let mut second = String::new();
            push_str(&mut second, "hint:  ");
            push_str(&mut second, h);
            r.push(second);
        },
        None => {},
    }
    r
}

/// Writes the error to standard error: one JSON object in JSON mode, else
/// the lines for people.
pub fn render_error(json: bool, e: &CliError) {
    if json {
        let text = error_json(e);
        write_stderr_line(text.as_str());
    } else {
        let lines = error_lines(e);
        let mut i: usize = 0;
        while i < lines.len()
            decreases lines@.len() - i,
        {
            write_stderr_line(lines[i].as_str());
            i = i + 1;
        }
    }
}

/// The log level a verbosity count asks for: `warn`, `info`, `debug`, then
/// `trace` for three or more.
pub fn filter_level(verbosity: u8) -> (r: &'static str)
    ensures
        r@ == (if verbosity == 0 {
            "warn"@
        } else if verbosity == 1 {
            "info"@
        } else if verbosity == 2 {
            "debug"@
        } else {
            "trace"@
        }),
{
    match verbosity {
        0 => "warn",
        1 => "info",
        2 => "debug",
        _ => "trace",
    }
}
} // verus!
