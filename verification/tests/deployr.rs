use designkit::deployr::{error_hint, ApiError, AuthError, CliError, ConfigError, IoError};
use std::path::PathBuf;

#[test]
fn exit_codes_and_code_names_are_stable() {
    assert_eq!(CliError::Usage("bad flag".to_string()).exit_code(), 2);
    assert_eq!(CliError::Auth(AuthError::TokenExpired).exit_code(), 3);
    assert_eq!(CliError::Api(ApiError::RateLimited { retry_after_secs: 1 }).exit_code(), 4);
    assert_eq!(CliError::Io(IoError::DirNotFound { path: PathBuf::from("/x") }).exit_code(), 4);
    assert_eq!(CliError::Config(ConfigError::MissingKey { key: "k".to_string() }).exit_code(), 2);
    assert_eq!(CliError::Usage("u".to_string()).code_name(), "usage_error");
    assert_eq!(CliError::Auth(AuthError::NoCredentials).code_name(), "auth_error");
    assert_eq!(CliError::Config(ConfigError::MissingKey { key: "k".to_string() }).code_name(), "config_error");
}

#[test]
fn hints_follow_the_error() {
    let http = |status| CliError::Api(ApiError::Http { status, endpoint: "/e".to_string(), body: String::new() });
    assert_eq!(
        error_hint(&http(401)),
        Some("your token may be invalid; run `deployr auth refresh` or `deployr auth login`")
    );
    assert_eq!(error_hint(&http(503)), Some("the server is having issues; retry in a few minutes"));
    assert_eq!(error_hint(&http(404)), None);
    assert_eq!(
        error_hint(&CliError::Api(ApiError::RateLimited { retry_after_secs: 0 })),
        Some("you are being rate-limited; wait a moment and retry")
    );
    assert_eq!(
        error_hint(&CliError::Api(ApiError::RateLimited { retry_after_secs: 30 })),
        Some("wait for the retry period and try again")
    );
    assert_eq!(error_hint(&CliError::Config(ConfigError::InvalidValue { key: "k".to_string(), detail: "d".to_string() })), None);
    assert_eq!(error_hint(&CliError::Usage(String::new())), Some("run `deployr --help` for usage information"));
}

#[test]
fn messages_say_what_failed() {
    assert_eq!(
        CliError::Api(ApiError::Timeout { endpoint: "/deploy".to_string(), seconds: 30 }).to_string(),
        "request to /deploy timed out after 30s"
    );
    assert_eq!(
        CliError::Auth(AuthError::CredentialRead { path: "~/.c".to_string(), reason: "gone".to_string() }).to_string(),
        "cannot read credentials from ~/.c: gone"
    );
    assert_eq!(
        CliError::Config(ConfigError::NotFound { path: PathBuf::from("/etc/deployr.toml") }).to_string(),
        "config file not found at /etc/deployr.toml"
    );
    assert_eq!(
        CliError::Io(IoError::DirNotFound { path: PathBuf::from("/tmp/x") }).to_string(),
        "directory /tmp/x does not exist"
    );
    assert_eq!(
        CliError::Config(ConfigError::MissingKey { key: "region".to_string() }).to_string(),
        "missing required config key \"region\""
    );
}
