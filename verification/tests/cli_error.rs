use designkit::cli_error::{exit_code, CliError};

#[test]
fn exit_codes_are_stable() {
    assert_eq!(CliError::auth_expired().exit_code(), 2);
    assert_eq!(CliError::api(500, "oops").exit_code(), 3);
    assert_eq!(CliError::config_missing("/a").exit_code(), 4);
    assert_eq!(CliError::timeout("https://x").exit_code(), 6);
    assert_eq!(CliError::rate_limited(Some(30)).exit_code(), 7);
    assert_eq!(CliError::not_found("event/abc").exit_code(), 8);
}

#[test]
fn display_includes_hint() {
    let e = CliError::auth_expired();
    let s = e.to_string();
    assert!(s.contains("error:"));
    assert!(s.contains("hint:"));
}

#[test]
fn json_output_is_valid() {
    let e = CliError::api(502, "bad gateway");
    let j = e.to_json();
    assert!(j.starts_with('{'));
    assert!(j.ends_with('}'));
    assert!(j.contains(r#""error":true"#));
    assert!(j.contains(r#""http_status":502"#));
}

#[test]
fn json_escapes_quotes() {
    let e = CliError::invalid_input(r#"field "name" is required"#, r#"pass --name "value""#);
    let j = e.to_json();
    assert!(j.contains(r#"\"name\""#));
}

// ---- further scenarios ----

#[test]
fn every_variant_has_its_code_and_kind() {
    let cases = vec![
        (CliError::auth_missing(), exit_code::AUTH_ERROR, "auth_error"),
        (CliError::auth_forbidden("x"), 2, "auth_error"),
        (CliError::api_decode("x"), exit_code::API_ERROR, "api_error"),
        (CliError::config_parse("p", "d"), 4, "config_error"),
        (CliError::config_invalid("f", "r"), 4, "config_error"),
        (CliError::io_network("down"), exit_code::IO_ERROR, "io_error"),
        (CliError::io("reading", std::io::Error::new(std::io::ErrorKind::Other, "boom")), 5, "io_error"),
        (CliError::from_io_error(std::io::Error::new(std::io::ErrorKind::Other, "boom")), 5, "io_error"),
        (CliError::timeout("u"), exit_code::TIMEOUT_ERROR, "timeout_error"),
        (CliError::rate_limited(None), 7, "rate_limit_error"),
        (CliError::not_found("r"), exit_code::NOT_FOUND_ERROR, "not_found_error"),
        (CliError::invalid_input("m", "h"), exit_code::INVALID_INPUT_ERROR, "invalid_input_error"),
    ];
    for (e, code, kind) in cases {
        assert_eq!(e.exit_code(), code);
        assert_eq!(e.kind(), kind);
    }
    assert_eq!(exit_code::SUCCESS, 0);
    assert_eq!(exit_code::GENERAL_ERROR, 1);
}

#[test]
fn exact_texts() {
    let e = CliError::config_missing("/etc/d.toml");
    assert_eq!(
        e.to_string(),
        "error: Configuration file not found: /etc/d.toml\nhint: Run `deployr init` to create a default config at /etc/d.toml."
    );
    assert_eq!(CliError::rate_limited(Some(30)).hint(), "Wait 30 seconds and retry.");
    assert_eq!(CliError::api(404, "nope").message(), "API request failed (HTTP 404): nope");
    let io = CliError::io("reading config", std::io::Error::new(std::io::ErrorKind::Other, "boom"));
    assert_eq!(io.message(), "reading config: boom");
    let j = CliError::not_found(r#"a\b"#).to_json();
    assert_eq!(
        j,
        r#"{"error":true,"kind":"not_found_error","exit_code":8,"message":"a\\b not found.","hint":"Verify the ID or name is correct. Use `deployr list` to see available resources.","resource":"a\\b"}"#
    );
    let r = CliError::rate_limited(Some(5)).to_json();
    assert!(r.ends_with(r#","retry_after_secs":5}"#));
}

#[test]
fn json_escapes_control_characters() {
    let e = CliError::invalid_input("line1\nline2\t\"q\"\\", "h");
    let j = e.to_json();
    assert!(!j.contains('\n'));
    assert!(j.contains(r#""message":"line1\nline2\t\"q\"\\""#));
    let e = CliError::invalid_input("bell\u{7}", "h");
    assert!(e.to_json().contains(r#""message":"bell\u0007""#));
}
