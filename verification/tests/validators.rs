use designkit::validators::{
    custom, email_format, matches_field, max_length, min_length, regex_match, required, FieldRules,
    FormValidator, ValidationResult, Validator,
};

#[test]
fn required_rejects_empty() {
    assert!(required().validate("").is_some());
    assert!(required().validate("   ").is_some());
}

#[test]
fn required_accepts_non_empty() {
    assert!(required().validate("hello").is_none());
}

#[test]
fn email_rejects_missing_at() {
    assert!(email_format().validate("bademail").is_some());
}

#[test]
fn email_rejects_missing_tld() {
    assert!(email_format().validate("a@b").is_some());
}

#[test]
fn email_accepts_valid() {
    assert!(email_format().validate("user@example.com").is_none());
}

#[test]
fn email_skips_empty() {
    assert!(email_format().validate("").is_none());
}

#[test]
fn min_length_works() {
    assert!(min_length(5).validate("ab").is_some());
    assert!(min_length(5).validate("abcde").is_none());
}

#[test]
fn max_length_works() {
    assert!(max_length(3).validate("abcd").is_some());
    assert!(max_length(3).validate("abc").is_none());
}

#[test]
fn regex_match_works() {
    let v = regex_match("hello", "must contain hello");
    assert!(v.validate("say hello world").is_none());
    assert!(v.validate("goodbye").is_some());
}

#[test]
fn matches_field_passes_when_equal() {
    let v = matches_field("password", "secret123");
    assert!(v.validate("secret123").is_none());
}

#[test]
fn matches_field_fails_when_different() {
    let v = matches_field("password", "secret123");
    let err = v.validate("other").unwrap();
    assert!(err.contains("must match password"));
}

#[test]
fn custom_validator_works() {
    let v = custom(|val| {
        if val.starts_with("USD") {
            None
        } else {
            Some("must start with USD".to_string())
        }
    });
    assert!(v.validate("USD100").is_none());
    assert!(v.validate("EUR50").is_some());
}

#[test]
fn field_rules_collects_all_errors() {
    let rules = FieldRules::new("email").add(required()).add(email_format()).add(max_length(255));

    let errs = rules.validate("user@example.com");
    assert!(errs.is_empty());

    let errs = rules.validate("");
    assert_eq!(errs.len(), 1);
    assert!(errs[0].contains("required"));
}

#[test]
fn field_rules_returns_multiple_errors() {
    let rules = FieldRules::new("username").add(required()).add(min_length(3)).add(max_length(20));

    let errs = rules.validate("");
    assert!(errs.len() >= 2);
}

#[test]
fn field_rules_invalid_email_format() {
    let rules = FieldRules::new("email").add(required()).add(email_format()).add(max_length(255));

    let errs = rules.validate("not-an-email");
    assert!(!errs.is_empty());
    assert!(errs.iter().any(|e| e.contains("email")));
}

#[test]
fn form_validator_all_valid() {
    let form = FormValidator::new().field(FieldRules::new("name").add(required()).add(max_length(100)));

    let values = vec![("name", "Alice")];

    let result = form.validate(&values);
    assert!(result.is_valid());
}

#[test]
fn form_validator_missing_field_treated_as_empty() {
    let form = FormValidator::new().field(FieldRules::new("name").add(required()));

    let values: Vec<(&str, &str)> = Vec::new();
    let result = form.validate(&values);
    assert!(!result.is_valid());
}

// ---- further scenarios ----

#[test]
fn email_domain_rules() {
    assert!(email_format().validate("a@b..com").is_some());
    assert!(email_format().validate("a@b.c").is_some());
    assert!(email_format().validate("a@b.co").is_none());
    assert!(email_format().validate("a@b.\u{e9}").is_none()); // two bytes
    assert!(email_format().validate("@b.co").is_some());
    assert!(email_format().validate("a@").is_some());
}

#[test]
fn literal_patterns_and_anchors() {
    assert!(regex_match("^ab$", "m").validate("ab").is_none());
    assert!(regex_match("^ab$", "m").validate("abc").is_some());
    assert!(regex_match("^ab", "m").validate("abc").is_none());
    assert!(regex_match("bc$", "m").validate("abc").is_none());
    assert!(regex_match("bc$", "m").validate("bca").is_some());
    assert_eq!(regex_match("zz", "nope").validate("abc").unwrap(), "nope");
}

#[test]
fn result_groups_messages_by_field() {
    let form = FormValidator::new()
        .field(FieldRules::new("user").add(required()).add(min_length(3)))
        .field(FieldRules::new("nick").add(max_length(2)));
    let values = vec![("user", ""), ("nick", "ok")];
    let result = form.validate(&values);
    assert_eq!(result.errors_for("user").len(), 2);
    assert!(result.errors_for("nick").is_empty());
    assert!(result.errors_for("other").is_empty());
    assert_eq!(result.to_string(), "user: is required\nuser: must be at least 3 characters\n");
    assert_eq!(result.all_errors().len(), 1);
    assert!(ValidationResult::default().is_valid());
}

#[test]
fn regex_match_supports_classes_and_quantifiers() {
    assert!(regex_match(r"^\d+$", "m").validate("123").is_none());
    assert!(regex_match(r"^\d+$", "m").validate("12a").is_some());
    assert!(regex_match(r"^[a-z]{2,}$", "m").validate("abc").is_none());
    assert!(regex_match(r"^[a-z]{2,}$", "m").validate("a").is_some());
}
