use designkit::validation::{
    email_format, matches_field, max_length, min_length, regex_rule, required, EmailFormat,
    FieldRules, FormValidator, Matches, MaxLength, MinLength, RegexRule, Required, ValidationError,
    ValidationRule,
};
use std::collections::HashMap;

#[test]
fn test_required_passes_on_non_empty() {
    assert!(Required.validate("hello").is_none());
}

#[test]
fn test_required_fails_on_empty() {
    assert!(Required.validate("").is_some());
    assert!(Required.validate("   ").is_some());
}

#[test]
fn test_min_length() {
    let rule = MinLength { min: 3 };
    assert!(rule.validate("ab").is_some());
    assert!(rule.validate("abc").is_none());
    assert!(rule.validate("abcd").is_none());
}

#[test]
fn test_max_length() {
    let rule = MaxLength { max: 5 };
    assert!(rule.validate("12345").is_none());
    assert!(rule.validate("123456").is_some());
}

#[test]
fn test_email_format_valid() {
    assert!(EmailFormat.validate("user@example.com").is_none());
    assert!(EmailFormat.validate("a@b.c").is_none());
}

#[test]
fn test_email_format_invalid() {
    assert!(EmailFormat.validate("not-an-email").is_some());
    assert!(EmailFormat.validate("@no-local.com").is_some());
    assert!(EmailFormat.validate("no-domain@").is_some());
    assert!(EmailFormat.validate("no-dot@domain").is_some());
}

#[test]
fn test_email_format_skips_empty() {
    assert!(EmailFormat.validate("").is_none());
}

#[test]
fn test_matches_field_pass() {
    let rule = Matches {
        other_value: "secret123".to_string(),
        other_field_name: "password".to_string(),
    };
    assert!(rule.validate("secret123").is_none());
}

#[test]
fn test_matches_field_fail() {
    let rule = Matches {
        other_value: "secret123".to_string(),
        other_field_name: "password".to_string(),
    };
    let err = rule.validate("different").unwrap();
    assert!(err.contains("must match password"));
}

#[test]
fn test_regex_rule_digits_only() {
    let rule = RegexRule { pattern: r"^\d+$".to_string(), message: "digits only".to_string() };
    assert!(rule.validate("12345").is_none());
    assert!(rule.validate("123a5").is_some());
}

#[test]
fn test_field_rules_collects_all_errors() {
    let rules = FieldRules::new("email").add(required()).add(email_format()).add(max_length(255));

    let errors = rules.validate("user@example.com");
    assert!(errors.is_empty());

    let errors = rules.validate("not-an-email");
    assert_eq!(errors.len(), 1);
    assert!(errors[0].message.contains("email"));
}

#[test]
fn test_field_rules_empty_value_collects_required_error() {
    let rules = FieldRules::new("email").add(required()).add(email_format()).add(max_length(255));

    let errors = rules.validate("");
    assert_eq!(errors.len(), 1);
    assert!(errors[0].message.contains("required"));
}

#[test]
fn test_field_rules_multiple_failures() {
    let rules = FieldRules::new("username").add(required()).add(min_length(5)).add(max_length(3));

    let errors = rules.validate("ab");
    assert_eq!(errors.len(), 1);
    assert!(errors[0].message.contains("at least 5"));
}

#[test]
fn test_form_validator() {
    let password = "secret123";
    let form = FormValidator::new()
        .field(FieldRules::new("email").add(required()).add(email_format()))
        .field(FieldRules::new("password").add(required()).add(min_length(8)))
        .field(
            FieldRules::new("password_confirm")
                .add(required())
                .add(matches_field("password", password)),
        );

    let mut values = HashMap::new();
    values.insert("email", "bad");
    values.insert("password", "secret123");
    values.insert("password_confirm", "mismatch");

    let errors = form.validate(|field| values.get(field).copied().unwrap_or(""));
    assert_eq!(errors.len(), 2);
    assert!(errors.iter().any(|e| e.field == "email"));
    assert!(errors.iter().any(|e| e.field == "password_confirm"));
}

#[derive(Debug)]
struct ContainsUppercase;

impl ValidationRule for ContainsUppercase {
    fn validate(&self, value: &str) -> Option<String> {
        if value.chars().any(|c| c.is_uppercase()) {
            None
        } else {
            Some("must contain at least one uppercase letter".to_string())
        }
    }
}

#[test]
fn test_custom_rule_composes_with_builtins() {
    let rules = FieldRules::new("password")
        .add(required())
        .add(min_length(8))
        .add(Box::new(ContainsUppercase));

    let errors = rules.validate("alllowercase");
    assert_eq!(errors.len(), 1);
    assert!(errors[0].message.contains("uppercase"));

    let errors = rules.validate("HasUpper123");
    assert!(errors.is_empty());
}

// ---- further scenarios ----

#[test]
fn exact_messages() {
    assert_eq!(Required.validate(" \t").unwrap(), "this field is required");
    assert_eq!(MinLength { min: 4 }.validate("abc").unwrap(), "must be at least 4 characters");
    assert_eq!(MaxLength { max: 2 }.validate("abc").unwrap(), "must be at most 2 characters");
    assert_eq!(EmailFormat.validate("x@y").unwrap(), "must be a valid email address");
    let e = ValidationError { field: "age".into(), message: "too old".into() };
    assert_eq!(e.to_string(), "age: too old");
}

#[test]
fn lengths_count_bytes() {
    // "é" is two bytes
    assert!(MinLength { min: 2 }.validate("é").is_none());
    assert!(MaxLength { max: 1 }.validate("é").is_some());
}

#[test]
fn regex_features() {
    let r = |p: &str, v: &str| regex_rule(p, "bad").validate(v).is_none();
    // `{2,}` means at least two
    assert!(r(r"^[a-z]+@[a-z]+\.[a-z]{2,}$", "joe@mail.co"));
    assert!(r(r"^[a-z]+@[a-z]+\.[a-z]{2,}$", "joe@mail.com"));
    assert!(r(r"^[a-zA-Z0-9._%+-]+@[a-zA-Z0-9.-]+\.[a-zA-Z]{2,}$", "user@example.com"));
    assert!(!r(r"^[a-z]+@[a-z]+\.[a-z]{2,}$", "joe@mail.c"));
    assert!(r(r"^\w{3}$", "a_1"));
    assert!(!r(r"^\w{3}$", "a_12"));
    assert!(r("b.d", "abcde"));
    assert!(r(r"cd$", "abcd"));
    assert!(!r(r"cd$", "abcde"));
    assert!(r("^ab*c", "abbbcz"));
    assert!(r(r"^\s*x", "  x"));
    assert!(r("anything", "")); // empty values are not this rule's concern
}

#[test]
fn form_errors_keep_field_order() {
    let form = FormValidator::new()
        .field(FieldRules::new("a").add(required()))
        .field(FieldRules::new("b").add(required()).add(min_length(3)));
    let errors = form.validate(|_| "");
    assert_eq!(errors.len(), 3);
    assert_eq!(errors[0].field, "a");
    assert_eq!(errors[1].field, "b");
    assert_eq!(errors[2].field, "b");
}
