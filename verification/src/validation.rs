//! Validation rules for form fields. Each rule inspects a string value and
//! reports an error message; rules compose per field, and fields per form,
//! and every error is collected, not just the first.
use vstd::prelude::*;
use crate::boxed::push_boxed;
use crate::pattern::{pattern_matches, simple_regex_match};
use crate::text::{byte_len, all_ws, chars_of, decimal, find_char, find_in, first_index, is_blank, owned, push_decimal, push_str, str_eq};

verus! {

/// A single validation rule: `Some(message)` when the value is invalid.
pub trait ValidationRule {
    /// Whether the rule may answer `a` for `value` (`None` when the value
    /// passes, else the message). Each rule of this library admits exactly one
    /// answer; a rule that does not say may answer anything.
    open spec fn admits(&self, value: Seq<char>, a: Option<Seq<char>>) -> bool {
        true
    }

    fn validate(&self, value: &str) -> (r: Option<String>)
        ensures
            self.admits(value@, opt_text(r));
}

/// An optional string by its characters.
pub open spec fn opt_text(o: Option<String>) -> Option<Seq<char>> {
    match o {
        Some(s) => Some(s@),
        None => None,
    }
}

/// The messages among answers, in order.
pub open spec fn somes(a: Seq<Option<Seq<char>>>) -> Seq<Seq<char>>
    decreases a.len(),
{
    if a.len() == 0 {
        Seq::empty()
    } else {
        match a.last() {
            Some(m) => somes(a.drop_last()).push(m),
            None => somes(a.drop_last()),
        }
    }
}

/// The errors of outcomes are the messages among their answers.
pub proof fn lemma_errors_somes(o: Seq<Option<String>>, a: Seq<Option<Seq<char>>>)
    requires
        o.len() == a.len(),
        forall|i: int| 0 <= i < o.len() ==> opt_text(#[trigger] o[i]) == a[i],
    ensures
        errors_of(o) == somes(a),
    decreases o.len(),
{
    if o.len() > 0 {
        assert(opt_text(o[o.len() - 1]) == a[a.len() - 1]);
        lemma_errors_somes(o.drop_last(), a.drop_last());
    }
}

/// An error tied to a field name.
#[derive(Debug, Clone, PartialEq, Eq)]
pub struct ValidationError {
    pub field: String,
    pub message: String,
}

impl ValidationError {
    /// `field: message`.
    pub fn to_string(&self) -> (s: String)
        ensures
            s@ == self.field@ + ": "@ + self.message@,
    {
        let mut s = String::new();
        push_str(&mut s, self.field.as_str());
        push_str(&mut s, ": ");
        push_str(&mut s, self.message.as_str());
        s
    }
}

/// The errors that a field's rule outcomes give, in rule order.
pub open spec fn errors_of(outcomes: Seq<Option<String>>) -> Seq<Seq<char>>
    decreases outcomes.len(),
{
    if outcomes.len() == 0 {
        Seq::empty()
    } else {
        match outcomes.last() {
            Some(m) => errors_of(outcomes.drop_last()).push(m@),
            None => errors_of(outcomes.drop_last()),
        }
    }
}

/// One error for the field per failed rule outcome, in order.
pub fn collect_errors(field: &str, outcomes: Vec<Option<String>>) -> (r: Vec<ValidationError>)
    ensures
        r@.map_values(|e: ValidationError| e.message@) == errors_of(outcomes@),
        forall|i: int| 0 <= i < r.len() ==> (#[trigger] r@[i]).field@ == field@,
{
    let ghost all = outcomes@;
    let mut out: Vec<ValidationError> = Vec::new();
    for o in it: outcomes.into_iter()
        invariant
            it.seq() == all,
            out@.map_values(|e: ValidationError| e.message@) == errors_of(all.take(it.index() as int)),
            forall|i: int| 0 <= i < out.len() ==> (#[trigger] out@[i]).field@ == field@,
    {
        let ghost k = it.index();
        let ghost before = out@;
        proof {
            assert(all.take(k + 1).drop_last() =~= all.take(k as int));
            assert(all.take(k + 1).last() == o);
        }
        match o {
            Some(message) => {
                let e = ValidationError { field: owned(field), message };
                out.push(e);
                assert(out@.map_values(|e: ValidationError| e.message@) =~= before.map_values(|e: ValidationError| e.message@).push(e.message@));
            },
            None => {},
        }
    }
    assert(all.take(all.len() as int) =~= all);
    out
}

/// The rules of one named field.
pub struct FieldRules {
    field_name: String,
    rules: Vec<Box<dyn ValidationRule>>,
}

impl FieldRules {
    pub closed spec fn name(&self) -> Seq<char> {
        self.field_name@
    }

    pub closed spec fn num_rules(&self) -> nat {
        self.rules@.len()
    }

    /// `a` holds, in the order the rules were added, an answer that each rule
    /// may give for `value`.
    pub closed spec fn admits_all(&self, value: Seq<char>, a: Seq<Option<Seq<char>>>) -> bool {
        &&& a.len() == self.rules@.len()
        &&& forall|i: int| 0 <= i < a.len() ==> #[trigger] self.rules@[i].admits(value, a[i])
    }

    pub fn new(field_name: &str) -> (r: Self)
        ensures
            r.name() == field_name@,
            r.num_rules() == 0,
    {
        FieldRules { field_name: owned(field_name), rules: Vec::new() }
    }

    /// Adds a rule; chainable.
    pub fn add(self, rule: Box<dyn ValidationRule>) -> (r: Self)
        ensures
            r.name() == self.name(),
            r.num_rules() == self.num_rules() + 1,
            forall|v: Seq<char>, b: Seq<Option<Seq<char>>>| #[trigger] r.admits_all(v, b)
                ==> self.admits_all(v, b.drop_last()),
    {
        let FieldRules { field_name, mut rules } = self;
        let ghost old_rules = rules@;
        push_boxed(&mut rules, rule);
        let r = FieldRules { field_name, rules };
        assert forall|v: Seq<char>, b: Seq<Option<Seq<char>>>| #[trigger] r.admits_all(v, b)
            implies b.drop_last().len() == old_rules.len()
                && forall|i: int| 0 <= i < old_rules.len() ==> #[trigger] old_rules[i].admits(v, b.drop_last()[i]) by {
            assert forall|i: int| 0 <= i < old_rules.len() implies #[trigger] old_rules[i].admits(v, b.drop_last()[i]) by {
                assert(r.rules@[i] == old_rules[i]);
                assert(r.rules@[i].admits(v, b[i]));
            }
        }
        r
    }

    /// Runs every rule on `value` and returns all errors, in rule order: one
    /// for each rule that answers with a message, under this field's name.
    pub fn validate(&self, value: &str) -> (r: Vec<ValidationError>)
        ensures
            exists|a: Seq<Option<Seq<char>>>| #[trigger] self.admits_all(value@, a)
                && r@.map_values(|e: ValidationError| e.message@) == somes(a),
            forall|i: int| 0 <= i < r.len() ==> (#[trigger] r@[i]).field@ == self.name(),
    {
        let mut outcomes: Vec<Option<String>> = Vec::new();
        let mut i: usize = 0;
        while i < self.rules.len()
            invariant
                0 <= i <= self.rules.len(),
                outcomes.len() == i,
                forall|q: int| 0 <= q < i ==> #[trigger] self.rules@[q].admits(value@, opt_text(outcomes@[q])),
            decreases self.rules.len() - i,
        {
            let o = self.rules[i].validate(value);
            outcomes.push(o);
            i = i + 1;
        }
        let ghost a = Seq::new(outcomes@.len(), |q: int| opt_text(outcomes@[q]));
        proof {
            lemma_errors_somes(outcomes@, a);
            assert(self.admits_all(value@, a));
        }
        collect_errors(self.field_name.as_str(), outcomes)
    }
}

/// `part` is what the rules of `rule` report for the value that `get_value`
/// gives for the rule's field name: one error per message, under that name.
pub open spec fn part_ok<F: Fn(&str) -> &str>(rule: FieldRules, get_value: F, part: Seq<ValidationError>) -> bool {
    &&& forall|k: int| 0 <= k < part.len() ==> (#[trigger] part[k]).field@ == rule.name()
    &&& exists|x: &str, v: &str| #![trigger get_value.ensures((x,), v)]
        x@ == rule.name() && get_value.ensures((x,), v)
            && exists|a: Seq<Option<Seq<char>>>| #[trigger] rule.admits_all(v@, a)
                && part.map_values(|e: ValidationError| e.message@) == somes(a)
}

pub proof fn lemma_errors_len(o: Seq<Option<String>>)
    ensures
        errors_of(o).len() <= o.len(),
    decreases o.len(),
{
    if o.len() > 0 {
        lemma_errors_len(o.drop_last());
    }
}

/// Validates several fields against one lookup of values.
pub struct FormValidator {
    fields: Vec<FieldRules>,
}

impl FormValidator {
    pub closed spec fn field_rules(&self) -> Seq<FieldRules> {
        self.fields@
    }

    /// The field names, in order.
    pub open spec fn names(&self) -> Seq<Seq<char>> {
        self.field_rules().map_values(|f: FieldRules| f.name())
    }

    pub fn new() -> (r: Self)
        ensures
            r.field_rules() == Seq::<FieldRules>::empty(),
    {
        FormValidator { fields: Vec::new() }
    }

    pub fn field(self, rules: FieldRules) -> (r: Self)
        ensures
            r.field_rules() == self.field_rules().push(rules),
    {
        let mut r = self;
        r.fields.push(rules);
        r
    }

    /// Validates every field, with the value that `get_value` gives for its
    /// name, and returns all errors, field by field: for each field in order,
    /// what its rules report for that value.
    pub fn validate<F: Fn(&str) -> &str>(&self, get_value: F) -> (r: Vec<ValidationError>)
        requires
            forall|s: &str| #[trigger] get_value.requires((s,)),
        ensures
            forall|i: int| 0 <= i < r.len() ==> self.names().contains((#[trigger] r@[i]).field@),
            exists|parts: Seq<Seq<ValidationError>>| {
                &&& parts.len() == self.field_rules().len()
                &&& forall|j: int| 0 <= j < parts.len() ==> part_ok(self.field_rules()[j], get_value, #[trigger] parts[j])
                &&& r@ == parts.flatten()
            },
    {
        let mut out: Vec<ValidationError> = Vec::new();
        let ghost mut parts: Seq<Seq<ValidationError>> = Seq::empty();
        let mut i: usize = 0;
        while i < self.fields.len()
            invariant
                0 <= i <= self.fields.len(),
                forall|s: &str| #[trigger] get_value.requires((s,)),
                forall|k: int| 0 <= k < out.len() ==> self.names().contains((#[trigger] out@[k]).field@),
                parts.len() == i,
                forall|j: int| 0 <= j < i ==> part_ok(self.field_rules()[j], get_value, #[trigger] parts[j]),
                out@ == parts.flatten(),
            decreases self.fields.len() - i,
        {
            let fr = &self.fields[i];
            let name = fr.field_name.as_str();
            let value = get_value(name);
            let mut errs = fr.validate(value);
            let ghost before = out@;
            let ghost part = errs@;
            let ghost parts0 = parts;
            out.append(&mut errs);
            proof {
                broadcast use Seq::lemma_flatten_push;
                parts = parts.push(part);
                assert(self.field_rules()[i as int] == *fr);
                assert(get_value.ensures((name,), value));
                assert(part_ok(*fr, get_value, part));
                assert forall|j: int| 0 <= j < i + 1 implies part_ok(self.field_rules()[j], get_value, #[trigger] parts[j]) by {
                    if j < i {
                        assert(parts[j] == parts0[j]);
                    }
                }
                assert(out@ =~= parts.flatten());
            }
            proof {
                assert(self.names()[i as int] == fr.name());
                assert forall|k: int| 0 <= k < out.len() implies self.names().contains((#[trigger] out@[k]).field@) by {
                    if k < before.len() {
                        assert(out@[k] == before[k]);
                    } else {
                        assert(out@[k].field@ == self.names()[i as int]);
                    }
                }
            }
            i = i + 1;
        }
        out
    }
}

/// The message of every email check.
pub open spec fn email_message() -> Seq<char> {
    "must be a valid email address"@
}

/// A non-empty value that lacks a non-empty local part, an `@`, or a non-empty
/// domain containing a dot.
pub open spec fn bad_email(v: Seq<char>) -> bool {
    let at = first_index(v, '@');
    &&& v.len() > 0
    &&& (at == v.len() || at == 0 || at == v.len() - 1 || !v.skip(at + 1).contains('.'))
}

/// Fails on values that are empty or all whitespace.
#[derive(Debug)]
pub struct Required;

impl Required {
    /// The rule's answer for `value`.
    pub open spec fn answer(&self, value: Seq<char>) -> Option<Seq<char>> {
        if all_ws(value) { Some("this field is required"@) } else { None }
    }
}

impl ValidationRule for Required {
    open spec fn admits(&self, value: Seq<char>, a: Option<Seq<char>>) -> bool {
        a == self.answer(value)
    }

    fn validate(&self, value: &str) -> (r: Option<String>)
        ensures
            all_ws(value@) ==> (r matches Some(m) && m@ == "this field is required"@),
            !all_ws(value@) ==> r is None,
    {
        if is_blank(value) {
            Some(owned("this field is required"))
        } else {
            None
        }
    }
}

pub fn required() -> (r: Box<Required>)
    ensures
        forall|v: Seq<char>| #[trigger] r.answer(v) == (if all_ws(v) { Some("this field is required"@) } else { None }),
{
    Box::new(Required)
}

/// Fails on values shorter than `min` bytes.
#[derive(Debug)]
pub struct MinLength {
    pub min: usize,
}

impl MinLength {
    /// The rule's answer for `value`.
    pub open spec fn answer(&self, value: Seq<char>) -> Option<Seq<char>> {
        if (byte_len(value) as usize) < self.min {
            Some("must be at least "@ + decimal(self.min as nat) + " characters"@)
        } else {
            None
        }
    }
}

impl ValidationRule for MinLength {
    open spec fn admits(&self, value: Seq<char>, a: Option<Seq<char>>) -> bool {
        a == self.answer(value)
    }

    fn validate(&self, value: &str) -> (r: Option<String>)
        ensures
            value.len() < self.min ==> (r matches Some(m) && m@ == "must be at least "@ + decimal(self.min as nat) + " characters"@),
            value.len() >= self.min ==> r is None,
    {
        if value.len() < self.min {
            let mut m = String::new();
            push_str(&mut m, "must be at least ");
            push_decimal(&mut m, self.min as u64);
            push_str(&mut m, " characters");
            Some(m)
        } else {
            None
        }
    }
}

pub fn min_length(min: usize) -> (r: Box<MinLength>)
    ensures
        r.min == min,
{
    Box::new(MinLength { min })
}

/// Fails on values longer than `max` bytes.
#[derive(Debug)]
pub struct MaxLength {
    pub max: usize,
}

impl MaxLength {
    /// The rule's answer for `value`.
    pub open spec fn answer(&self, value: Seq<char>) -> Option<Seq<char>> {
        if (byte_len(value) as usize) > self.max {
            Some("must be at most "@ + decimal(self.max as nat) + " characters"@)
        } else {
            None
        }
    }
}

impl ValidationRule for MaxLength {
    open spec fn admits(&self, value: Seq<char>, a: Option<Seq<char>>) -> bool {
        a == self.answer(value)
    }

    fn validate(&self, value: &str) -> (r: Option<String>)
        ensures
            value.len() > self.max ==> (r matches Some(m) && m@ == "must be at most "@ + decimal(self.max as nat) + " characters"@),
            value.len() <= self.max ==> r is None,
    {
        if value.len() > self.max {
            let mut m = String::new();
            push_str(&mut m, "must be at most ");
            push_decimal(&mut m, self.max as u64);
            push_str(&mut m, " characters");
            Some(m)
        } else {
            None
        }
    }
}

pub fn max_length(max: usize) -> (r: Box<MaxLength>)
    ensures
        r.max == max,
{
    Box::new(MaxLength { max })
}

/// A light email check; empty values pass (that is `Required`'s job).
#[derive(Debug)]
pub struct EmailFormat;

impl EmailFormat {
    /// The rule's answer for `value`.
    pub open spec fn answer(&self, value: Seq<char>) -> Option<Seq<char>> {
        if bad_email(value) { Some(email_message()) } else { None }
    }
}

impl ValidationRule for EmailFormat {
    open spec fn admits(&self, value: Seq<char>, a: Option<Seq<char>>) -> bool {
        a == self.answer(value)
    }

    fn validate(&self, value: &str) -> (r: Option<String>)
        ensures
            bad_email(value@) ==> (r matches Some(m) && m@ == email_message()),
            !bad_email(value@) ==> r is None,
    {
        let cs = chars_of(value);
        if cs.len() == 0 {
            return None;
        }
        let at = find_char(&cs, '@');
        if at == cs.len() {
            return Some(owned("must be a valid email address"));
        }
        if at == 0 || at + 1 == cs.len() {
            return Some(owned("must be a valid email address"));
        }
        let dot = find_in(&cs, at + 1, cs.len(), '.');
        proof {
            let dom = cs@.skip(at + 1);
            assert(dom =~= cs@.subrange(at + 1, cs.len() as int));
            if dot < cs.len() - (at + 1) {
                assert(dom[dot as int] == '.');
            } else {
                assert forall|j: int| 0 <= j < dom.len() implies #[trigger] dom[j] != '.' by {
                    assert(dom[j] == cs@[at + 1 + j]);
                }
            }
        }
        if dot == cs.len() - (at + 1) {
            return Some(owned("must be a valid email address"));
        }
        None
    }
}

pub fn email_format() -> (r: Box<EmailFormat>)
    ensures
        forall|v: Seq<char>| #[trigger] r.answer(v) == (if bad_email(v) { Some(email_message()) } else { None }),
{
    Box::new(EmailFormat)
}

/// Fails on non-empty values that do not match `pattern` (see `pattern`).
#[derive(Debug)]
pub struct RegexRule {
    pub pattern: String,
    pub message: String,
}

impl RegexRule {
    fn matches(&self, value: &str) -> (r: bool)
        ensures
            r == pattern_matches(self.pattern@, value@),
    {
        simple_regex_match(self.pattern.as_str(), value)
    }
}

impl RegexRule {
    /// The rule's answer for `value`.
    pub open spec fn answer(&self, value: Seq<char>) -> Option<Seq<char>> {
        if value.len() > 0 && !pattern_matches(self.pattern@, value) { Some(self.message@) } else { None }
    }
}

impl ValidationRule for RegexRule {
    open spec fn admits(&self, value: Seq<char>, a: Option<Seq<char>>) -> bool {
        a == self.answer(value)
    }

    fn validate(&self, value: &str) -> (r: Option<String>)
        ensures
            value@.len() > 0 && !pattern_matches(self.pattern@, value@) ==> r == Some(self.message),
            value@.len() == 0 || pattern_matches(self.pattern@, value@) ==> r is None,
    {
        if value.is_empty() {
            return None;
        }
        if !self.matches(value) {
            Some(self.message.clone())
        } else {
            None
        }
    }
}

pub fn regex_rule(pattern: &str, message: &str) -> (r: Box<RegexRule>)
    ensures
        r.pattern@ == pattern@,
        r.message@ == message@,
{
    Box::new(RegexRule { pattern: owned(pattern), message: owned(message) })
}

/// Fails when the value differs from another field's value.
#[derive(Debug)]
pub struct Matches {
    pub other_value: String,
    pub other_field_name: String,
}

impl Matches {
    /// The rule's answer for `value`.
    pub open spec fn answer(&self, value: Seq<char>) -> Option<Seq<char>> {
        if value != self.other_value@ { Some("must match "@ + self.other_field_name@) } else { None }
    }
}

impl ValidationRule for Matches {
    open spec fn admits(&self, value: Seq<char>, a: Option<Seq<char>>) -> bool {
        a == self.answer(value)
    }

    fn validate(&self, value: &str) -> (r: Option<String>)
        ensures
            value@ != self.other_value@ ==> (r matches Some(m) && m@ == "must match "@ + self.other_field_name@),
            value@ == self.other_value@ ==> r is None,
    {
        if !str_eq(value, self.other_value.as_str()) {
            let mut m = String::new();
            push_str(&mut m, "must match ");
            push_str(&mut m, self.other_field_name.as_str());
            Some(m)
        } else {
            None
        }
    }
}

/// A rule that `value` equals `other_value`; `other_field_name` only names it in the message.
pub fn matches_field(other_field_name: &str, other_value: &str) -> (r: Box<Matches>)
    ensures
        r.other_value@ == other_value@,
        r.other_field_name@ == other_field_name@,
        forall|v: Seq<char>| #[trigger] r.answer(v) == (if v != other_value@ {
            Some("must match "@ + other_field_name@)
        } else {
            None
        }),
{
    Box::new(Matches { other_value: owned(other_value), other_field_name: owned(other_field_name) })
}

} // verus!
