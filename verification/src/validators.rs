//! Composable validators for named form fields, with a per-form result that
//! groups error messages by field.
use vstd::prelude::*;
use crate::boxed::push_boxed;
use crate::validation::{opt_text, somes};
use crate::pattern::{pattern_matches, simple_regex_match};
use crate::text::{byte_len, 
    all_ws, chars_of, contains_run, decimal, ends_with, find_char, first_index, has_infix, has_prefix,
    has_suffix, is_blank, owned, push_decimal, push_str, starts_with, str_eq,
};

verus! {

/// A validation rule: `Some(message)` when the value is invalid.
pub trait Validator {
    /// Whether the validator may answer `a` for `value` (`None` when the value
    /// passes, else the message). Each validator of this library admits
    /// exactly one answer; one that does not say may answer anything.
    open spec fn admits(&self, value: Seq<char>, a: Option<Seq<char>>) -> bool {
        true
    }

    fn validate(&self, value: &str) -> (r: Option<String>)
        ensures
            self.admits(value@, opt_text(r));
}

impl Validator for Box<dyn Validator> {
    open spec fn admits(&self, value: Seq<char>, a: Option<Seq<char>>) -> bool {
        (**self).admits(value, a)
    }

    fn validate(&self, value: &str) -> (r: Option<String>) {
        (**self).validate(value)
    }
}

/// The failures among outcomes are the messages among their answers.
pub proof fn lemma_failures_somes(o: Seq<Option<String>>, a: Seq<Option<Seq<char>>>)
    requires
        o.len() == a.len(),
        forall|i: int| 0 <= i < o.len() ==> opt_text(#[trigger] o[i]) == a[i],
    ensures
        failures(o) == somes(a),
    decreases o.len(),
{
    if o.len() > 0 {
        assert(opt_text(o[o.len() - 1]) == a[a.len() - 1]);
        lemma_failures_somes(o.drop_last(), a.drop_last());
    }
}

/// The failure messages among rule outcomes, in order.
pub open spec fn failures(outcomes: Seq<Option<String>>) -> Seq<Seq<char>>
    decreases outcomes.len(),
{
    if outcomes.len() == 0 {
        Seq::empty()
    } else {
        match outcomes.last() {
            Some(m) => failures(outcomes.drop_last()).push(m@),
            None => failures(outcomes.drop_last()),
        }
    }
}

/// Keeps the messages of the failed outcomes, in order.
pub fn collect_failures(outcomes: Vec<Option<String>>) -> (r: Vec<String>)
    ensures
        r@.map_values(|m: String| m@) == failures(outcomes@),
{
    let ghost all = outcomes@;
    let mut out: Vec<String> = Vec::new();
    for o in it: outcomes.into_iter()
        invariant
            it.seq() == all,
            out@.map_values(|m: String| m@) == failures(all.take(it.index() as int)),
    {
        let ghost k = it.index();
        let ghost before = out@;
        proof {
            assert(all.take(k + 1).drop_last() =~= all.take(k as int));
            assert(all.take(k + 1).last() == o);
        }
        match o {
            Some(m) => {
                out.push(m);
                assert(out@.map_values(|m: String| m@) =~= before.map_values(|m: String| m@).push(m@));
            },
            None => {},
        }
    }
    assert(all.take(all.len() as int) =~= all);
    out
}

/// `msgs` are the failure messages of one answer from each of `n` validators.
pub open spec fn reported_by(rules: FieldRules, value: Seq<char>, msgs: Seq<Seq<char>>) -> bool {
    exists|a: Seq<Option<Seq<char>>>| #[trigger] rules.admits_all(value, a) && msgs == somes(a)
}

pub proof fn lemma_failures_len(o: Seq<Option<String>>)
    ensures
        failures(o).len() <= o.len(),
    decreases o.len(),
{
    if o.len() > 0 {
        lemma_failures_len(o.drop_last());
    }
}

/// The validators of one named field; every one runs and every error is kept.
pub struct FieldRules {
    field: String,
    validators: Vec<Box<dyn Validator>>,
}

impl FieldRules {
    pub closed spec fn name(&self) -> Seq<char> {
        self.field@
    }

    pub closed spec fn num_validators(&self) -> nat {
        self.validators@.len()
    }

    /// `a` holds, in the order the validators were added, an answer that each
    /// may give for `value`.
    pub closed spec fn admits_all(&self, value: Seq<char>, a: Seq<Option<Seq<char>>>) -> bool {
        &&& a.len() == self.validators@.len()
        &&& forall|i: int| 0 <= i < a.len() ==> #[trigger] self.validators@[i].admits(value, a[i])
    }

    pub fn new(field: &str) -> (r: Self)
        ensures
            r.name() == field@,
            r.num_validators() == 0,
    {
        FieldRules { field: owned(field), validators: Vec::new() }
    }

    /// Adds a validator and returns the rules.
    pub fn add<V: Validator + 'static>(self, v: V) -> (r: Self)
        ensures
            r.name() == self.name(),
            r.num_validators() == self.num_validators() + 1,
            forall|x: Seq<char>, b: Seq<Option<Seq<char>>>| #[trigger] r.admits_all(x, b)
                ==> self.admits_all(x, b.drop_last()),
    {
        let FieldRules { field, mut validators } = self;
        let ghost old_v = validators@;
        let b: Box<dyn Validator> = Box::new(v);
        push_boxed(&mut validators, b);
        let r = FieldRules { field, validators };
        assert forall|x: Seq<char>, b: Seq<Option<Seq<char>>>| #[trigger] r.admits_all(x, b)
            implies b.drop_last().len() == old_v.len()
                && forall|i: int| 0 <= i < old_v.len() ==> #[trigger] old_v[i].admits(x, b.drop_last()[i]) by {
            assert forall|i: int| 0 <= i < old_v.len() implies #[trigger] old_v[i].admits(x, b.drop_last()[i]) by {
                assert(r.validators@[i] == old_v[i]);
                assert(r.validators@[i].admits(x, b[i]));
            }
        }
        r
    }

    /// Runs every validator and collects all error messages, in order: the
    /// message of each validator that answers with one.
    pub fn validate(&self, value: &str) -> (r: Vec<String>)
        ensures
            r.len() <= self.num_validators(),
            reported_by(*self, value@, r@.map_values(|m: String| m@)),
    {
        let mut outcomes: Vec<Option<String>> = Vec::new();
        let mut i: usize = 0;
        while i < self.validators.len()
            invariant
                0 <= i <= self.validators.len(),
                outcomes.len() == i,
                forall|q: int| 0 <= q < i ==> #[trigger] self.validators@[q].admits(value@, opt_text(outcomes@[q])),
            decreases self.validators.len() - i,
        {
            let o = self.validators[i].validate(value);
            outcomes.push(o);
            i = i + 1;
        }
        proof { lemma_failures_len(outcomes@); }
        let ghost a = Seq::new(outcomes@.len(), |q: int| opt_text(outcomes@[q]));
        proof {
            lemma_failures_somes(outcomes@, a);
            assert(self.admits_all(value@, a));
        }
        let r = collect_failures(outcomes);
        assert(r@.map_values(|m: String| m@).len() == r.len());
        r
    }

    pub fn field_name(&self) -> (r: &str)
        ensures
            r@ == self.name(),
    {
        self.field.as_str()
    }
}

/// The names of a list of per-field entries.
pub open spec fn entry_names(es: Seq<(String, Vec<String>)>) -> Seq<Seq<char>> {
    es.map_values(|e: (String, Vec<String>)| e.0@)
}

pub open spec fn distinct_names(es: Seq<(String, Vec<String>)>) -> bool {
    forall|i: int, j: int| 0 <= i < es.len() && 0 <= j < es.len() && i != j ==> #[trigger] es[i].0@ != #[trigger] es[j].0@
}

/// `field: message` and a newline for each message.
pub open spec fn field_lines(field: Seq<char>, msgs: Seq<Seq<char>>) -> Seq<char>
    decreases msgs.len(),
{
    if msgs.len() == 0 {
        Seq::empty()
    } else {
        field_lines(field, msgs.drop_last()) + field + ": "@ + msgs.last() + "\n"@
    }
}

/// The lines of every entry, in order.
pub open spec fn lines_of(es: Seq<(Seq<char>, Seq<Seq<char>>)>) -> Seq<char>
    decreases es.len(),
{
    if es.len() == 0 {
        Seq::empty()
    } else {
        lines_of(es.drop_last()) + field_lines(es.last().0, es.last().1)
    }
}

/// The errors of a whole form, grouped by field; a field without errors has no entry.
#[derive(Debug)]
pub struct ValidationResult {
    errors: Vec<(String, Vec<String>)>,
}

impl Default for ValidationResult {
    fn default() -> (r: Self)
        ensures
            r.entries().len() == 0,
    {
        ValidationResult::new()
    }
}

impl ValidationResult {
    #[verifier::type_invariant]
    spec fn one_entry_per_field(&self) -> bool {
        distinct_names(self.errors@)
    }

    /// The fields with errors and their messages, in the order they were recorded.
    pub closed spec fn entries(&self) -> Seq<(Seq<char>, Seq<Seq<char>>)> {
        self.errors@.map_values(|e: (String, Vec<String>)| (e.0@, e.1@.map_values(|m: String| m@)))
    }

    /// The messages recorded for `field` (none when it has no entry).
    pub closed spec fn messages_for(&self, field: Seq<char>) -> Seq<Seq<char>> {
        if exists|i: int| 0 <= i < self.errors@.len() && #[trigger] self.errors@[i].0@ == field {
            let i = choose|i: int| 0 <= i < self.errors@.len() && #[trigger] self.errors@[i].0@ == field;
            self.errors@[i].1@.map_values(|m: String| m@)
        } else {
            Seq::empty()
        }
    }

    pub fn new() -> (r: Self)
        ensures
            r.entries().len() == 0,
    {
        let r = ValidationResult { errors: Vec::new() };
        r
    }

    /// True when no field has errors.
    pub fn is_valid(&self) -> (b: bool)
        ensures
            b == (self.entries().len() == 0),
    {
        self.errors.len() == 0
    }

    /// The messages for `field`; empty when it has none.
    pub fn errors_for(&self, field: &str) -> (r: &[String])
        ensures
            r@.map_values(|m: String| m@) == self.messages_for(field@),
    {
        proof { use_type_invariant(self); }
        let mut i: usize = 0;
        while i < self.errors.len()
            invariant
                0 <= i <= self.errors.len(),
                distinct_names(self.errors@),
                forall|j: int| 0 <= j < i ==> (#[trigger] self.errors@[j]).0@ != field@,
            decreases self.errors.len() - i,
        {
            if str_eq(self.errors[i].0.as_str(), field) {
                proof {
                    let k = choose|k: int| 0 <= k < self.errors@.len() && #[trigger] self.errors@[k].0@ == field@;
                    assert(k == i) by {
                        if k != i {
                            assert(self.errors@[k].0@ != self.errors@[i as int].0@);
                        }
                    }
                }
                return self.errors[i].1.as_slice();
            }
            i = i + 1;
        }
        let empty: &[String] = &[];
        assert(empty@.map_values(|m: String| m@) =~= Seq::<Seq<char>>::empty());
        empty
    }

    /// One `field: message` line per message, field by field.
    pub fn to_string(&self) -> (s: String)
        ensures
            s@ == lines_of(self.entries()),
    {
        let mut s = String::new();
        let ghost es = self.entries();
        let mut i: usize = 0;
        while i < self.errors.len()
            invariant
                0 <= i <= self.errors.len(),
                es == self.entries(),
                s@ == lines_of(es.take(i as int)),
            decreases self.errors.len() - i,
        {
            let name = self.errors[i].0.as_str();
            let msgs = &self.errors[i].1;
            let ghost before = s@;
            let mut j: usize = 0;
            while j < msgs.len()
                invariant
                    0 <= j <= msgs.len(),
                    es == self.entries(),
                    i < es.len(),
                    es[i as int].0 == name@,
                    es[i as int].1 == msgs@.map_values(|m: String| m@),
                    s@ == before + field_lines(name@, es[i as int].1.take(j as int)),
                decreases msgs.len() - j,
            {
                push_str(&mut s, name);
                push_str(&mut s, ": ");
                push_str(&mut s, msgs[j].as_str());
                push_str(&mut s, "\n");
                proof {
                    let ms = es[i as int].1;
                    assert(ms.take(j + 1).drop_last() =~= ms.take(j as int));
                    assert(ms[j as int] == msgs@[j as int]@);
                    assert(s@ =~= before + field_lines(name@, ms.take(j + 1)));
                }
                j = j + 1;
            }
            proof {
                let ms = es[i as int].1;
                assert(ms.take(msgs.len() as int) =~= ms);
                assert(es.take(i + 1).drop_last() =~= es.take(i as int));
                assert(s@ =~= lines_of(es.take(i + 1)));
            }
            i = i + 1;
        }
        assert(es.take(es.len() as int) =~= es);
        s
    }

    /// Every field with errors and its messages.
    pub fn all_errors(&self) -> (r: &[(String, Vec<String>)])
        ensures
            r@.map_values(|e: (String, Vec<String>)| (e.0@, e.1@.map_values(|m: String| m@))) == self.entries(),
    {
        self.errors.as_slice()
    }

    /// Records `messages` for `field`, replacing any earlier entry for it.
    pub fn insert(&mut self, field: &str, messages: Vec<String>)
        ensures
            final(self).messages_for(field@) == messages@.map_values(|m: String| m@),
            forall|f: Seq<char>| f != field@ ==> #[trigger] final(self).messages_for(f) == old(self).messages_for(f),
            final(self).entries().len() >= 1,
    {
        proof { use_type_invariant(&*self); }
        let mut es: Vec<(String, Vec<String>)> = Vec::new();
        std::mem::swap(&mut es, &mut self.errors);
        let ghost e0 = es@;
        let mut i: usize = 0;
        let mut found = false;
        while i < es.len() && !found
            invariant
                0 <= i <= es.len(),
                es@ == e0,
                found ==> i < es.len() && es@[i as int].0@ == field@,
                forall|j: int| 0 <= j < i ==> (#[trigger] es@[j]).0@ != field@,
            decreases es.len() - i, (if found { 0int } else { 1int }),
        {
            if str_eq(es[i].0.as_str(), field) {
                found = true;
            } else {
                i = i + 1;
            }
        }
        if found {
            assert(es@[i as int].0@ == field@);
            let name = es[i].0.clone();
            es.set(i, (name, messages));
        } else {
            es.push((owned(field), messages));
        }
        assert(distinct_names(es@)) by {
            assert forall|a: int, b: int| 0 <= a < es@.len() && 0 <= b < es@.len() && a != b implies #[trigger] es@[a].0@ != #[trigger] es@[b].0@ by {
                if a < e0.len() && b < e0.len() {
                    if a != i && b != i || !found {
                        assert(es@[a] == e0[a] && es@[b] == e0[b]);
                    } else if a == i {
                        assert(es@[b] == e0[b]);
                        assert(es@[a].0@ == e0[a].0@);
                    } else {
                        assert(es@[a] == e0[a]);
                        assert(es@[b].0@ == e0[b].0@);
                    }
                } else if a < e0.len() {
                    assert(es@[a] == e0[a]);
                } else {
                    assert(es@[b] == e0[b]);
                }
            }
        }
        proof {
            let k = if found { i as int } else { e0.len() as int };
            assert(es@[k].0@ == field@);
        }
        self.errors = es;
        proof {
            let k = if found { i as int } else { e0.len() as int };
            assert(old(self).errors@ == e0);
            assert forall|f: Seq<char>| f != field@ implies #[trigger] self.messages_for(f) == old(self).messages_for(f) by {
                if exists|j: int| 0 <= j < self.errors@.len() && #[trigger] self.errors@[j].0@ == f {
                    let a = choose|j: int| 0 <= j < self.errors@.len() && #[trigger] self.errors@[j].0@ == f;
                    assert(a != k);
                    assert(self.errors@[a] == e0[a]);
                    assert(exists|j: int| 0 <= j < old(self).errors@.len() && #[trigger] old(self).errors@[j].0@ == f);
                    let b = choose|j: int| 0 <= j < old(self).errors@.len() && #[trigger] old(self).errors@[j].0@ == f;
                    assert(a == b) by {
                        if a != b {
                            assert(old(self).errors@[a].0@ != old(self).errors@[b].0@);
                        }
                    }
                } else {
                    if exists|j: int| 0 <= j < old(self).errors@.len() && #[trigger] old(self).errors@[j].0@ == f {
                        let b = choose|j: int| 0 <= j < old(self).errors@.len() && #[trigger] old(self).errors@[j].0@ == f;
                        assert(b != k);
                        assert(self.errors@[b] == e0[b]);
                    }
                }
            }
            let a = choose|j: int| 0 <= j < self.errors@.len() && #[trigger] self.errors@[j].0@ == field@;
            assert(a == k) by {
                if a != k {
                    assert(self.errors@[a].0@ != self.errors@[k].0@);
                }
            }
        }
    }
}


/// The value the pairs give `key`: that of the last pair with that key, or empty.
pub open spec fn value_for(values: Seq<(&str, &str)>, key: Seq<char>) -> Seq<char>
    decreases values.len(),
{
    if values.len() == 0 {
        Seq::empty()
    } else if values.last().0@ == key {
        values.last().1@
    } else {
        value_for(values.drop_last(), key)
    }
}

fn lookup<'a>(values: &[(&'a str, &'a str)], key: &str) -> (r: &'a str)
    ensures
        r@ == value_for(values@, key@),
{
    let mut i: usize = values.len();
    assert(values@.take(values.len() as int) =~= values@);
    while i > 0
        invariant
            0 <= i <= values.len(),
            value_for(values@, key@) == value_for(values@.take(i as int), key@),
        decreases i,
    {
        assert(values@.take(i as int).drop_last() =~= values@.take(i - 1));
        if str_eq(values[i - 1].0, key) {
            return values[i - 1].1;
        }
        i = i - 1;
    }
    proof {
        reveal_strlit("");
        assert(values@.take(0) =~= Seq::<(&str, &str)>::empty());
    }
    ""
}

/// The messages a form reports for `f`, given what each of its fields
/// reported (`reports` is aligned with `names`): those of the last field named
/// `f` that reported any, else none.
pub open spec fn form_messages(names: Seq<Seq<char>>, reports: Seq<Seq<Seq<char>>>, f: Seq<char>) -> Seq<Seq<char>>
    decreases names.len(),
{
    if names.len() == 0 || reports.len() == 0 {
        Seq::empty()
    } else if names.last() == f && reports.last().len() > 0 {
        reports.last()
    } else {
        form_messages(names.drop_last(), reports.drop_last(), f)
    }
}

/// `reports` holds, for each field's rules in order, the messages they
/// reported for the value submitted for the field's name (empty when missing).
pub open spec fn reports_fit(rules: Seq<FieldRules>, values: Seq<(&str, &str)>, reports: Seq<Seq<Seq<char>>>) -> bool {
    &&& reports.len() == rules.len()
    &&& forall|j: int| 0 <= j < rules.len() ==> reported_by(rules[j], value_for(values, rules[j].name()), #[trigger] reports[j])
}

/// Validates named fields against submitted values; a missing field counts as empty.
pub struct FormValidator {
    field_rules: Vec<FieldRules>,
}

impl FormValidator {
    pub closed spec fn rules(&self) -> Seq<FieldRules> {
        self.field_rules@
    }

    /// The field names, in order.
    pub open spec fn names(&self) -> Seq<Seq<char>> {
        self.rules().map_values(|f: FieldRules| f.name())
    }

    pub fn new() -> (r: Self)
        ensures
            r.rules() == Seq::<FieldRules>::empty(),
    {
        FormValidator { field_rules: Vec::new() }
    }

    pub fn field(self, rules: FieldRules) -> (r: Self)
        ensures
            r.rules() == self.rules().push(rules),
    {
        let mut r = self;
        r.field_rules.push(rules);
        r
    }

    /// Validates every field with the value submitted for its name (empty when
    /// missing); fields without errors get no entry.
    ///
    /// What each validator answers is its own affair (the trait is for users
    /// to implement); what is promised is that each field's messages are those
    /// its own validators reported, the last field of a name that reported any
    /// winning.
    pub fn validate(&self, values: &[(&str, &str)]) -> (r: ValidationResult)
        ensures
            forall|f: Seq<char>| !self.names().contains(f) ==> #[trigger] r.messages_for(f).len() == 0,
            self.rules().len() == 0 ==> r.entries().len() == 0,
            exists|reports: Seq<Seq<Seq<char>>>| #[trigger] reports_fit(self.rules(), values@, reports)
                && forall|f: Seq<char>| #[trigger] r.messages_for(f) == form_messages(self.names(), reports, f),
    {
        let mut result = ValidationResult::new();
        let ghost mut reports: Seq<Seq<Seq<char>>> = Seq::empty();
        let mut i: usize = 0;
        while i < self.field_rules.len()
            invariant
                0 <= i <= self.field_rules.len(),
                forall|f: Seq<char>| !self.names().take(i as int).contains(f) ==> #[trigger] result.messages_for(f).len() == 0,
                i == 0 ==> result.entries().len() == 0,
                reports_fit(self.rules().take(i as int), values@, reports),
                forall|f: Seq<char>| #[trigger] result.messages_for(f) == form_messages(self.names().take(i as int), reports, f),
            decreases self.field_rules.len() - i,
        {
            let rules = &self.field_rules[i];
            let value = lookup(values, rules.field_name());
            let errs = rules.validate(value);
            let ghost rep = errs@.map_values(|m: String| m@);
            let ghost reports0 = reports;
            proof {
                reports = reports.push(rep);
                assert(rep.len() == errs.len());
                assert(reports.drop_last() =~= reports0);
                assert(self.names().take(i + 1).drop_last() =~= self.names().take(i as int));
                assert(self.names().take(i + 1).last() == rules.name());
                assert(self.rules()[i as int] == *rules);
                assert(reports_fit(self.rules().take(i + 1), values@, reports)) by {
                    assert forall|j: int| 0 <= j < i + 1 implies reported_by(self.rules().take(i + 1)[j], value_for(values@, self.rules().take(i + 1)[j].name()), #[trigger] reports[j]) by {
                        if j < i {
                            assert(reports[j] == reports0[j]);
                            assert(self.rules().take(i + 1)[j] == self.rules().take(i as int)[j]);
                        }
                    }
                }
            }
            proof {
                assert(self.names()[i as int] == rules.name());
                assert forall|f: Seq<char>| !self.names().take(i + 1).contains(f) implies !self.names().take(i as int).contains(f) && f != rules.name() by {
                    if self.names().take(i as int).contains(f) {
                        let t = choose|t: int| 0 <= t < i && #[trigger] self.names().take(i as int)[t] == f;
                        assert(self.names().take(i + 1)[t] == f);
                    }
                    if f == rules.name() {
                        assert(self.names().take(i + 1)[i as int] == f);
                    }
                }
            }
            let ghost before = result;
            if errs.len() > 0 {
                result.insert(rules.field_name(), errs);
            }
            assert forall|f: Seq<char>| #[trigger] result.messages_for(f) == form_messages(self.names().take(i + 1), reports, f) by {
                if f != rules.name() || rep.len() == 0 {
                    assert(before.messages_for(f) == form_messages(self.names().take(i as int), reports0, f));
                }
            }
            assert forall|f: Seq<char>| !self.names().take(i + 1).contains(f) implies #[trigger] result.messages_for(f).len() == 0 by {
                if f == rules.name() {
                    assert(self.names().take(i + 1)[i as int] == f);
                }
                if self.names().take(i as int).contains(f) {
                    let t = choose|t: int| 0 <= t < i && #[trigger] self.names().take(i as int)[t] == f;
                    assert(self.names().take(i + 1)[t] == f);
                }
                assert(before.messages_for(f).len() == 0);
            }
            i = i + 1;
        }
        assert(self.names().take(self.field_rules.len() as int) =~= self.names());
        assert(self.rules().take(self.field_rules.len() as int) =~= self.rules());
        assert(reports_fit(self.rules(), values@, reports));
        result
    }
}

/// Fails when the value differs from another field's value.
pub struct MatchesField {
    other_field: String,
    other_value: String,
}

impl MatchesField {
    pub closed spec fn spec_other_field(&self) -> Seq<char> {
        self.other_field@
    }

    pub closed spec fn spec_other_value(&self) -> Seq<char> {
        self.other_value@
    }

    pub fn new(other_field: &str, other_value: &str) -> (r: Self)
        ensures
            r.spec_other_field() == other_field@,
            r.spec_other_value() == other_value@,
    {
        MatchesField { other_field: owned(other_field), other_value: owned(other_value) }
    }
}

impl Validator for MatchesField {
    open spec fn admits(&self, value: Seq<char>, a: Option<Seq<char>>) -> bool {
        a == (if value != self.spec_other_value() { Some("must match "@ + self.spec_other_field()) } else { None })
    }

    fn validate(&self, value: &str) -> (r: Option<String>)
        ensures
            value@ != self.spec_other_value() ==> (r matches Some(m) && m@ == "must match "@ + self.spec_other_field()),
            value@ == self.spec_other_value() ==> r is None,
    {
        if !str_eq(value, self.other_value.as_str()) {
            let mut m = String::new();
            push_str(&mut m, "must match ");
            push_str(&mut m, self.other_field.as_str());
            Some(m)
        } else {
            None
        }
    }
}

pub fn matches_field(other_field: &str, other_value: &str) -> (r: MatchesField)
    ensures
        r.spec_other_field() == other_field@,
        r.spec_other_value() == other_value@,
{
    MatchesField::new(other_field, other_value)
}

/// Fails on values that are empty or all whitespace.
pub struct Required;

impl Validator for Required {
    open spec fn admits(&self, value: Seq<char>, a: Option<Seq<char>>) -> bool {
        a == (if all_ws(value) { Some("is required"@) } else { None })
    }

    fn validate(&self, value: &str) -> (r: Option<String>)
        ensures
            all_ws(value@) ==> (r matches Some(m) && m@ == "is required"@),
            !all_ws(value@) ==> r is None,
    {
        if is_blank(value) {
            Some(owned("is required"))
        } else {
            None
        }
    }
}

pub fn required() -> Required {
    Required
}

/// Fails on values shorter than the given number of bytes.
pub struct MinLength(pub usize);

impl Validator for MinLength {
    open spec fn admits(&self, value: Seq<char>, a: Option<Seq<char>>) -> bool {
        a == (if (byte_len(value) as usize) < self.0 { Some("must be at least "@ + decimal(self.0 as nat) + " characters"@) } else { None })
    }

    fn validate(&self, value: &str) -> (r: Option<String>)
        ensures
            value.len() < self.0 ==> (r matches Some(m) && m@ == "must be at least "@ + decimal(self.0 as nat) + " characters"@),
            value.len() >= self.0 ==> r is None,
    {
        if value.len() < self.0 {
            let mut m = String::new();
            push_str(&mut m, "must be at least ");
            push_decimal(&mut m, self.0 as u64);
            push_str(&mut m, " characters");
            Some(m)
        } else {
            None
        }
    }
}

pub fn min_length(n: usize) -> (r: MinLength)
    ensures
        r.0 == n,
{
    MinLength(n)
}

/// Fails on values longer than the given number of bytes.
pub struct MaxLength(pub usize);

impl Validator for MaxLength {
    open spec fn admits(&self, value: Seq<char>, a: Option<Seq<char>>) -> bool {
        a == (if (byte_len(value) as usize) > self.0 { Some("must be at most "@ + decimal(self.0 as nat) + " characters"@) } else { None })
    }

    fn validate(&self, value: &str) -> (r: Option<String>)
        ensures
            value.len() > self.0 ==> (r matches Some(m) && m@ == "must be at most "@ + decimal(self.0 as nat) + " characters"@),
            value.len() <= self.0 ==> r is None,
    {
        if value.len() > self.0 {
            let mut m = String::new();
            push_str(&mut m, "must be at most ");
            push_decimal(&mut m, self.0 as u64);
            push_str(&mut m, " characters");
            Some(m)
        } else {
            None
        }
    }
}

pub fn max_length(n: usize) -> (r: MaxLength)
    ensures
        r.0 == n,
{
    MaxLength(n)
}

/// Whether `value` matches `pattern`, a small regular expression: literals,
/// `.`, `\d` `\w` `\s`, `[...]` classes, the quantifiers `*` `+` `{n}`
/// `{n,m}` `{n,}`, and the anchors `^` `$` (see `pattern_matches`).
pub fn naive_regex_match(pattern: &str, value: &str) -> (r: bool)
    ensures
        r == pattern_matches(pattern@, value@),
{
    simple_regex_match(pattern, value)
}

/// Fails with its message when the value does not match the pattern.
pub struct RegexMatch {
    pattern: String,
    message: String,
}

impl RegexMatch {
    pub closed spec fn spec_pattern(&self) -> Seq<char> {
        self.pattern@
    }

    pub closed spec fn spec_message(&self) -> Seq<char> {
        self.message@
    }

    pub fn new(pattern: &str, message: &str) -> (r: Self)
        ensures
            r.spec_pattern() == pattern@,
            r.spec_message() == message@,
    {
        RegexMatch { pattern: owned(pattern), message: owned(message) }
    }
}

impl Validator for RegexMatch {
    open spec fn admits(&self, value: Seq<char>, a: Option<Seq<char>>) -> bool {
        a == (if !pattern_matches(self.spec_pattern(), value) { Some(self.spec_message()) } else { None })
    }

    fn validate(&self, value: &str) -> (r: Option<String>)
        ensures
            !pattern_matches(self.spec_pattern(), value@) ==> (r matches Some(m) && m@ == self.spec_message()),
            pattern_matches(self.spec_pattern(), value@) ==> r is None,
    {
        if !naive_regex_match(self.pattern.as_str(), value) {
            Some(self.message.clone())
        } else {
            None
        }
    }
}

pub fn regex_match(pattern: &str, message: &str) -> (r: RegexMatch)
    ensures
        r.spec_pattern() == pattern@,
        r.spec_message() == message@,
{
    RegexMatch::new(pattern, message)
}

/// The part of `d` after its last `c` (all of `d` when there is none).
pub open spec fn after_last(d: Seq<char>, c: char) -> Seq<char>
    decreases d.len(),
{
    if d.len() == 0 {
        d
    } else if d.last() == c {
        Seq::empty()
    } else {
        after_last(d.drop_last(), c).push(d.last())
    }
}

/// `d` holds two dots in a row.
pub open spec fn has_double_dot(d: Seq<char>) -> bool {
    exists|i: int| 0 <= i < d.len() - 1 && #[trigger] d[i] == '.' && d[i + 1] == '.'
}

/// `t` takes fewer than two bytes in UTF-8.
pub open spec fn under_two_bytes(t: Seq<char>) -> bool {
    t.len() == 0 || (t.len() == 1 && (t[0] as u32) < 0x80)
}

/// The domain part of an address is unusable: no dot, two dots in a row, or a
/// top-level label shorter than two bytes.
pub open spec fn bad_domain(d: Seq<char>) -> bool {
    !d.contains('.') || has_double_dot(d) || under_two_bytes(after_last(d, '.'))
}

/// A non-empty value that is not `local@domain` with both parts non-empty and
/// a usable domain.
pub open spec fn invalid_email(v: Seq<char>) -> bool {
    let at = first_index(v, '@');
    &&& v.len() > 0
    &&& (at == v.len() || at == 0 || at == v.len() - 1 || bad_domain(v.skip(at + 1)))
}

fn domain_is_bad(d: &[char]) -> (r: bool)
    ensures
        r == bad_domain(d@),
{
    let dot = find_char(d, '.');
    if dot == d.len() {
        assert(!d@.contains('.'));
        return true;
    }
    assert(d@[dot as int] == '.');
    let mut i: usize = 0;
    while d.len() > 1 && i < d.len() - 1
        invariant
            0 <= i <= d.len(),
            forall|j: int| 0 <= j < i ==> !(#[trigger] d@[j] == '.' && d@[j + 1] == '.'),
        decreases d.len() - i,
    {
        if d[i] == '.' && d[i + 1] == '.' {
            return true;
        }
        i = i + 1;
    }
    assert(!has_double_dot(d@)) by {
        if has_double_dot(d@) {
            let j = choose|j: int| 0 <= j < d@.len() - 1 && #[trigger] d@[j] == '.' && d@[j + 1] == '.';
            assert(j < i);
        }
    }
    let mut k: usize = d.len();
    assert(d@.take(d.len() as int) =~= d@);
    assert(d@.skip(d.len() as int) =~= Seq::<char>::empty());
    while k > 0 && d[k - 1] != '.'
        invariant
            0 <= k <= d.len(),
            after_last(d@, '.') == after_last(d@.take(k as int), '.') + d@.skip(k as int),
        decreases k,
    {
        assert(d@.take(k as int).drop_last() =~= d@.take(k - 1));
        assert(d@.skip(k - 1) =~= seq![d@[k - 1]] + d@.skip(k as int));
        assert(after_last(d@.take(k as int), '.') == after_last(d@.take(k - 1), '.').push(d@[k - 1]));
        assert(after_last(d@.take(k - 1), '.').push(d@[k - 1]) + d@.skip(k as int) =~= after_last(d@.take(k - 1), '.') + d@.skip(k - 1));
        k = k - 1;
    }
    proof {
        assert(d@.take(d.len() as int) =~= d@);
        if k == 0 {
            assert(after_last(d@.take(0), '.') =~= Seq::<char>::empty());
        } else {
            assert(after_last(d@.take(k as int), '.') =~= Seq::<char>::empty());
        }
        assert(after_last(d@, '.') =~= d@.skip(k as int));
    }
    let tl = d.len() - k;
    tl == 0 || (tl == 1 && (d[k] as u32) < 0x80)
}

/// Checks `local@domain` with a dotted domain, no `..`, and a top-level label
/// of at least two bytes; empty values pass.
pub struct EmailFormat;

impl Validator for EmailFormat {
    open spec fn admits(&self, value: Seq<char>, a: Option<Seq<char>>) -> bool {
        a == (if invalid_email(value) { Some("must be a valid email address"@) } else { None })
    }

    fn validate(&self, value: &str) -> (r: Option<String>)
        ensures
            invalid_email(value@) ==> (r matches Some(m) && m@ == "must be a valid email address"@),
            !invalid_email(value@) ==> r is None,
    {
        let cs = chars_of(value);
        if cs.len() == 0 {
            return None;
        }
        let at = find_char(&cs, '@');
        if at == cs.len() || at == 0 || at + 1 == cs.len() {
            return Some(owned("must be a valid email address"));
        }
        let mut d: Vec<char> = Vec::new();
        let mut i: usize = at + 1;
        while i < cs.len()
            invariant
                at + 1 <= i <= cs.len(),
                d@ == cs@.subrange(at + 1, i as int),
            decreases cs.len() - i,
        {
            d.push(cs[i]);
            assert(cs@.subrange(at + 1, i + 1) == cs@.subrange(at + 1, i as int).push(cs@[i as int]));
            i = i + 1;
        }
        assert(d@ =~= cs@.skip(at + 1));
        if domain_is_bad(&d) {
            return Some(owned("must be a valid email address"));
        }
        None
    }
}

pub fn email_format() -> EmailFormat {
    EmailFormat
}

/// Wraps a closure as a validator.
pub struct Custom<F: Fn(&str) -> Option<String>> {
    f: F,
}

impl<F: Fn(&str) -> Option<String>> Custom<F> {
    #[verifier::type_invariant]
    spec fn callable(&self) -> bool {
        forall|s: &str| #[trigger] self.f.requires((s,))
    }

    pub closed spec fn func(&self) -> F {
        self.f
    }
}

impl<F: Fn(&str) -> Option<String>> Validator for Custom<F> {
    open spec fn admits(&self, value: Seq<char>, a: Option<Seq<char>>) -> bool {
        exists|x: &str, r: Option<String>| #![trigger self.func().ensures((x,), r)]
            x@ == value && self.func().ensures((x,), r) && opt_text(r) == a
    }

    fn validate(&self, value: &str) -> (r: Option<String>)
        ensures
            self.func().ensures((value,), r),
    {
        proof { use_type_invariant(self); }
        let r = (self.f)(value);
        assert(self.func().ensures((value,), r));
        r
    }
}

/// A validator that runs `f`.
pub fn custom<F: Fn(&str) -> Option<String>>(f: F) -> (r: Custom<F>)
    requires
        forall|s: &str| #[trigger] f.requires((s,)),
    ensures
        r.func() == f,
{
    Custom { f }
}

} // verus!
