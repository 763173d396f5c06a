//! A small pattern matcher for form validation: literals, `.`, `\d` `\w` `\s`,
//! `[...]` classes with ranges, the quantifiers `+` `*` `{n}` `{n,m}` `{n,}`
//! (at least `n`), and the
//! anchors `^` `$`. Quantified items are matched greedily with backtracking,
//! and the first end position found is the one used.
use vstd::prelude::*;
use crate::text::{chars_of, find_in, first_index};

verus! {

pub open spec fn is_digit(c: char) -> bool {
    '0' <= c && c <= '9'
}

pub open spec fn digit_value(c: char) -> nat {
    (c as int - '0' as int) as nat
}

/// The number that a string of decimal digits denotes.
pub open spec fn digits_value(s: Seq<char>) -> nat
    decreases s.len(),
{
    if s.len() == 0 {
        0
    } else {
        digits_value(s.drop_last()) * 10 + digit_value(s.last())
    }
}

pub open spec fn all_digits(s: Seq<char>) -> bool {
    forall|i: int| 0 <= i < s.len() ==> is_digit(#[trigger] s[i])
}

/// What `str::parse::<usize>` accepts: an optional `+`, then one or more
/// decimal digits whose value fits in a `usize`.
pub open spec fn parse_usize(s: Seq<char>) -> Option<usize> {
    let d = if s.len() > 0 && s[0] == '+' { s.skip(1) } else { s };
    if d.len() > 0 && all_digits(d) && digits_value(d) <= usize::MAX {
        Some(digits_value(d) as usize)
    } else {
        None
    }
}

pub proof fn lemma_digits_grow(s: Seq<char>, i: int, j: int)
    requires
        0 <= i <= j <= s.len(),
    ensures
        digits_value(s.take(i)) <= digits_value(s.take(j)),
    decreases j - i,
{
    if i < j {
        lemma_digits_grow(s, i, j - 1);
        assert(s.take(j).drop_last() =~= s.take(j - 1));
    }
}

proof fn lemma_overflow(d: Seq<char>, k: int, val: usize, dv: usize)
    requires
        0 <= k < d.len(),
        val as nat == digits_value(d.take(k)),
        dv == digit_value(d[k]),
        dv <= 9,
        val > (usize::MAX - dv) / 10,
    ensures
        digits_value(d) > usize::MAX,
{
    assert(val * 10 + dv > usize::MAX) by (nonlinear_arith)
        requires val > (usize::MAX - dv) / 10, dv <= 9, usize::MAX >= 9;
    assert(d.take(k + 1).drop_last() =~= d.take(k));
    assert(d.take(k + 1).last() == d[k]);
    lemma_digits_grow(d, k + 1, d.len() as int);
    assert(d.take(d.len() as int) =~= d);
}

proof fn lemma_no_overflow(val: usize, dv: usize)
    requires
        dv <= 9,
        val <= (usize::MAX - dv) / 10,
    ensures
        val * 10 + dv <= usize::MAX,
{
    assert(val * 10 + dv <= usize::MAX) by (nonlinear_arith)
        requires val <= (usize::MAX - dv) / 10, dv <= 9;
}

/// `str::parse::<usize>` on the characters `s[lo..hi]`.
pub fn parse_usize_in(s: &[char], lo: usize, hi: usize) -> (r: Option<usize>)
    requires
        lo <= hi <= s.len(),
    ensures
        r == parse_usize(s@.subrange(lo as int, hi as int)),
{
    let ghost t = s@.subrange(lo as int, hi as int);
    let mut start = lo;
    if lo < hi && s[lo] == '+' {
        start = lo + 1;
    }
    let ghost d = if t.len() > 0 && t[0] == '+' { t.skip(1) } else { t };
    assert(d =~= s@.subrange(start as int, hi as int));
    if start == hi {
        return None;
    }
    let mut val: usize = 0;
    let mut i: usize = start;
    while i < hi
        invariant
            lo <= start <= i <= hi <= s.len(),
            start < hi,
            d == s@.subrange(start as int, hi as int),
            t == s@.subrange(lo as int, hi as int),
            d == (if t.len() > 0 && t[0] == '+' { t.skip(1) } else { t }),
            all_digits(d.take(i - start)),
            val as nat == digits_value(d.take(i - start)),
        decreases hi - i,
    {
        let c = s[i];
        assert(d[i - start] == c);
        assert(d.take(i - start + 1).drop_last() =~= d.take(i - start));
        assert(d.take(i - start + 1).last() == c);
        if !('0' <= c && c <= '9') {
            assert(!is_digit(d[i - start]));
            return None;
        }
        let dv = (c as u32 - '0' as u32) as usize;
        assert(dv == digit_value(c));
        if val > (usize::MAX - dv) / 10 {
            proof { lemma_overflow(d, (i - start) as int, val, dv); }
            return None;
        }
        proof { lemma_no_overflow(val, dv); }
        val = val * 10 + dv;
        i = i + 1;
    }
    assert(d.take(d.len() as int) =~= d);
    Some(val)
}


/// How many times the item before it may repeat.
#[derive(Debug, Clone, Copy, PartialEq, Eq, Structural)]
pub enum Quantifier {
    One,
    ZeroOrMore,
    OneOrMore,
    Repeat(usize, usize),
}

/// The quantifier at the start of `rest` and how many characters it takes.
pub open spec fn quantifier_of(rest: Seq<char>) -> (Quantifier, nat) {
    if rest.len() == 0 {
        (Quantifier::One, 0)
    } else if rest[0] == '+' {
        (Quantifier::OneOrMore, 1)
    } else if rest[0] == '*' {
        (Quantifier::ZeroOrMore, 1)
    } else if rest[0] == '{' && first_index(rest, '}') < rest.len() {
        let close = first_index(rest, '}');
        let inside = rest.subrange(1, close);
        let comma = first_index(inside, ',');
        if comma < inside.len() {
            let lo = match parse_usize(inside.take(comma)) {
                Some(n) => n,
                None => 0,
            };
            let hi = if comma + 1 == inside.len() {
                usize::MAX
            } else {
                match parse_usize(inside.skip(comma + 1)) {
                    Some(n) => n,
                    None => lo,
                }
            };
            (Quantifier::Repeat(lo, hi), (close + 1) as nat)
        } else {
            match parse_usize(inside) {
                Some(n) => (Quantifier::Repeat(n, n), (close + 1) as nat),
                None => (Quantifier::One, 0),
            }
        }
    } else {
        (Quantifier::One, 0)
    }
}

/// The first `c` in `s` is at `k` when `s[k]` is `c` and no earlier
/// character is.
proof fn lemma_first_index_at(s: Seq<char>, c: char, k: int)
    requires
        0 <= k < s.len(),
        s[k] == c,
        forall|j: int| 0 <= j < k ==> s[j] != c,
    ensures
        first_index(s, c) == k,
{
    crate::text::lemma_find_from(s, c, 0);
}

/// What `parse::<usize>` gives for a string of digits that fits.
proof fn lemma_parse_digits(d: Seq<char>)
    requires
        d.len() > 0,
        all_digits(d),
        digits_value(d) <= usize::MAX,
    ensures
        parse_usize(d) == Some(digits_value(d) as usize),
{
    assert(is_digit(d[0]));
}

/// `+` repeats one or more times and `*` zero or more times, each taking one
/// character; with no quantifier an item matches once.
pub proof fn lemma_star_plus_quantifiers(rest: Seq<char>)
    ensures
        quantifier_of(seq!['+'] + rest) == (Quantifier::OneOrMore, 1nat),
        quantifier_of(seq!['*'] + rest) == (Quantifier::ZeroOrMore, 1nat),
        quantifier_of(Seq::empty()) == (Quantifier::One, 0nat),
{
    assert((seq!['+'] + rest)[0] == '+');
    assert((seq!['*'] + rest)[0] == '*');
}

/// The repeat law: `{n,m}`, `{n,}` and `{n}` with their bounds written in
/// digits repeat at least `n` and at most `m` times (no upper bound for
/// `{n,}`, exactly `n` for `{n}`), and take the braces and what is between
/// them, whatever follows.
pub proof fn lemma_repeat_quantifiers(a: Seq<char>, b: Seq<char>, rest: Seq<char>)
    requires
        a.len() > 0,
        all_digits(a),
        digits_value(a) <= usize::MAX,
        b.len() > 0,
        all_digits(b),
        digits_value(b) <= usize::MAX,
    ensures
        quantifier_of(seq!['{'] + a + seq![','] + b + seq!['}'] + rest)
            == (Quantifier::Repeat(digits_value(a) as usize, digits_value(b) as usize), (a.len() + b.len() + 3) as nat),
        quantifier_of(seq!['{'] + a + seq![',', '}'] + rest)
            == (Quantifier::Repeat(digits_value(a) as usize, usize::MAX), (a.len() + 3) as nat),
        quantifier_of(seq!['{'] + a + seq!['}'] + rest)
            == (Quantifier::Repeat(digits_value(a) as usize, digits_value(a) as usize), (a.len() + 2) as nat),
{
    lemma_parse_digits(a);
    lemma_parse_digits(b);
    // {n,m}
    let s1 = seq!['{'] + a + seq![','] + b + seq!['}'] + rest;
    let c1: int = a.len() as int + b.len() as int + 2;
    assert(s1[c1] == '}');
    assert forall|j: int| 0 <= j < c1 implies s1[j] != '}' by {
        if 1 <= j <= a.len() {
            assert(s1[j] == a[j - 1]);
            assert(is_digit(a[j - 1]));
        } else if a.len() + 2 <= j {
            assert(s1[j] == b[j - a.len() - 2]);
            assert(is_digit(b[j - a.len() - 2]));
        }
    }
    lemma_first_index_at(s1, '}', c1);
    let in1 = s1.subrange(1, c1);
    assert(in1 =~= a + seq![','] + b);
    assert(in1[a.len() as int] == ',');
    assert forall|j: int| 0 <= j < a.len() implies in1[j] != ',' by {
        assert(in1[j] == a[j]);
        assert(is_digit(a[j]));
    }
    lemma_first_index_at(in1, ',', a.len() as int);
    assert(in1.take(a.len() as int) =~= a);
    assert(in1.skip(a.len() as int + 1) =~= b);
    // {n,}
    let s2 = seq!['{'] + a + seq![',', '}'] + rest;
    let c2: int = a.len() as int + 2;
    assert(s2[c2] == '}');
    assert forall|j: int| 0 <= j < c2 implies s2[j] != '}' by {
        if 1 <= j <= a.len() {
            assert(s2[j] == a[j - 1]);
            assert(is_digit(a[j - 1]));
        }
    }
    lemma_first_index_at(s2, '}', c2);
    let in2 = s2.subrange(1, c2);
    assert(in2 =~= a + seq![',']);
    assert(in2[a.len() as int] == ',');
    assert forall|j: int| 0 <= j < a.len() implies in2[j] != ',' by {
        assert(in2[j] == a[j]);
        assert(is_digit(a[j]));
    }
    lemma_first_index_at(in2, ',', a.len() as int);
    assert(in2.take(a.len() as int) =~= a);
    // {n}
    let s3 = seq!['{'] + a + seq!['}'] + rest;
    let c3: int = a.len() as int + 1;
    assert(s3[c3] == '}');
    assert forall|j: int| 0 <= j < c3 implies s3[j] != '}' by {
        if 1 <= j <= a.len() {
            assert(s3[j] == a[j - 1]);
            assert(is_digit(a[j - 1]));
        }
    }
    lemma_first_index_at(s3, '}', c3);
    let in3 = s3.subrange(1, c3);
    assert(in3 =~= a);
    assert forall|j: int| 0 <= j < in3.len() implies in3[j] != ',' by {
        assert(is_digit(a[j]));
    }
    crate::text::lemma_find_from(in3, ',', 0);
    assert(first_index(in3, ',') == in3.len());
}

/// The quantifier at the start of `p[lo..hi]` and how many characters it takes.
fn quantifier_at(p: &[char], lo: usize, hi: usize) -> (r: (Quantifier, usize))
    requires
        lo <= hi <= p.len(),
    ensures
        r.0 == quantifier_of(p@.subrange(lo as int, hi as int)).0,
        r.1 == quantifier_of(p@.subrange(lo as int, hi as int)).1,
        r.1 <= hi - lo,
{
    let ghost rest = p@.subrange(lo as int, hi as int);
    if lo == hi {
        return (Quantifier::One, 0);
    }
    assert(rest[0] == p@[lo as int]);
    if p[lo] == '+' {
        return (Quantifier::OneOrMore, 1);
    }
    if p[lo] == '*' {
        return (Quantifier::ZeroOrMore, 1);
    }
    if p[lo] == '{' {
        let close = find_in(p, lo, hi, '}');
        if close < hi - lo {
            assert(rest.subrange(1, close as int) =~= p@.subrange(lo + 1, lo + close));
            let ghost inside = rest.subrange(1, close as int);
            let comma = find_in(p, lo + 1, lo + close, ',');
            if comma < close - 1 {
                assert(inside.take(comma as int) =~= p@.subrange(lo + 1, lo + 1 + comma));
                assert(inside.skip(comma + 1) =~= p@.subrange(lo + 1 + comma + 1, lo + close));
                let min = match parse_usize_in(p, lo + 1, lo + 1 + comma) {
                    Some(n) => n,
                    None => 0,
                };
                let max = if comma + 1 == close - 1 {
                    usize::MAX
                } else {
                    match parse_usize_in(p, lo + 1 + comma + 1, lo + close) {
                        Some(n) => n,
                        None => min,
                    }
                };
                return (Quantifier::Repeat(min, max), close + 1);
            } else {
                match parse_usize_in(p, lo + 1, lo + close) {
                    Some(n) => {
                        return (Quantifier::Repeat(n, n), close + 1);
                    },
                    None => {
                        return (Quantifier::One, 0);
                    },
                }
            }
        }
    }
    (Quantifier::One, 0)
}

pub proof fn lemma_quantifier_len(rest: Seq<char>)
    ensures
        quantifier_of(rest).1 <= rest.len(),
{
    if rest.len() > 0 && rest[0] == '{' {
        crate::text::lemma_find_from(rest, '}', 0);
    }
}

/// The repetition bounds of a quantifier.
pub open spec fn bounds(q: Quantifier) -> (nat, nat) {
    match q {
        Quantifier::One => (1, 1),
        Quantifier::ZeroOrMore => (0, usize::MAX as nat),
        Quantifier::OneOrMore => (1, usize::MAX as nat),
        Quantifier::Repeat(lo, hi) => (lo as nat, hi as nat),
    }
}

pub open spec fn is_ascii_alnum(c: char) -> bool {
    ('0' <= c && c <= '9') || ('A' <= c && c <= 'Z') || ('a' <= c && c <= 'z')
}

pub open spec fn is_ascii_ws(c: char) -> bool {
    c == ' ' || c == '\t' || c == '\n' || c == '\u{c}' || c == '\r'
}

/// Whether a bracket class body, scanned from position `i`, admits `ch`;
/// `a-z` is a range when a character follows the dash.
pub open spec fn bracket_admits(class: Seq<char>, ch: char, i: int) -> bool
    decreases class.len() - i,
{
    if i < 0 || i >= class.len() {
        false
    } else if i + 2 < class.len() && class[i + 1] == '-' {
        (class[i] <= ch && ch <= class[i + 2]) || bracket_admits(class, ch, i + 3)
    } else {
        ch == class[i] || bracket_admits(class, ch, i + 1)
    }
}

/// Whether the single-character item `class` admits `ch`.
pub open spec fn class_admits(class: Seq<char>, ch: char, is_bracket: bool) -> bool {
    if is_bracket {
        bracket_admits(class, ch, 0)
    } else if class.len() == 2 && class[0] == '\\' {
        if class[1] == 'd' {
            is_digit(ch)
        } else if class[1] == 'w' {
            is_ascii_alnum(ch) || ch == '_'
        } else if class[1] == 's' {
            is_ascii_ws(ch)
        } else {
            ch == class[1]
        }
    } else if class.len() == 1 && class[0] == '.' {
        true
    } else if class.len() == 1 {
        ch == class[0]
    } else {
        false
    }
}

fn class_admits_exec(class: &[char], ch: char, is_bracket: bool) -> (r: bool)
    ensures
        r == class_admits(class@, ch, is_bracket),
{
    if is_bracket {
        let mut i: usize = 0;
        while i < class.len()
            invariant
                0 <= i <= class.len(),
                is_bracket,
                bracket_admits(class@, ch, 0) == bracket_admits(class@, ch, i as int),
            decreases class.len() - i,
        {
            if class.len() > 2 && i < class.len() - 2 && class[i + 1] == '-' {
                if ch >= class[i] && ch <= class[i + 2] {
                    assert(bracket_admits(class@, ch, i as int));
                    return true;
                }
                i = i + 3;
            } else {
                if ch == class[i] {
                    assert(bracket_admits(class@, ch, i as int));
                    return true;
                }
                i = i + 1;
            }
        }
        false
    } else if class.len() == 2 && class[0] == '\\' {
        let k = class[1];
        if k == 'd' {
            '0' <= ch && ch <= '9'
        } else if k == 'w' {
            ('0' <= ch && ch <= '9') || ('A' <= ch && ch <= 'Z') || ('a' <= ch && ch <= 'z') || ch == '_'
        } else if k == 's' {
            ch == ' ' || ch == '\t' || ch == '\n' || ch == '\u{c}' || ch == '\r'
        } else {
            ch == k
        }
    } else if class.len() == 1 && class[0] == '.' {
        true
    } else if class.len() == 1 {
        ch == class[0]
    } else {
        false
    }
}

/// How many characters from `pos` on the item admits, in a row, at most `max`.
pub open spec fn run_len(class: Seq<char>, is_bracket: bool, input: Seq<char>, pos: int, max: nat) -> nat
    decreases input.len() - pos,
{
    if 0 <= pos < input.len() && max > 0 && class_admits(class, input[pos], is_bracket) {
        1 + run_len(class, is_bracket, input, pos + 1, (max - 1) as nat)
    } else {
        0
    }
}

/// Where matching `p` against `input` from `pos` ends, if it matches.
pub open spec fn match_here(p: Seq<char>, input: Seq<char>, pos: int) -> Option<int>
    decreases p.len(), 1int, 0int,
{
    if p.len() == 0 {
        Some(pos)
    } else if p[0] == '[' && first_index(p, ']') < p.len() {
        let close = first_index(p, ']');
        let rest = p.skip(close + 1);
        let q = quantifier_of(rest);
        proof {
            crate::text::lemma_find_from(p, ']', 0);
            lemma_quantifier_len(rest);
        }
        let b = bounds(q.0);
        try_counts(rest.skip(q.1 as int), input, pos, run_len(p.subrange(1, close), true, input, pos, b.1), b.0)
    } else if p[0] == '\\' && p.len() >= 2 {
        let rest = p.skip(2);
        let q = quantifier_of(rest);
        proof { lemma_quantifier_len(rest); }
        let b = bounds(q.0);
        try_counts(rest.skip(q.1 as int), input, pos, run_len(p.take(2), false, input, pos, b.1), b.0)
    } else if p[0] == '.' {
        let rest = p.skip(1);
        let q = quantifier_of(rest);
        proof { lemma_quantifier_len(rest); }
        let b = bounds(q.0);
        try_counts(rest.skip(q.1 as int), input, pos, run_len(seq!['.'], false, input, pos, b.1), b.0)
    } else {
        let rest = p.skip(1);
        let q = quantifier_of(rest);
        proof { lemma_quantifier_len(rest); }
        if q.0 != Quantifier::One {
            let b = bounds(q.0);
            try_counts(rest.skip(q.1 as int), input, pos, run_len(p.take(1), false, input, pos, b.1), b.0)
        } else if 0 <= pos < input.len() && input[pos] == p[0] {
            match_here(p.skip(1), input, pos + 1)
        } else {
            None
        }
    }
}

/// Tries the rest of the pattern after `count`, `count - 1`, ... repetitions,
/// down to `min`, and gives the first end found.
pub open spec fn try_counts(rest: Seq<char>, input: Seq<char>, pos: int, count: nat, min: nat) -> Option<int>
    decreases rest.len(), 2int, count,
{
    if count < min {
        None
    } else {
        match match_here(rest, input, pos + count) {
            Some(e) => Some(e),
            None => if count == 0 {
                None
            } else {
                try_counts(rest, input, pos, (count - 1) as nat, min)
            },
        }
    }
}


fn bounds_exec(q: Quantifier) -> (r: (usize, usize))
    ensures
        r.0 as nat == bounds(q).0,
        r.1 as nat == bounds(q).1,
{
    match q {
        Quantifier::One => (1, 1),
        Quantifier::ZeroOrMore => (0, usize::MAX),
        Quantifier::OneOrMore => (1, usize::MAX),
        Quantifier::Repeat(lo, hi) => (lo, hi),
    }
}

fn run_len_exec(class: &[char], is_bracket: bool, input: &[char], pos: usize, max: usize) -> (r: usize)
    requires
        pos <= input.len(),
    ensures
        r as nat == run_len(class@, is_bracket, input@, pos as int, max as nat),
        pos + r <= input.len(),
{
    let mut count: usize = 0;
    let mut cur: usize = pos;
    while cur < input.len() && count < max && class_admits_exec(class, input[cur], is_bracket)
        invariant
            pos <= cur <= input.len(),
            cur == pos + count,
            count <= max,
            run_len(class@, is_bracket, input@, pos as int, max as nat) == count + run_len(
                class@,
                is_bracket,
                input@,
                cur as int,
                (max - count) as nat,
            ),
        decreases input.len() - cur,
    {
        count = count + 1;
        cur = cur + 1;
    }
    count
}

/// A match result as the spec gives it.
pub open spec fn same_end(r: Option<usize>, s: Option<int>) -> bool {
    match r {
        Some(e) => s == Some(e as int),
        None => s == None::<int>,
    }
}

fn copy_range(s: &[char], lo: usize, hi: usize) -> (r: Vec<char>)
    requires
        lo <= hi <= s.len(),
    ensures
        r@ == s@.subrange(lo as int, hi as int),
{
    let mut r: Vec<char> = Vec::new();
    let mut i: usize = lo;
    while i < hi
        invariant
            lo <= i <= hi <= s.len(),
            r@ == s@.subrange(lo as int, i as int),
        decreases hi - i,
    {
        r.push(s[i]);
        assert(s@.subrange(lo as int, i + 1) == s@.subrange(lo as int, i as int).push(s@[i as int]));
        i = i + 1;
    }
    r
}

/// Matches the pattern `pc[lo..hi]` against `input` from `pos`.
#[verifier::rlimit(60)]
fn match_here_exec(pc: &[char], lo: usize, hi: usize, input: &[char], pos: usize) -> (r: Option<usize>)
    requires
        lo <= hi <= pc.len(),
        pos <= input.len(),
    ensures
        same_end(r, match_here(pc@.subrange(lo as int, hi as int), input@, pos as int)),
        r matches Some(e) ==> e <= input.len(),
    decreases hi - lo, 1int, 0int,
{
    let ghost p = pc@.subrange(lo as int, hi as int);
    if lo == hi {
        return Some(pos);
    }
    assert(p[0] == pc@[lo as int]);
    if pc[lo] == '[' {
        let close = find_in(pc, lo, hi, ']');
        if close < hi - lo {
            proof { crate::text::lemma_find_from(p, ']', 0); }
            let class = copy_range(pc, lo + 1, lo + close);
            assert(class@ =~= p.subrange(1, close as int));
            let rlo = lo + close + 1;
            assert(p.skip(close + 1) =~= pc@.subrange(rlo as int, hi as int));
            let (q, k) = quantifier_at(pc, rlo, hi);
            assert(pc@.subrange(rlo as int, hi as int).skip(k as int) =~= pc@.subrange((rlo + k) as int, hi as int));
            let (mn, mx) = bounds_exec(q);
            let count = run_len_exec(&class, true, input, pos, mx);
            return try_counts_exec(pc, rlo + k, hi, input, pos, count, mn);
        }
    }
    if pc[lo] == '\\' && hi - lo >= 2 {
        let class = copy_range(pc, lo, lo + 2);
        assert(class@ =~= p.take(2));
        let rlo = lo + 2;
        assert(p.skip(2) =~= pc@.subrange(rlo as int, hi as int));
        let (q, k) = quantifier_at(pc, rlo, hi);
        assert(pc@.subrange(rlo as int, hi as int).skip(k as int) =~= pc@.subrange((rlo + k) as int, hi as int));
        let (mn, mx) = bounds_exec(q);
        let count = run_len_exec(&class, false, input, pos, mx);
        return try_counts_exec(pc, rlo + k, hi, input, pos, count, mn);
    }
    if pc[lo] == '.' {
        let class = vec!['.'];
        assert(class@ =~= seq!['.']);
        let rlo = lo + 1;
        assert(p.skip(1) =~= pc@.subrange(rlo as int, hi as int));
        let (q, k) = quantifier_at(pc, rlo, hi);
        assert(pc@.subrange(rlo as int, hi as int).skip(k as int) =~= pc@.subrange((rlo + k) as int, hi as int));
        let (mn, mx) = bounds_exec(q);
        let count = run_len_exec(&class, false, input, pos, mx);
        return try_counts_exec(pc, rlo + k, hi, input, pos, count, mn);
    }
    let rlo = lo + 1;
    assert(p.skip(1) =~= pc@.subrange(rlo as int, hi as int));
    let (q, k) = quantifier_at(pc, rlo, hi);
    let is_one = match q {
        Quantifier::One => true,
        _ => false,
    };
    if !is_one {
        let class = copy_range(pc, lo, lo + 1);
        assert(class@ =~= p.take(1));
        assert(pc@.subrange(rlo as int, hi as int).skip(k as int) =~= pc@.subrange((rlo + k) as int, hi as int));
        let (mn, mx) = bounds_exec(q);
        let count = run_len_exec(&class, false, input, pos, mx);
        return try_counts_exec(pc, rlo + k, hi, input, pos, count, mn);
    }
    if pos < input.len() && input[pos] == pc[lo] {
        match_here_exec(pc, lo + 1, hi, input, pos + 1)
    } else {
        None
    }
}

/// Tries the rest `pc[lo..hi]` after `count`, `count - 1`, ... repetitions, down to `min`.
fn try_counts_exec(pc: &[char], lo: usize, hi: usize, input: &[char], pos: usize, count: usize, min: usize) -> (r: Option<usize>)
    requires
        lo <= hi <= pc.len(),
        pos + count <= input.len(),
    ensures
        same_end(r, try_counts(pc@.subrange(lo as int, hi as int), input@, pos as int, count as nat, min as nat)),
        r matches Some(e) ==> e <= input.len(),
    decreases hi - lo, 2int, 0int,
{
    let ghost rest = pc@.subrange(lo as int, hi as int);
    let mut c: usize = count;
    loop
        invariant
            lo <= hi <= pc.len(),
            rest == pc@.subrange(lo as int, hi as int),
            c <= count,
            pos + count <= input.len(),
            try_counts(rest, input@, pos as int, count as nat, min as nat) == try_counts(rest, input@, pos as int, c as nat, min as nat),
        decreases c,
    {
        if c < min {
            return None;
        }
        match match_here_exec(pc, lo, hi, input, pos + c) {
            Some(e) => {
                return Some(e);
            },
            None => {},
        }
        if c == 0 {
            return None;
        }
        c = c - 1;
    }
}

/// The pattern with a leading `^` and a trailing `$` removed, and which of them were present.
pub open spec fn anchors(c: Seq<char>) -> (Seq<char>, bool, bool) {
    let a_start = c.len() > 0 && c[0] == '^';
    let start: int = if a_start { 1 } else { 0 };
    let a_end = c.len() > start && c[c.len() - 1] == '$';
    let end: int = if a_end { c.len() - 1 } else { c.len() as int };
    (c.subrange(start, end), a_start, a_end)
}

/// Whether `input` matches `pattern`: with both anchors the match found from
/// the start must end at the end; with `^` a match from the start suffices;
/// with `$` a match from some position must end at the end; otherwise a match
/// from any position suffices.
pub open spec fn pattern_matches(pattern: Seq<char>, input: Seq<char>) -> bool {
    let (p, a_start, a_end) = anchors(pattern);
    if a_start && a_end {
        match_here(p, input, 0) == Some(input.len() as int)
    } else if a_start {
        match_here(p, input, 0) is Some
    } else if a_end {
        exists|s: int| 0 <= s <= input.len() && #[trigger] match_here(p, input, s) == Some(input.len() as int)
    } else {
        exists|s: int| 0 <= s <= input.len() && #[trigger] match_here(p, input, s) is Some
    }
}

/// Whether `input` matches `pattern` (see `pattern_matches`).
pub fn simple_regex_match(pattern: &str, input: &str) -> (r: bool)
    ensures
        r == pattern_matches(pattern@, input@),
{
    let chars = chars_of(pattern);
    let inp = chars_of(input);
    let mut start: usize = 0;
    let mut end: usize = chars.len();
    let mut a_start = false;
    let mut a_end = false;
    if chars.len() > 0 && chars[0] == '^' {
        start = 1;
        a_start = true;
    }
    if end > start && chars[end - 1] == '$' {
        end = end - 1;
        a_end = true;
    }
    let ghost p = chars@.subrange(start as int, end as int);
    assert(anchors(pattern@) == (p, a_start, a_end));
    if a_start && a_end {
        match match_here_exec(&chars, start, end, &inp, 0) {
            Some(e) => e == inp.len(),
            None => false,
        }
    } else if a_start {
        match match_here_exec(&chars, start, end, &inp, 0) {
            Some(_) => true,
            None => false,
        }
    } else if a_end {
        let mut s: usize = 0;
        loop
            invariant
                0 <= s <= inp.len(),
                start <= end <= chars.len(),
                inp@ == input@,
                a_end && !a_start,
                anchors(pattern@) == (p, a_start, a_end),
                p == chars@.subrange(start as int, end as int),
                forall|t: int| 0 <= t < s ==> #[trigger] match_here(p, inp@, t) != Some(inp.len() as int),
            decreases inp.len() - s,
        {
            match match_here_exec(&chars, start, end, &inp, s) {
                Some(e) => {
                    if e == inp.len() {
                        return true;
                    }
                },
                None => {},
            }
            if s == inp.len() {
                return false;
            }
            s = s + 1;
        }
    } else {
        let mut s: usize = 0;
        loop
            invariant
                0 <= s <= inp.len(),
                start <= end <= chars.len(),
                inp@ == input@,
                !a_end && !a_start,
                anchors(pattern@) == (p, a_start, a_end),
                p == chars@.subrange(start as int, end as int),
                forall|t: int| 0 <= t < s ==> !(#[trigger] match_here(p, inp@, t) is Some),
            decreases inp.len() - s,
        {
            match match_here_exec(&chars, start, end, &inp, s) {
                Some(_) => {
                    return true;
                },
                None => {},
            }
            if s == inp.len() {
                return false;
            }
            s = s + 1;
        }
    }
}

} // verus!
