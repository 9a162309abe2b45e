//! Recognizers of value syntaxes. Integer and decimal-number syntaxes are stated exactly
//! (the grammars that std documents for its `from_str` implementations); calendar syntaxes
//! are those of chrono's parsers, whose outcomes are named here and decided by chrono.

use vstd::prelude::*;
use crate::text::{ascii_lower, ascii_lower_char, chars_of};

verus! {

pub open spec fn is_ascii_digit(c: char) -> bool {
    '0' <= c && c <= '9'
}

/// The value of a string of decimal digits.
pub open spec fn digits_value(s: Seq<char>) -> int
    decreases s.len(),
{
    if s.len() == 0 {
        0
    } else {
        digits_value(s.drop_last()) * 10 + (s.last() as int - 48)
    }
}

/// Whether `s` starts with a sign.
pub open spec fn has_sign(s: Seq<char>) -> bool {
    s.len() > 0 && (s[0] == '+' || s[0] == '-')
}

/// `s` without its leading sign, if it has one.
pub open spec fn unsigned_part(s: Seq<char>) -> Seq<char> {
    if has_sign(s) {
        s.drop_first()
    } else {
        s
    }
}

/// Whether `s` is accepted by `i64::from_str`: an optional `+` or `-`, then at least one
/// ASCII digit and nothing else, denoting a value in the range of `i64`.
pub open spec fn i64_syntax_ok(s: Seq<char>) -> bool {
    &&& unsigned_part(s).len() > 0
    &&& forall|i: int| 0 <= i < unsigned_part(s).len() ==> is_ascii_digit(#[trigger] unsigned_part(s)[i])
    &&& if has_sign(s) && s[0] == '-' {
        -digits_value(unsigned_part(s)) >= i64::MIN
    } else {
        digits_value(unsigned_part(s)) <= i64::MAX
    }
}

/// Whether chrono's `NaiveDate::parse_from_str(s, fmt)` succeeds.
pub uninterp spec fn naive_date_parse_ok(s: Seq<char>, fmt: Seq<char>) -> bool;

/// Whether chrono's `DateTime::parse_from_rfc3339(s)` succeeds.
pub uninterp spec fn rfc3339_parse_ok(s: Seq<char>) -> bool;

/// Whether chrono's `NaiveDateTime::parse_from_str(s, fmt)` succeeds.
pub uninterp spec fn naive_datetime_parse_ok(s: Seq<char>, fmt: Seq<char>) -> bool;

proof fn lemma_digits_value_nonneg(s: Seq<char>)
    requires
        forall|i: int| 0 <= i < s.len() ==> is_ascii_digit(#[trigger] s[i]),
    ensures
        digits_value(s) >= 0,
    decreases s.len(),
{
    if s.len() > 0 {
        lemma_digits_value_nonneg(s.drop_last());
        assert(is_ascii_digit(s[s.len() - 1]));
    }
}

proof fn lemma_digits_value_prefix(s: Seq<char>, k: int)
    requires
        0 <= k <= s.len(),
        forall|i: int| 0 <= i < s.len() ==> is_ascii_digit(#[trigger] s[i]),
    ensures
        digits_value(s.take(k)) <= digits_value(s),
    decreases s.len(),
{
    if k < s.len() {
        let p = s.drop_last();
        assert(forall|i: int| 0 <= i < p.len() ==> is_ascii_digit(#[trigger] p[i]) ) by {
            assert forall|i: int| 0 <= i < p.len() implies is_ascii_digit(#[trigger] p[i]) by {
                assert(p[i] == s[i]);
            }
        }
        lemma_digits_value_prefix(p, k);
        lemma_digits_value_nonneg(p);
        assert(p.take(k) =~= s.take(k));
        assert(is_ascii_digit(s[s.len() - 1]));
    } else {
        assert(s.take(k) =~= s);
    }
}

/// Whether `str::parse::<i64>` accepts `s`: an optional sign, one or more ASCII digits,
/// and a value that fits (the grammar std documents for `i64::from_str`).
pub(crate) fn parses_as_i64(s: &str) -> (r: bool)
    ensures
        r == i64_syntax_ok(s@),
{
    let v = chars_of(s);
    let n = v.len();
    let signed = n > 0 && (v[0] == '+' || v[0] == '-');
    let start: usize = if signed { 1 } else { 0 };
    let negative = signed && v[0] == '-';
    let ghost body = unsigned_part(s@);
    if start >= n {
        return false;
    }
    let limit: u64 = if negative { 9223372036854775808 } else { 9223372036854775807 };
    let mut mag: u64 = 0;
    let mut i: usize = start;
    assert(v@.subrange(start as int, start as int) =~= body.take(0));
    while i < n
        invariant
            v@ == s@,
            n == v@.len(),
            signed == (s@.len() > 0 && (s@[0] == '+' || s@[0] == '-')),
            start == (if signed { 1usize } else { 0usize }),
            negative == (signed && s@[0] == '-'),
            limit == (if negative { 9223372036854775808u64 } else { 9223372036854775807u64 }),
            body == unsigned_part(s@),
            start <= i <= n,
            body == v@.subrange(start as int, n as int),
            forall|k: int| start <= k < i ==> is_ascii_digit(#[trigger] v@[k]),
            mag == digits_value(body.take(i - start)),
            mag <= limit,
        decreases n - i,
    {
        let c = v[i];
        if !('0' <= c && c <= '9') {
            assert(body[i - start] == c);
            assert(!is_ascii_digit(body[i - start]));
            return false;
        }
        let d: u64 = (c as u32 - 48) as u64;
        assert(body.take(i + 1 - start).drop_last() =~= body.take(i - start));
        assert(body.take(i + 1 - start).last() == c);
        assert(d == c as int - 48);
        assert(digits_value(body.take(i + 1 - start)) == mag * 10 + d);
        if mag > (limit - d) / 10 {
            assert(mag * 10 + d > limit) by (nonlinear_arith)
                requires
                    mag > (limit - d) / 10,
                    d <= 9,
                    limit >= 9,
            ;
            proof {
                if forall|k: int| 0 <= k < body.len() ==> is_ascii_digit(#[trigger] body[k]) {
                    lemma_digits_value_prefix(body, i + 1 - start);
                    assert(digits_value(body) > limit);
                }
            }
            return false;
        }
        assert(mag * 10 + d <= limit) by (nonlinear_arith)
            requires
                mag <= (limit - d) / 10,
                d <= 9,
                limit >= 9,
        ;
        mag = mag * 10 + d;
        i = i + 1;
    }
    assert(body.take(n - start) =~= body);
    assert forall|k: int| 0 <= k < body.len() implies is_ascii_digit(#[trigger] body[k]) by {
        assert(body[k] == v@[k + start]);
    }
    true
}

/// Outcome of `chrono::NaiveDate::parse_from_str(s, fmt)`.
#[verifier::external_body]
pub(crate) fn parses_as_naive_date(s: &str, fmt: &str) -> (r: bool)
    ensures
        r == naive_date_parse_ok(s@, fmt@),
{
    chrono::NaiveDate::parse_from_str(s, fmt).is_ok()
}

/// Outcome of `chrono::DateTime::parse_from_rfc3339(s)`.
#[verifier::external_body]
pub(crate) fn parses_as_rfc3339(s: &str) -> (r: bool)
    ensures
        r == rfc3339_parse_ok(s@),
{
    chrono::DateTime::parse_from_rfc3339(s).is_ok()
}

/// Outcome of `chrono::NaiveDateTime::parse_from_str(s, fmt)`.
#[verifier::external_body]
pub(crate) fn parses_as_naive_datetime(s: &str, fmt: &str) -> (r: bool)
    ensures
        r == naive_datetime_parse_ok(s@, fmt@),
{
    chrono::NaiveDateTime::parse_from_str(s, fmt).is_ok()
}


/// `s` with ASCII letters lower-cased.
pub open spec fn lower_ascii_seq(s: Seq<char>) -> Seq<char> {
    s.map_values(|c: char| ascii_lower(c))
}

/// Number of leading ASCII digits of `s`.
pub open spec fn leading_digits(s: Seq<char>) -> nat
    decreases s.len(),
{
    if s.len() > 0 && is_ascii_digit(s[0]) {
        1 + leading_digits(s.drop_first())
    } else {
        0
    }
}

/// `s` without one leading `+` or `-`.
pub open spec fn strip_sign(s: Seq<char>) -> Seq<char> {
    if s.len() > 0 && (s[0] == '+' || s[0] == '-') {
        s.drop_first()
    } else {
        s
    }
}

/// An empty exponent, or `e`, an optional sign and one or more digits.
pub open spec fn exponent_ok(s: Seq<char>) -> bool {
    ||| s.len() == 0
    ||| {
        &&& s[0] == 'e'
        &&& strip_sign(s.drop_first()).len() > 0
        &&& leading_digits(strip_sign(s.drop_first())) == strip_sign(s.drop_first()).len()
    }
}

/// `Digit+ | Digit+ '.' Digit* | Digit* '.' Digit+`, then an exponent.
pub open spec fn number_ok(s: Seq<char>) -> bool {
    let a = leading_digits(s);
    let r1 = s.skip(a as int);
    if r1.len() > 0 && r1[0] == '.' {
        let b = leading_digits(r1.drop_first());
        a + b >= 1 && exponent_ok(r1.drop_first().skip(b as int))
    } else {
        a >= 1 && exponent_ok(r1)
    }
}

/// Whether `s` is accepted by `f64::from_str`: by its documented grammar, read after
/// ASCII lower-casing, an optional sign and then `inf`, `infinity`, `nan` or a number.
pub open spec fn decimal_number_syntax_ok(s: Seq<char>) -> bool {
    let b = strip_sign(lower_ascii_seq(s));
    ||| b == seq!['i', 'n', 'f']
    ||| b == seq!['i', 'n', 'f', 'i', 'n', 'i', 't', 'y']
    ||| b == seq!['n', 'a', 'n']
    ||| number_ok(b)
}

proof fn lemma_skip_drop_first(s: Seq<char>, i: int)
    requires
        0 <= i < s.len(),
    ensures
        s.skip(i).drop_first() == s.skip(i + 1),
        s.skip(i)[0] == s[i],
{
    assert(s.skip(i).drop_first() =~= s.skip(i + 1));
}

/// Number of ASCII digits in `v` starting at `from`.
fn count_digits(v: &Vec<char>, from: usize) -> (r: usize)
    requires
        from <= v@.len(),
    ensures
        r == leading_digits(v@.skip(from as int)),
        from + r <= v@.len(),
{
    let mut i = from;
    while i < v.len() && '0' <= v[i] && v[i] <= '9'
        invariant
            from <= i <= v@.len(),
            leading_digits(v@.skip(from as int)) == (i - from) + leading_digits(v@.skip(i as int)),
        decreases v@.len() - i,
    {
        proof {
            lemma_skip_drop_first(v@, i as int);
        }
        i = i + 1;
    }
    proof {
        if i < v@.len() {
            lemma_skip_drop_first(v@, i as int);
        }
    }
    i - from
}

fn is_sign(c: char) -> (r: bool)
    ensures
        r == (c == '+' || c == '-'),
{
    c == '+' || c == '-'
}

/// Whether `v[from..]` spells exactly the characters of `word`.
fn tail_is(v: &Vec<char>, from: usize, word: &[char]) -> (r: bool)
    requires
        from <= v@.len(),
    ensures
        r == (v@.skip(from as int) == word@),
{
    if v.len() - from != word.len() {
        assert(v@.skip(from as int).len() != word@.len());
        return false;
    }
    let mut k: usize = 0;
    while k < word.len()
        invariant
            v.len() == from + word.len(),
            from <= v@.len(),
            k <= word@.len(),
            forall|j: int| 0 <= j < k ==> v@[from + j] == word@[j],
        decreases word@.len() - k,
    {
        assert(from + k < v@.len());
        let at: usize = from + k;
        if v[at] != word[k] {
            assert(v@.skip(from as int)[k as int] != word@[k as int]);
            return false;
        }
        k = k + 1;
    }
    assert(v@.skip(from as int) =~= word@);
    true
}

proof fn lemma_skip_skip(s: Seq<char>, i: int, j: int)
    requires
        0 <= i,
        0 <= j,
        i + j <= s.len(),
    ensures
        s.skip(i).skip(j) == s.skip(i + j),
{
    assert(s.skip(i).skip(j) =~= s.skip(i + j));
}

/// Exponent check on `v[from..]`.
fn exponent_at(v: &Vec<char>, from: usize) -> (r: bool)
    requires
        from <= v@.len(),
    ensures
        r == exponent_ok(v@.skip(from as int)),
{
    let ghost s = v@.skip(from as int);
    if from == v.len() {
        return true;
    }
    if v[from] != 'e' {
        return false;
    }
    proof {
        lemma_skip_drop_first(v@, from as int);
    }
    let mut p = from + 1;
    if p < v.len() && is_sign(v[p]) {
        proof {
            lemma_skip_drop_first(v@, p as int);
        }
        p = p + 1;
    }
    assert(strip_sign(s.drop_first()) == v@.skip(p as int));
    if p == v.len() {
        return false;
    }
    let d = count_digits(v, p);
    d == v.len() - p
}

/// Whether `str::parse::<f64>` would accept `s`, decided on the documented grammar.
pub fn decimal_number_syntax(s: &str) -> (r: bool)
    ensures
        r == decimal_number_syntax_ok(s@),
{
    let raw = chars_of(s);
    let mut v: Vec<char> = Vec::new();
    let mut i: usize = 0;
    while i < raw.len()
        invariant
            i <= raw@.len(),
            raw@ == s@,
            v@ == lower_ascii_seq(raw@).take(i as int),
        decreases raw@.len() - i,
    {
        v.push(ascii_lower_char(raw[i]));
        assert(lower_ascii_seq(raw@).take(i + 1) =~= lower_ascii_seq(raw@).take(i as int).push(ascii_lower(raw@[i as int])));
        i = i + 1;
    }
    assert(v@ =~= lower_ascii_seq(s@));
    let mut start: usize = 0;
    if v.len() > 0 && is_sign(v[0]) {
        start = 1;
    }
    assert(strip_sign(v@) =~= v@.skip(start as int));
    let ghost b = v@.skip(start as int);
    if tail_is(&v, start, &['i', 'n', 'f']) || tail_is(&v, start, &['i', 'n', 'f', 'i', 'n', 'i', 't', 'y'])
        || tail_is(&v, start, &['n', 'a', 'n']) {
        return true;
    }
    let a = count_digits(&v, start);
    let p = start + a;
    proof {
        lemma_skip_skip(v@, start as int, a as int);
    }
    if p < v.len() && v[p] == '.' {
        proof {
            lemma_skip_drop_first(v@, p as int);
        }
        let bd = count_digits(&v, p + 1);
        proof {
            lemma_skip_skip(v@, p + 1, bd as int);
        }
        a + bd >= 1 && exponent_at(&v, p + 1 + bd)
    } else {
        a >= 1 && exponent_at(&v, p)
    }
}

} // verus!
