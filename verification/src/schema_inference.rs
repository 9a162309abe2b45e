//! Schema inference for delimited text: splits a sample of lines into cells, classifies
//! each cell, and joins the classes of a column into the column's type.

use vstd::prelude::*;
use crate::error::{QlaroError, QlaroErrorCode};
use crate::recognizers::{
    decimal_number_syntax, decimal_number_syntax_ok, i64_syntax_ok, naive_date_parse_ok,
    naive_datetime_parse_ok, parses_as_i64, parses_as_naive_date, parses_as_naive_datetime,
    parses_as_rfc3339, rfc3339_parse_ok,
};
use crate::schema::{ArrowField, ArrowSchema, ArrowType, TimeUnit};
use crate::text::{
    chars_eq_ignore_ascii_case, chars_of, concat2, decimal, eq_ignore_ascii_case, push_char, same_text,
    is_space, trim, trim_end, trim_start, trim_text, u64_text,
};

verus! {

/// The character views of a sequence of strings.
pub open spec fn texts(v: Seq<String>) -> Seq<Seq<char>> {
    v.map_values(|s: String| s@)
}

/// The class of values seen in a column so far.
#[derive(Debug, Clone, Copy, PartialEq, Eq, Structural)]
pub enum InferredType {
    Null,
    Boolean,
    Int64,
    Float64,
    Date32,
    TimestampMicros,
    Utf8,
}

impl InferredType {
    /// The least class that covers both arguments: `Null` adds nothing, integers widen to
    /// decimals, dates widen to timestamps, and any other mix falls back to text.
    pub open spec fn join(self, other: InferredType) -> InferredType {
        if self == InferredType::Null {
            other
        } else if other == InferredType::Null {
            self
        } else if self == other {
            self
        } else if (self == InferredType::Int64 && other == InferredType::Float64) || (self
            == InferredType::Float64 && other == InferredType::Int64) {
            InferredType::Float64
        } else if (self == InferredType::Date32 && other == InferredType::TimestampMicros) || (
        self == InferredType::TimestampMicros && other == InferredType::Date32) {
            InferredType::TimestampMicros
        } else {
            InferredType::Utf8
        }
    }

    /// Combines the class of a column with the class of one more cell.
    pub fn merge(self, other: InferredType) -> (r: InferredType)
        ensures
            r == self.join(other),
    {
        match (self, other) {
            (InferredType::Null, t) | (t, InferredType::Null) => t,
            (InferredType::Boolean, InferredType::Boolean) => InferredType::Boolean,
            (InferredType::Int64, InferredType::Int64) => InferredType::Int64,
            (InferredType::Int64, InferredType::Float64)
            | (InferredType::Float64, InferredType::Int64) => InferredType::Float64,
            (InferredType::Float64, InferredType::Float64) => InferredType::Float64,
            (InferredType::Date32, InferredType::Date32) => InferredType::Date32,
            (InferredType::Date32, InferredType::TimestampMicros)
            | (InferredType::TimestampMicros, InferredType::Date32) => InferredType::TimestampMicros,
            (InferredType::TimestampMicros, InferredType::TimestampMicros) => {
                InferredType::TimestampMicros
            },
            _ => InferredType::Utf8,
        }
    }

    /// The Arrow type a column of this class is given.
    pub open spec fn arrow_type(self) -> ArrowType {
        match self {
            InferredType::Null => ArrowType::Utf8,
            InferredType::Utf8 => ArrowType::Utf8,
            InferredType::Boolean => ArrowType::Boolean,
            InferredType::Int64 => ArrowType::Int64,
            InferredType::Float64 => ArrowType::Float64,
            InferredType::Date32 => ArrowType::Date32,
            InferredType::TimestampMicros => ArrowType::Timestamp(TimeUnit::Microsecond, None),
        }
    }

    pub fn to_arrow_datatype(self) -> (r: ArrowType)
        ensures
            r == self.arrow_type(),
    {
        match self {
            InferredType::Null | InferredType::Utf8 => ArrowType::Utf8,
            InferredType::Boolean => ArrowType::Boolean,
            InferredType::Int64 => ArrowType::Int64,
            InferredType::Float64 => ArrowType::Float64,
            InferredType::Date32 => ArrowType::Date32,
            InferredType::TimestampMicros => ArrowType::Timestamp(TimeUnit::Microsecond, None),
        }
    }
}

/// Joining classes is commutative.
pub proof fn law_merge_commutative(a: InferredType, b: InferredType)
    ensures
        a.join(b) == b.join(a),
{
}

/// Joining classes is associative, so the order in which rows are read does not matter
/// to how partial results combine.
pub proof fn law_merge_associative(a: InferredType, b: InferredType, c: InferredType)
    ensures
        a.join(b).join(c) == a.join(b.join(c)),
{
}

/// Joining a class with itself changes nothing.
pub proof fn law_merge_idempotent(a: InferredType)
    ensures
        a.join(a) == a,
{
}

/// `Null` (an empty or null cell) never changes a column's class, and text absorbs
/// every other class.
pub proof fn law_merge_null_identity_text_absorbing(a: InferredType)
    ensures
        InferredType::Null.join(a) == a,
        a.join(InferredType::Null) == a,
        InferredType::Utf8.join(a) == InferredType::Utf8,
{
}

// ---------------------------------------------------------------- line splitting

/// State after scanning a prefix of a line: finished fields, the current field, and
/// whether a quote is open.
pub open spec fn csv_scan(line: Seq<char>, d: char) -> (Seq<Seq<char>>, Seq<char>, bool)
    decreases line.len(),
{
    if line.len() == 0 {
        (seq![], seq![], false)
    } else {
        let st = csv_scan(line.drop_last(), d);
        let ch = line.last();
        if ch == '"' {
            (st.0, st.1, !st.2)
        } else if ch == d && !st.2 {
            (st.0.push(trim(st.1)), seq![], st.2)
        } else {
            (st.0, st.1.push(ch), st.2)
        }
    }
}

/// The trimmed fields of one line: quote characters toggle quoting and are dropped, and
/// a delimiter outside quotes ends a field.
pub open spec fn csv_fields(line: Seq<char>, d: char) -> Seq<Seq<char>> {
    let st = csv_scan(line, d);
    st.0.push(trim(st.1))
}

/// Splits one line into trimmed fields.
pub fn parse_csv_line(line: &str, delimiter: char) -> (r: Vec<String>)
    ensures
        texts(r@) == csv_fields(line@, delimiter),
{
    let v = chars_of(line);
    let mut fields: Vec<String> = Vec::new();
    let mut current = String::new();
    let mut in_quotes = false;
    let mut i: usize = 0;
    assert(v@.take(0) =~= Seq::<char>::empty());
    while i < v.len()
        invariant
            i <= v@.len(),
            v@ == line@,
            (texts(fields@), current@, in_quotes) == csv_scan(v@.take(i as int), delimiter),
        decreases v@.len() - i,
    {
        let ch = v[i];
        proof {
            assert(v@.take(i + 1).drop_last() =~= v@.take(i as int));
            assert(v@.take(i + 1).last() == ch);
        }
        if ch == '"' {
            in_quotes = !in_quotes;
        } else if ch == delimiter && !in_quotes {
            let t = trim_text(&current);
            let ghost prev = fields@;
            fields.push(t);
            assert(texts(fields@) =~= texts(prev).push(t@));
            current = String::new();
        } else {
            push_char(&mut current, ch);
        }
        i = i + 1;
    }
    assert(v@.take(v@.len() as int) =~= v@);
    let t = trim_text(&current);
    let ghost before = fields@;
    fields.push(t);
    assert(texts(fields@) =~= texts(before).push(t@));
    fields
}


/// Every line yields at least one field.
pub proof fn law_csv_fields_nonempty(line: Seq<char>, d: char)
    ensures
        csv_fields(line, d).len() >= 1,
{
}

/// Number of quote characters in `s`.
pub open spec fn quote_count(s: Seq<char>) -> nat
    decreases s.len(),
{
    if s.len() == 0 {
        0
    } else {
        quote_count(s.drop_last()) + if s.last() == '"' { 1nat } else { 0nat }
    }
}

/// Number of delimiters of `s` that stand outside quotes: delimiters (other than the quote
/// character itself) preceded by an even number of quote characters.
pub open spec fn unquoted_delimiters(s: Seq<char>, d: char) -> nat
    decreases s.len(),
{
    if s.len() == 0 {
        0
    } else {
        unquoted_delimiters(s.drop_last(), d) + if s.last() == d && d != '"' && quote_count(s.drop_last()) % 2 == 0 {
            1nat
        } else {
            0nat
        }
    }
}

/// Whether `s` holds no quote character.
pub open spec fn quote_free(s: Seq<char>) -> bool {
    forall|i: int| 0 <= i < s.len() ==> s[i] != '"'
}

proof fn lemma_trim_start_quote_free(s: Seq<char>)
    requires
        quote_free(s),
    ensures
        quote_free(trim_start(s)),
    decreases s.len(),
{
    if s.len() > 0 && is_space(s[0]) {
        assert(quote_free(s.drop_first())) by {
            assert forall|i: int| 0 <= i < s.drop_first().len() implies s.drop_first()[i] != '"' by {
                assert(s.drop_first()[i] == s[i + 1]);
            }
        }
        lemma_trim_start_quote_free(s.drop_first());
    }
}

proof fn lemma_trim_end_quote_free(s: Seq<char>)
    requires
        quote_free(s),
    ensures
        quote_free(trim_end(s)),
    decreases s.len(),
{
    if s.len() > 0 && is_space(s.last()) {
        assert(quote_free(s.drop_last())) by {
            assert forall|i: int| 0 <= i < s.drop_last().len() implies s.drop_last()[i] != '"' by {
                assert(s.drop_last()[i] == s[i]);
            }
        }
        lemma_trim_end_quote_free(s.drop_last());
    }
}

proof fn lemma_scan_counts(line: Seq<char>, d: char)
    ensures
        csv_scan(line, d).2 == (quote_count(line) % 2 == 1),
        csv_scan(line, d).0.len() == unquoted_delimiters(line, d),
        quote_free(csv_scan(line, d).1),
        forall|k: int| 0 <= k < csv_scan(line, d).0.len() ==> quote_free(#[trigger] csv_scan(line, d).0[k]),
    decreases line.len(),
{
    if line.len() > 0 {
        let p = line.drop_last();
        lemma_scan_counts(p, d);
        let st = csv_scan(p, d);
        let ch = line.last();
        if ch == '"' {
        } else if ch == d && !st.2 {
            lemma_trim_start_quote_free(st.1);
            lemma_trim_end_quote_free(trim_start(st.1));
            assert forall|k: int| 0 <= k < st.0.push(trim(st.1)).len() implies quote_free(#[trigger] st.0.push(trim(st.1))[k]) by {
                if k < st.0.len() {
                    assert(st.0.push(trim(st.1))[k] == st.0[k]);
                }
            }
        } else {
            assert forall|i: int| 0 <= i < st.1.push(ch).len() implies st.1.push(ch)[i] != '"' by {
                if i < st.1.len() {
                    assert(st.1.push(ch)[i] == st.1[i]);
                }
            }
        }
    }
}

/// The number of fields of a line is one more than the number of its delimiters that
/// stand outside quotes (preceded by an even number of quote characters): a delimiter
/// between an opening and a closing quote never ends a field, wherever the quote stands.
pub proof fn law_csv_field_count(line: Seq<char>, d: char)
    ensures
        csv_fields(line, d).len() == unquoted_delimiters(line, d) + 1,
{
    lemma_scan_counts(line, d);
}

/// Quote characters only mark quoted spans: no field ever contains one.
pub proof fn law_csv_fields_drop_quotes(line: Seq<char>, d: char)
    ensures
        forall|k: int| 0 <= k < csv_fields(line, d).len() ==> quote_free(#[trigger] csv_fields(line, d)[k]),
{
    lemma_scan_counts(line, d);
    let st = csv_scan(line, d);
    lemma_trim_start_quote_free(st.1);
    lemma_trim_end_quote_free(trim_start(st.1));
    assert forall|k: int| 0 <= k < csv_fields(line, d).len() implies quote_free(#[trigger] csv_fields(line, d)[k]) by {
        if k < st.0.len() {
            assert(csv_fields(line, d)[k] == st.0[k]);
        }
    }
}

proof fn lemma_trim_end_prefix(s: Seq<char>)
    ensures
        trim_end(s).len() <= s.len(),
        trim_end(s) == s.take(trim_end(s).len() as int),
        trim_end(s).len() > 0 ==> !is_space(trim_end(s).last()),
    decreases s.len(),
{
    if s.len() > 0 && is_space(s.last()) {
        lemma_trim_end_prefix(s.drop_last());
        assert(s.drop_last().take(trim_end(s).len() as int) =~= s.take(trim_end(s).len() as int));
    } else {
        assert(s.take(s.len() as int) =~= s);
    }
}

proof fn lemma_trim_start_edge(s: Seq<char>)
    ensures
        trim_start(s).len() > 0 ==> !is_space(trim_start(s)[0]),
    decreases s.len(),
{
    if s.len() > 0 && is_space(s[0]) {
        lemma_trim_start_edge(s.drop_first());
    }
}

/// Fields carry no surrounding white space: a non-empty field neither starts nor ends
/// with a white-space character.
pub proof fn law_csv_fields_trimmed(line: Seq<char>, d: char, k: int)
    requires
        0 <= k < csv_fields(line, d).len(),
        csv_fields(line, d)[k].len() > 0,
    ensures
        !is_space(csv_fields(line, d)[k][0]),
        !is_space(csv_fields(line, d)[k].last()),
{
    lemma_scan_trimmed(line, d);
    let st = csv_scan(line, d);
    let f = csv_fields(line, d)[k];
    if k < st.0.len() {
        assert(f == st.0[k]);
    } else {
        assert(f == trim(st.1));
        lemma_trim_edges(st.1);
    }
}

proof fn lemma_trim_edges(s: Seq<char>)
    ensures
        trim(s).len() > 0 ==> !is_space(trim(s)[0]) && !is_space(trim(s).last()),
{
    lemma_trim_start_edge(s);
    lemma_trim_end_prefix(trim_start(s));
    if trim(s).len() > 0 {
        assert(trim(s)[0] == trim_start(s)[0]);
    }
}

proof fn lemma_scan_trimmed(line: Seq<char>, d: char)
    ensures
        forall|k: int| 0 <= k < csv_scan(line, d).0.len() && (#[trigger] csv_scan(line, d).0[k]).len() > 0
            ==> !is_space(csv_scan(line, d).0[k][0]) && !is_space(csv_scan(line, d).0[k].last()),
    decreases line.len(),
{
    if line.len() > 0 {
        let p = line.drop_last();
        lemma_scan_trimmed(p, d);
        let st = csv_scan(p, d);
        lemma_trim_edges(st.1);
        let ch = line.last();
        if ch != '"' && ch == d && !st.2 {
            assert forall|k: int| 0 <= k < st.0.push(trim(st.1)).len() && (#[trigger] st.0.push(trim(st.1))[k]).len() > 0
                implies !is_space(st.0.push(trim(st.1))[k][0]) && !is_space(st.0.push(trim(st.1))[k].last()) by {
                if k < st.0.len() {
                    assert(st.0.push(trim(st.1))[k] == st.0[k]);
                }
            }
        }
    }
}

proof fn lemma_quoted_prefix(p: Seq<char>, q: Seq<char>, d: char, i: int)
    requires
        quote_free(q),
        quote_count(p) % 2 == 0,
        0 <= i <= q.len(),
    ensures
        unquoted_delimiters(p + seq!['"'] + q.take(i), d) == unquoted_delimiters(p, d),
        quote_count(p + seq!['"'] + q.take(i)) == quote_count(p) + 1,
    decreases i,
{
    let pq = p + seq!['"'];
    if i == 0 {
        assert(pq + q.take(0) =~= pq);
        assert(pq.drop_last() =~= p);
    } else {
        lemma_quoted_prefix(p, q, d, i - 1);
        let s = pq + q.take(i);
        assert(s.drop_last() =~= pq + q.take(i - 1));
        assert(s.last() == q[i - 1]);
    }
}

/// A delimiter between an opening and a closing quote never ends a field: when `p` holds
/// an even number of quotes (so a quote after it opens a quoted span) and `q` holds none,
/// `p"q"` has exactly as many delimiters outside quotes as `p`, so as many fields.
pub proof fn law_quoted_delimiters_do_not_split(p: Seq<char>, q: Seq<char>, d: char)
    requires
        quote_free(q),
        quote_count(p) % 2 == 0,
    ensures
        unquoted_delimiters(p + seq!['"'] + q + seq!['"'], d) == unquoted_delimiters(p, d),
        csv_fields(p + seq!['"'] + q + seq!['"'], d).len() == csv_fields(p, d).len(),
{
    lemma_quoted_prefix(p, q, d, q.len() as int);
    assert(q.take(q.len() as int) =~= q);
    let s = p + seq!['"'] + q + seq!['"'];
    assert(s.drop_last() =~= p + seq!['"'] + q);
    law_csv_field_count(s, d);
    law_csv_field_count(p, d);
}

/// Splitting at every delimiter, as `str::split` does: the pieces before each delimiter,
/// and the piece being collected.
pub open spec fn delimiter_scan(line: Seq<char>, d: char) -> (Seq<Seq<char>>, Seq<char>)
    decreases line.len(),
{
    if line.len() == 0 {
        (seq![], seq![])
    } else {
        let st = delimiter_scan(line.drop_last(), d);
        if line.last() == d {
            (st.0.push(st.1), seq![])
        } else {
            (st.0, st.1.push(line.last()))
        }
    }
}

/// The pieces of `line` between delimiters (`line.split(d)`).
pub open spec fn split_pieces(line: Seq<char>, d: char) -> Seq<Seq<char>> {
    let st = delimiter_scan(line, d);
    st.0.push(st.1)
}

proof fn lemma_scan_without_quotes(line: Seq<char>, d: char)
    requires
        !line.contains('"'),
        d != '"',
    ensures
        csv_scan(line, d) == (delimiter_scan(line, d).0.map_values(|p: Seq<char>| trim(p)), delimiter_scan(line, d).1, false),
    decreases line.len(),
{
    if line.len() > 0 {
        let p = line.drop_last();
        assert(!p.contains('"')) by {
            if p.contains('"') {
                let k = choose|k: int| 0 <= k < p.len() && p[k] == '"';
                assert(line[k] == '"');
            }
        }
        assert(line.last() != '"') by {
            assert(line[line.len() - 1] == line.last());
        }
        lemma_scan_without_quotes(p, d);
        let sp = delimiter_scan(p, d);
        assert(sp.0.push(sp.1).map_values(|q: Seq<char>| trim(q)) =~= sp.0.map_values(|q: Seq<char>| trim(q)).push(trim(sp.1)));
    }
}

/// On a line without quote characters (and a delimiter that is not one), the fields are
/// exactly the pieces between delimiters, each trimmed: `line.split(d).map(str::trim)`.
pub proof fn law_csv_fields_plain_split(line: Seq<char>, d: char)
    requires
        !line.contains('"'),
        d != '"',
    ensures
        csv_fields(line, d) == split_pieces(line, d).map_values(|p: Seq<char>| trim(p)),
{
    lemma_scan_without_quotes(line, d);
    let sp = delimiter_scan(line, d);
    assert(sp.0.push(sp.1).map_values(|q: Seq<char>| trim(q)) =~= sp.0.map_values(|q: Seq<char>| trim(q)).push(trim(sp.1)));
}

// ---------------------------------------------------------------- cell classification

/// What the recognizers say of one cell value; `classify_cell` turns it into a class.
#[derive(Debug, Clone, Copy, PartialEq, Eq)]
pub struct CellEvidence {
    pub is_null_token: bool,
    pub is_bool_word: bool,
    pub int_syntax: bool,
    pub decimal_syntax: bool,
    pub date_syntax: bool,
    pub timestamp_syntax: bool,
}

/// The class that the evidence selects; earlier checks take precedence.
pub open spec fn class_of_evidence(e: CellEvidence) -> InferredType {
    if e.is_null_token {
        InferredType::Null
    } else if e.is_bool_word {
        InferredType::Boolean
    } else if e.int_syntax {
        InferredType::Int64
    } else if e.decimal_syntax {
        InferredType::Float64
    } else if e.date_syntax {
        InferredType::Date32
    } else if e.timestamp_syntax {
        InferredType::TimestampMicros
    } else {
        InferredType::Utf8
    }
}

/// Decides the class of a cell from what the recognizers reported.
pub fn classify_cell(e: CellEvidence) -> (r: InferredType)
    ensures
        r == class_of_evidence(e),
{
    if e.is_null_token {
        InferredType::Null
    } else if e.is_bool_word {
        InferredType::Boolean
    } else if e.int_syntax {
        InferredType::Int64
    } else if e.decimal_syntax {
        InferredType::Float64
    } else if e.date_syntax {
        InferredType::Date32
    } else if e.timestamp_syntax {
        InferredType::TimestampMicros
    } else {
        InferredType::Utf8
    }
}

/// What the recognizers report of the cell `v`, given the configured null tokens.
pub open spec fn evidence_for(nulls: Seq<Seq<char>>, v: Seq<char>) -> CellEvidence {
    CellEvidence {
        is_null_token: nulls.contains(v),
        is_bool_word: eq_ignore_ascii_case(v, "true"@) || eq_ignore_ascii_case(v, "false"@),
        int_syntax: i64_syntax_ok(v),
        decimal_syntax: decimal_number_syntax_ok(v),
        date_syntax: naive_date_parse_ok(v, "%Y-%m-%d"@),
        timestamp_syntax: rfc3339_parse_ok(v) || naive_datetime_parse_ok(v, "%Y-%m-%d %H:%M:%S"@)
            || naive_datetime_parse_ok(v, "%Y-%m-%dT%H:%M:%S"@),
    }
}

/// The class of the cell `v`.
pub open spec fn cell_type(nulls: Seq<Seq<char>>, v: Seq<char>) -> InferredType {
    class_of_evidence(evidence_for(nulls, v))
}

// ---------------------------------------------------------------- sampling lines

/// Lines of `t` split at `\n`: the finished lines and the line in progress.
pub open spec fn split_scan(t: Seq<char>) -> (Seq<Seq<char>>, Seq<char>)
    decreases t.len(),
{
    if t.len() == 0 {
        (seq![], seq![])
    } else {
        let st = split_scan(t.drop_last());
        if t.last() == '\n' {
            (st.0.push(st.1), seq![])
        } else {
            (st.0, st.1.push(t.last()))
        }
    }
}

/// The lines of `t`, the last one possibly empty.
pub open spec fn raw_lines(t: Seq<char>) -> Seq<Seq<char>> {
    split_scan(t).0.push(split_scan(t).1)
}

/// The trimmed lines that are not blank, in order.
pub open spec fn nonblank_trimmed(ls: Seq<Seq<char>>) -> Seq<Seq<char>>
    decreases ls.len(),
{
    if ls.len() == 0 {
        seq![]
    } else {
        let prev = nonblank_trimmed(ls.drop_last());
        if trim(ls.last()).len() > 0 {
            prev.push(trim(ls.last()))
        } else {
            prev
        }
    }
}

/// At most the first `m` elements of `s`.
pub open spec fn cap<A>(s: Seq<A>, m: nat) -> Seq<A> {
    if s.len() <= m {
        s
    } else {
        s.take(m as int)
    }
}

/// The sample the engine reads: the first `max` non-blank lines of `t`, trimmed.
pub open spec fn sample_lines(t: Seq<char>, max: nat) -> Seq<Seq<char>> {
    cap(nonblank_trimmed(raw_lines(t)), max)
}

proof fn lemma_cap_push<A>(s: Seq<A>, x: A, m: nat)
    ensures
        cap(s.push(x), m) == if cap(s, m).len() < m {
            cap(s, m).push(x)
        } else {
            cap(s, m)
        },
{
    if s.len() < m {
        assert(cap(s.push(x), m) == s.push(x));
    } else {
        assert(cap(s.push(x), m) =~= cap(s, m));
    }
}

/// Adds the finished line `cur` to the sample when it is not blank and there is room.
fn admit_line(lines: &mut Vec<String>, cur: &String, max: usize, Ghost(done): Ghost<Seq<Seq<char>>>)
    requires
        texts(old(lines)@) == cap(nonblank_trimmed(done), max as nat),
    ensures
        texts(final(lines)@) == cap(nonblank_trimmed(done.push(cur@)), max as nat),
{
    let t = trim_text(cur);
    let ghost ns = nonblank_trimmed(done);
    assert(done.push(cur@).drop_last() =~= done);
    proof {
        lemma_cap_push(ns, t@, max as nat);
    }
    if !t.as_str().is_empty() && lines.len() < max {
        let ghost prev = lines@;
        lines.push(t);
        assert(texts(lines@) =~= texts(prev).push(t@));
    } else {
        proof {
            if t@.len() > 0 {
                assert(texts(lines@).len() == lines@.len());
            }
        }
    }
}

/// Reads the sample lines out of the whole input text.
pub fn collect_sample_lines(text: &str, max: usize) -> (r: Vec<String>)
    ensures
        texts(r@) == sample_lines(text@, max as nat),
{
    let v = chars_of(text);
    let mut lines: Vec<String> = Vec::new();
    let mut cur = String::new();
    let mut i: usize = 0;
    let ghost mut done: Seq<Seq<char>> = seq![];
    assert(v@.take(0) =~= Seq::<char>::empty());
    assert(texts(lines@) =~= cap(nonblank_trimmed(done), max as nat));
    while i < v.len()
        invariant
            i <= v@.len(),
            v@ == text@,
            (done, cur@) == split_scan(v@.take(i as int)),
            texts(lines@) == cap(nonblank_trimmed(done), max as nat),
        decreases v@.len() - i,
    {
        let ch = v[i];
        proof {
            assert(v@.take(i + 1).drop_last() =~= v@.take(i as int));
            assert(v@.take(i + 1).last() == ch);
        }
        if ch == '\n' {
            admit_line(&mut lines, &cur, max, Ghost(done));
            proof {
                done = done.push(cur@);
            }
            cur = String::new();
        } else {
            push_char(&mut cur, ch);
        }
        i = i + 1;
    }
    assert(v@.take(v@.len() as int) =~= v@);
    admit_line(&mut lines, &cur, max, Ghost(done));
    lines
}

// ---------------------------------------------------------------- the engine

/// The tokens that denote a missing value by default.
pub open spec fn default_null_tokens() -> Seq<Seq<char>> {
    seq!["", "null", "NULL", "None", "NA", "N/A", "nan", "NaN"].map_values(|s: &str| s@)
}

/// Header names or generated `column_<n>` names for the first line.
pub open spec fn header_names(first: Seq<char>, d: char, has_header: bool) -> Seq<Seq<char>> {
    if has_header {
        csv_fields(first, d)
    } else {
        Seq::new(csv_fields(first, d).len(), |i: int| "column_"@ + decimal((i + 1) as nat))
    }
}

/// The lines that carry data.
pub open spec fn data_rows(lines: Seq<Seq<char>>, has_header: bool) -> Seq<Seq<char>> {
    if has_header {
        lines.drop_first()
    } else {
        lines
    }
}

/// The class of column `idx` over `rows`; rows too short for the column add nothing.
pub open spec fn column_type(nulls: Seq<Seq<char>>, rows: Seq<Seq<char>>, d: char, idx: int) -> InferredType
    decreases rows.len(),
{
    if rows.len() == 0 {
        InferredType::Null
    } else {
        let prev = column_type(nulls, rows.drop_last(), d, idx);
        let f = csv_fields(rows.last(), d);
        if 0 <= idx < f.len() {
            prev.join(cell_type(nulls, trim(f[idx])))
        } else {
            prev
        }
    }
}

/// The inferred type of a column covers the class of every one of its cells: joining it
/// with any cell's class leaves it unchanged (types only ever widen as rows are read).
pub proof fn law_column_type_covers_cells(nulls: Seq<Seq<char>>, rows: Seq<Seq<char>>, d: char, idx: int, i: int)
    requires
        0 <= i < rows.len(),
        0 <= idx < csv_fields(rows[i], d).len(),
    ensures
        column_type(nulls, rows, d, idx).join(cell_type(nulls, trim(csv_fields(rows[i], d)[idx])))
            == column_type(nulls, rows, d, idx),
    decreases rows.len(),
{
    let p = rows.drop_last();
    let prev = column_type(nulls, p, d, idx);
    let ci = cell_type(nulls, trim(csv_fields(rows[i], d)[idx]));
    if i == rows.len() - 1 {
        law_merge_associative(prev, ci, ci);
        law_merge_idempotent(ci);
    } else {
        assert(p[i] == rows[i]);
        law_column_type_covers_cells(nulls, p, d, idx, i);
        let f = csv_fields(rows.last(), d);
        if 0 <= idx < f.len() {
            let cl = cell_type(nulls, trim(f[idx]));
            law_merge_associative(prev, cl, ci);
            law_merge_commutative(cl, ci);
            law_merge_associative(prev, ci, cl);
        }
    }
}

/// Infers column names and types from a sample of delimited text.
#[derive(Debug, Clone)]
pub struct SchemaInferenceEngine {
    pub max_sample_rows: usize,
    pub delimiter: u8,
    pub has_header: bool,
    pub null_values: Vec<String>,
}

fn default_null_values() -> (r: Vec<String>)
    ensures
        texts(r@) == default_null_tokens(),
{
    let mut r: Vec<String> = Vec::new();
    r.push("".to_owned());
    r.push("null".to_owned());
    r.push("NULL".to_owned());
    r.push("None".to_owned());
    r.push("NA".to_owned());
    r.push("N/A".to_owned());
    r.push("nan".to_owned());
    r.push("NaN".to_owned());
    assert(texts(r@) =~= default_null_tokens());
    r
}

impl Default for SchemaInferenceEngine {
    fn default() -> (r: SchemaInferenceEngine)
        ensures
            r.max_sample_rows == 1000,
            r.delimiter == 44,
            r.has_header,
            texts(r.null_values@) == default_null_tokens(),
    {
        SchemaInferenceEngine {
            max_sample_rows: 1000,
            delimiter: 44,
            has_header: true,
            null_values: default_null_values(),
        }
    }
}

impl SchemaInferenceEngine {
    /// The null tokens as character sequences.
    pub open spec fn null_tokens(&self) -> Seq<Seq<char>> {
        texts(self.null_values@)
    }

    /// The delimiter as a character (a byte read as Latin-1).
    pub open spec fn delimiter_char(&self) -> char {
        (self.delimiter as u32) as char
    }

    /// An engine with the given sampling settings and the default null tokens.
    pub fn new(max_sample_rows: usize, delimiter: u8, has_header: bool) -> (r: Self)
        ensures
            r.max_sample_rows == max_sample_rows,
            r.delimiter == delimiter,
            r.has_header == has_header,
            r.null_tokens() == default_null_tokens(),
    {
        SchemaInferenceEngine {
            max_sample_rows,
            delimiter,
            has_header,
            null_values: default_null_values(),
        }
    }

    fn is_null_token(&self, val: &str) -> (r: bool)
        ensures
            r == self.null_tokens().contains(val@),
    {
        let mut i: usize = 0;
        while i < self.null_values.len()
            invariant
                i <= self.null_values@.len(),
                forall|k: int| 0 <= k < i ==> self.null_values@[k]@ != val@,
            decreases self.null_values@.len() - i,
        {
            if same_text(&self.null_values[i], val) {
                assert(self.null_tokens()[i as int] == val@);
                return true;
            }
            i = i + 1;
        }
        proof {
            if self.null_tokens().contains(val@) {
                let k = choose|k: int| 0 <= k < self.null_tokens().len() && self.null_tokens()[k] == val@;
                assert(self.null_values@[k]@ == val@);
            }
        }
        false
    }

    /// Gathers what the recognizers say of `val`.
    pub fn cell_evidence(&self, val: &str) -> (r: CellEvidence)
        ensures
            r == evidence_for(self.null_tokens(), val@),
    {
        let is_null_token = self.is_null_token(val);
        let vc = chars_of(val);
        let t = chars_of("true");
        let f = chars_of("false");
        let is_bool_word = chars_eq_ignore_ascii_case(&vc, &t) || chars_eq_ignore_ascii_case(&vc, &f);
        let int_syntax = parses_as_i64(val);
        let decimal_syntax = decimal_number_syntax(val);
        let date_syntax = parses_as_naive_date(val, "%Y-%m-%d");
        let timestamp_syntax = parses_as_rfc3339(val) || parses_as_naive_datetime(val, "%Y-%m-%d %H:%M:%S")
            || parses_as_naive_datetime(val, "%Y-%m-%dT%H:%M:%S");
        CellEvidence {
            is_null_token,
            is_bool_word,
            int_syntax,
            decimal_syntax,
            date_syntax,
            timestamp_syntax,
        }
    }

    /// The class of one (already trimmed) cell value.
    pub fn infer_cell_type(&self, val: &str) -> (r: InferredType)
        ensures
            r == cell_type(self.null_tokens(), val@),
    {
        let e = self.cell_evidence(val);
        classify_cell(e)
    }
}


impl SchemaInferenceEngine {
    /// Column names for the sample whose first line is `first`.
    fn header_for(&self, first: &str) -> (r: Vec<String>)
        ensures
            texts(r@) == header_names(first@, self.delimiter_char(), self.has_header),
    {
        let d: char = self.delimiter as char;
        let row = parse_csv_line(first, d);
        if self.has_header {
            return row;
        }
        let n = row.len();
        let mut names: Vec<String> = Vec::new();
        let mut i: usize = 0;
        while i < n
            invariant
                i <= n == row@.len(),
                n == csv_fields(first@, self.delimiter_char()).len(),
                texts(names@) == Seq::new(i as nat, |k: int| "column_"@ + decimal((k + 1) as nat)),
            decreases n - i,
        {
            let num: u64 = (i as u64) + 1;
            let digits = u64_text(num);
            let name = concat2("column_", &digits);
            let ghost prev = names@;
            names.push(name);
            assert(texts(names@) =~= texts(prev).push(name@));
            assert(name@ == "column_"@ + decimal((i + 1) as nat));
            assert(texts(names@) =~= Seq::new((i + 1) as nat, |k: int| "column_"@ + decimal((k + 1) as nat)));
            i = i + 1;
        }
        assert(texts(names@) =~= header_names(first@, self.delimiter_char(), self.has_header));
        names
    }

    /// Infers a schema from delimited text: the first `max_sample_rows` non-blank lines
    /// (trimmed) are the sample; the first of them names the columns when `has_header`
    /// (otherwise columns are named `column_1`, `column_2`, ...); each column's type is the
    /// join of the classes of its cells in the data rows. Every field is nullable.
    pub fn infer_schema(&self, text: &str) -> (r: Result<ArrowSchema, QlaroError>)
        ensures
            ({
                let lines = sample_lines(text@, self.max_sample_rows as nat);
                let d = self.delimiter_char();
                let names = header_names(lines[0], d, self.has_header);
                let rows = data_rows(lines, self.has_header);
                &&& lines.len() == 0 ==> (r matches Err(QlaroError::Core(QlaroErrorCode::InvalidFormat(m)))
                    && m@ == "Cannot infer schema from empty input stream"@)
                &&& lines.len() > 0 ==> (r matches Ok(s) && {
                    &&& s.fields@.len() == names.len()
                    &&& forall|i: int|
                        0 <= i < names.len() ==> {
                            &&& (#[trigger] s.fields@[i]).name@ == names[i]
                            &&& s.fields@[i].data_type == column_type(self.null_tokens(), rows, d, i).arrow_type()
                            &&& s.fields@[i].nullable
                        }
                })
            }),
    {
        let lines = collect_sample_lines(text, self.max_sample_rows);
        let ghost ls = texts(lines@);
        if lines.len() == 0 {
            return Err(QlaroError::Core(QlaroErrorCode::InvalidFormat(
                "Cannot infer schema from empty input stream".to_owned(),
            )));
        }
        let d: char = self.delimiter as char;
        let ghost dd = self.delimiter_char();
        assert(d == dd);
        let names = self.header_for(&lines[0]);
        proof {
            law_csv_fields_nonempty(ls[0], dd);
            assert(texts(names@).len() == names@.len());
        }
        if names.len() == 0 {
            return Err(QlaroError::Core(QlaroErrorCode::InvalidFormat(
                "Failed to parse column headers from CSV".to_owned(),
            )));
        }
        let num_cols = names.len();
        let start: usize = if self.has_header { 1 } else { 0 };
        let ghost rows = ls.subrange(start as int, ls.len() as int);
        assert(rows =~= data_rows(ls, self.has_header));
        let mut col_types: Vec<InferredType> = Vec::new();
        let mut c: usize = 0;
        while c < num_cols
            invariant
                c <= num_cols,
                col_types@.len() == c,
                forall|k: int| 0 <= k < c ==> col_types@[k] == InferredType::Null,
            decreases num_cols - c,
        {
            col_types.push(InferredType::Null);
            c = c + 1;
        }
        let mut r: usize = start;
        assert(rows.take(0) =~= Seq::<Seq<char>>::empty());
        while r < lines.len()
            invariant
                start <= r <= lines@.len(),
                ls == texts(lines@),
                rows == ls.subrange(start as int, ls.len() as int),
                d == dd,
                col_types@.len() == num_cols,
                forall|k: int|
                    0 <= k < num_cols ==> #[trigger] col_types@[k] == column_type(
                        self.null_tokens(),
                        rows.take(r - start),
                        dd,
                        k,
                    ),
            decreases lines@.len() - r,
        {
            let parsed = parse_csv_line(&lines[r], d);
            let ghost before = rows.take(r - start);
            let ghost after = rows.take(r - start + 1);
            assert(after.drop_last() =~= before);
            assert(after.last() == ls[r as int]);
            let mut idx: usize = 0;
            while idx < num_cols
                invariant
                    idx <= num_cols,
                    col_types@.len() == num_cols,
                    texts(parsed@) == csv_fields(ls[r as int], dd),
                    after.drop_last() == before,
                    after.last() == ls[r as int],
                    after.len() > 0,
                    forall|k: int|
                        0 <= k < idx ==> #[trigger] col_types@[k] == column_type(self.null_tokens(), after, dd, k),
                    forall|k: int|
                        idx <= k < num_cols ==> #[trigger] col_types@[k] == column_type(self.null_tokens(), before, dd, k),
                decreases num_cols - idx,
            {
                let ghost f = csv_fields(ls[r as int], dd);
                let ghost prev_k = column_type(self.null_tokens(), before, dd, idx as int);
                assert(f.len() == parsed@.len());
                if idx < parsed.len() {
                    let v = trim_text(&parsed[idx]);
                    assert(texts(parsed@)[idx as int] == parsed@[idx as int]@);
                    assert(v@ == trim(f[idx as int]));
                    let ct = self.infer_cell_type(&v);
                    let merged = col_types[idx].merge(ct);
                    assert(column_type(self.null_tokens(), after, dd, idx as int) == prev_k.join(
                        cell_type(self.null_tokens(), trim(f[idx as int])),
                    ));
                    col_types.set(idx, merged);
                } else {
                    assert(column_type(self.null_tokens(), after, dd, idx as int) == prev_k);
                }
                idx = idx + 1;
            }
            r = r + 1;
        }
        assert(rows.take(r - start) =~= rows);
        let mut fields: Vec<ArrowField> = Vec::new();
        let mut i: usize = 0;
        while i < num_cols
            invariant
                i <= num_cols == names@.len() == col_types@.len(),
                fields@.len() == i,
                forall|k: int|
                    0 <= k < i ==> {
                        &&& (#[trigger] fields@[k]).name@ == names@[k]@
                        &&& fields@[k].data_type == col_types@[k].arrow_type()
                        &&& fields@[k].nullable
                    },
            decreases num_cols - i,
        {
            let name = names[i].clone();
            let dt = col_types[i].to_arrow_datatype();
            fields.push(ArrowField { name, data_type: dt, nullable: true });
            i = i + 1;
        }
        Ok(ArrowSchema { fields })
    }
}

} // verus!
