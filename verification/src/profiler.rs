//! Column profiling: null counts and the least and greatest values of integer and text
//! columns, their combination across batches, and the quality rules that need no
//! floating-point arithmetic.

use vstd::prelude::*;
use crate::text::{concat2, decimal, lemma_text_lt_asymmetric, lemma_text_lt_irreflexive, lemma_text_lt_total, lemma_text_lt_transitive, same_text, text_less, text_lt, u64_text};

verus! {

/// A scalar value of a column, for the types the profiler reports on.
#[derive(Debug, Clone, PartialEq, Eq)]
pub enum CanonicalScalar {
    Null,
    Boolean(bool),
    Int8(i8),
    Int16(i16),
    Int32(i32),
    Int64(i64),
    UInt8(u8),
    UInt16(u16),
    UInt32(u32),
    UInt64(u64),
    Utf8(String),
    Date32(i32),
    TimestampMicros(i64, Option<String>),
}

/// One column of one batch: its values where the profiler reads them (integers and text),
/// otherwise only its length and number of nulls.
#[derive(Debug)]
pub enum ColumnValues {
    Int8(Vec<Option<i8>>),
    Int16(Vec<Option<i16>>),
    Int32(Vec<Option<i32>>),
    Int64(Vec<Option<i64>>),
    UInt8(Vec<Option<u8>>),
    UInt16(Vec<Option<u16>>),
    UInt32(Vec<Option<u32>>),
    UInt64(Vec<Option<u64>>),
    Utf8(Vec<Option<String>>),
    Opaque { len: usize, null_count: usize },
}

/// Number of missing entries.
pub open spec fn count_none<A>(v: Seq<Option<A>>) -> nat
    decreases v.len(),
{
    if v.len() == 0 {
        0
    } else {
        count_none(v.drop_last()) + if v.last() is None { 1nat } else { 0nat }
    }
}

/// Whether some entry is present.
pub open spec fn has_some<A>(v: Seq<Option<A>>) -> bool {
    exists|i: int| 0 <= i < v.len() && v[i] is Some
}

/// `m` is a present entry and no present entry is smaller.
pub open spec fn is_least(s: Seq<Option<int>>, m: int) -> bool {
    &&& exists|i: int| 0 <= i < s.len() && s[i] == Some(m)
    &&& forall|i: int| 0 <= i < s.len() && (#[trigger] s[i]) is Some ==> m <= s[i]->0
}

/// `m` is a present entry and no present entry is larger.
pub open spec fn is_greatest(s: Seq<Option<int>>, m: int) -> bool {
    &&& exists|i: int| 0 <= i < s.len() && s[i] == Some(m)
    &&& forall|i: int| 0 <= i < s.len() && (#[trigger] s[i]) is Some ==> s[i]->0 <= m
}

/// `m` is a present entry and no present entry precedes it.
pub open spec fn is_least_text(s: Seq<Option<Seq<char>>>, m: Seq<char>) -> bool {
    &&& exists|i: int| 0 <= i < s.len() && s[i] == Some(m)
    &&& forall|i: int| 0 <= i < s.len() && (#[trigger] s[i]) is Some ==> !text_lt(s[i]->0, m)
}

/// `m` is a present entry and no present entry follows it.
pub open spec fn is_greatest_text(s: Seq<Option<Seq<char>>>, m: Seq<char>) -> bool {
    &&& exists|i: int| 0 <= i < s.len() && s[i] == Some(m)
    &&& forall|i: int| 0 <= i < s.len() && (#[trigger] s[i]) is Some ==> !text_lt(m, s[i]->0)
}

pub proof fn lemma_least_unique(s: Seq<Option<int>>, a: int, b: int)
    requires
        is_least(s, a),
        is_least(s, b),
    ensures
        a == b,
{
    let i = choose|i: int| 0 <= i < s.len() && s[i] == Some(a);
    let j = choose|j: int| 0 <= j < s.len() && s[j] == Some(b);
    assert(s[i] is Some);
    assert(s[j] is Some);
}

pub proof fn lemma_greatest_unique(s: Seq<Option<int>>, a: int, b: int)
    requires
        is_greatest(s, a),
        is_greatest(s, b),
    ensures
        a == b,
{
    let i = choose|i: int| 0 <= i < s.len() && s[i] == Some(a);
    let j = choose|j: int| 0 <= j < s.len() && s[j] == Some(b);
    assert(s[i] is Some);
    assert(s[j] is Some);
}

pub proof fn lemma_least_text_unique(s: Seq<Option<Seq<char>>>, a: Seq<char>, b: Seq<char>)
    requires
        is_least_text(s, a),
        is_least_text(s, b),
    ensures
        a == b,
{
    let i = choose|i: int| 0 <= i < s.len() && s[i] == Some(a);
    let j = choose|j: int| 0 <= j < s.len() && s[j] == Some(b);
    assert(s[i] is Some);
    assert(s[j] is Some);
    lemma_text_lt_total(a, b);
}

pub proof fn lemma_greatest_text_unique(s: Seq<Option<Seq<char>>>, a: Seq<char>, b: Seq<char>)
    requires
        is_greatest_text(s, a),
        is_greatest_text(s, b),
    ensures
        a == b,
{
    let i = choose|i: int| 0 <= i < s.len() && s[i] == Some(a);
    let j = choose|j: int| 0 <= j < s.len() && s[j] == Some(b);
    assert(s[i] is Some);
    assert(s[j] is Some);
    lemma_text_lt_total(a, b);
}

/// The entries of a `Int8` column as integers.
pub open spec fn widen_i8(v: Seq<Option<i8>>) -> Seq<Option<int>> {
    v.map_values(|o: Option<i8>| match o {
        Some(x) => Some(x as int),
        None => None,
    })
}

/// Least and greatest present entries of a `Int8` column.
fn min_max_i8(v: &Vec<Option<i8>>) -> (r: (i8, i8))
    requires
        has_some(v@),
    ensures
        is_least(widen_i8(v@), r.0 as int),
        is_greatest(widen_i8(v@), r.1 as int),
{
    let ghost w = widen_i8(v@);
    let mut min: i8 = i8::MAX;
    let mut max: i8 = i8::MIN;
    let ghost mut wmin: int = -1;
    let ghost mut wmax: int = -1;
    let mut i: usize = 0;
    while i < v.len()
        invariant
            i <= v@.len(),
            w == widen_i8(v@),
            -1 <= wmin < i,
            -1 <= wmax < i,
            wmin >= 0 ==> w[wmin] == Some(min as int),
            wmax >= 0 ==> w[wmax] == Some(max as int),
            wmin < 0 ==> min == i8::MAX && forall|j: int| 0 <= j < i ==> v@[j] is None,
            wmax < 0 ==> max == i8::MIN && forall|j: int| 0 <= j < i ==> v@[j] is None,
            forall|j: int| 0 <= j < i && (#[trigger] w[j]) is Some ==> min <= w[j]->0 && w[j]->0 <= max,
        decreases v@.len() - i,
    {
        match v[i] {
            Some(x) => {
                if x < min {
                    min = x;
                    proof { wmin = i as int; }
                } else {
                    proof { if wmin < 0 { wmin = i as int; } }
                }
                if x > max {
                    max = x;
                    proof { wmax = i as int; }
                } else {
                    proof { if wmax < 0 { wmax = i as int; } }
                }
            },
            None => {},
        }
        i = i + 1;
    }
    proof {
        let k = choose|k: int| 0 <= k < v@.len() && v@[k] is Some;
        assert(w[k] is Some);
    }
    (min, max)
}

/// The entries of a `Int16` column as integers.
pub open spec fn widen_i16(v: Seq<Option<i16>>) -> Seq<Option<int>> {
    v.map_values(|o: Option<i16>| match o {
        Some(x) => Some(x as int),
        None => None,
    })
}

/// Least and greatest present entries of a `Int16` column.
fn min_max_i16(v: &Vec<Option<i16>>) -> (r: (i16, i16))
    requires
        has_some(v@),
    ensures
        is_least(widen_i16(v@), r.0 as int),
        is_greatest(widen_i16(v@), r.1 as int),
{
    let ghost w = widen_i16(v@);
    let mut min: i16 = i16::MAX;
    let mut max: i16 = i16::MIN;
    let ghost mut wmin: int = -1;
    let ghost mut wmax: int = -1;
    let mut i: usize = 0;
    while i < v.len()
        invariant
            i <= v@.len(),
            w == widen_i16(v@),
            -1 <= wmin < i,
            -1 <= wmax < i,
            wmin >= 0 ==> w[wmin] == Some(min as int),
            wmax >= 0 ==> w[wmax] == Some(max as int),
            wmin < 0 ==> min == i16::MAX && forall|j: int| 0 <= j < i ==> v@[j] is None,
            wmax < 0 ==> max == i16::MIN && forall|j: int| 0 <= j < i ==> v@[j] is None,
            forall|j: int| 0 <= j < i && (#[trigger] w[j]) is Some ==> min <= w[j]->0 && w[j]->0 <= max,
        decreases v@.len() - i,
    {
        match v[i] {
            Some(x) => {
                if x < min {
                    min = x;
                    proof { wmin = i as int; }
                } else {
                    proof { if wmin < 0 { wmin = i as int; } }
                }
                if x > max {
                    max = x;
                    proof { wmax = i as int; }
                } else {
                    proof { if wmax < 0 { wmax = i as int; } }
                }
            },
            None => {},
        }
        i = i + 1;
    }
    proof {
        let k = choose|k: int| 0 <= k < v@.len() && v@[k] is Some;
        assert(w[k] is Some);
    }
    (min, max)
}

/// The entries of a `Int32` column as integers.
pub open spec fn widen_i32(v: Seq<Option<i32>>) -> Seq<Option<int>> {
    v.map_values(|o: Option<i32>| match o {
        Some(x) => Some(x as int),
        None => None,
    })
}

/// Least and greatest present entries of a `Int32` column.
fn min_max_i32(v: &Vec<Option<i32>>) -> (r: (i32, i32))
    requires
        has_some(v@),
    ensures
        is_least(widen_i32(v@), r.0 as int),
        is_greatest(widen_i32(v@), r.1 as int),
{
    let ghost w = widen_i32(v@);
    let mut min: i32 = i32::MAX;
    let mut max: i32 = i32::MIN;
    let ghost mut wmin: int = -1;
    let ghost mut wmax: int = -1;
    let mut i: usize = 0;
    while i < v.len()
        invariant
            i <= v@.len(),
            w == widen_i32(v@),
            -1 <= wmin < i,
            -1 <= wmax < i,
            wmin >= 0 ==> w[wmin] == Some(min as int),
            wmax >= 0 ==> w[wmax] == Some(max as int),
            wmin < 0 ==> min == i32::MAX && forall|j: int| 0 <= j < i ==> v@[j] is None,
            wmax < 0 ==> max == i32::MIN && forall|j: int| 0 <= j < i ==> v@[j] is None,
            forall|j: int| 0 <= j < i && (#[trigger] w[j]) is Some ==> min <= w[j]->0 && w[j]->0 <= max,
        decreases v@.len() - i,
    {
        match v[i] {
            Some(x) => {
                if x < min {
                    min = x;
                    proof { wmin = i as int; }
                } else {
                    proof { if wmin < 0 { wmin = i as int; } }
                }
                if x > max {
                    max = x;
                    proof { wmax = i as int; }
                } else {
                    proof { if wmax < 0 { wmax = i as int; } }
                }
            },
            None => {},
        }
        i = i + 1;
    }
    proof {
        let k = choose|k: int| 0 <= k < v@.len() && v@[k] is Some;
        assert(w[k] is Some);
    }
    (min, max)
}

/// The entries of a `Int64` column as integers.
pub open spec fn widen_i64(v: Seq<Option<i64>>) -> Seq<Option<int>> {
    v.map_values(|o: Option<i64>| match o {
        Some(x) => Some(x as int),
        None => None,
    })
}

/// Least and greatest present entries of a `Int64` column.
fn min_max_i64(v: &Vec<Option<i64>>) -> (r: (i64, i64))
    requires
        has_some(v@),
    ensures
        is_least(widen_i64(v@), r.0 as int),
        is_greatest(widen_i64(v@), r.1 as int),
{
    let ghost w = widen_i64(v@);
    let mut min: i64 = i64::MAX;
    let mut max: i64 = i64::MIN;
    let ghost mut wmin: int = -1;
    let ghost mut wmax: int = -1;
    let mut i: usize = 0;
    while i < v.len()
        invariant
            i <= v@.len(),
            w == widen_i64(v@),
            -1 <= wmin < i,
            -1 <= wmax < i,
            wmin >= 0 ==> w[wmin] == Some(min as int),
            wmax >= 0 ==> w[wmax] == Some(max as int),
            wmin < 0 ==> min == i64::MAX && forall|j: int| 0 <= j < i ==> v@[j] is None,
            wmax < 0 ==> max == i64::MIN && forall|j: int| 0 <= j < i ==> v@[j] is None,
            forall|j: int| 0 <= j < i && (#[trigger] w[j]) is Some ==> min <= w[j]->0 && w[j]->0 <= max,
        decreases v@.len() - i,
    {
        match v[i] {
            Some(x) => {
                if x < min {
                    min = x;
                    proof { wmin = i as int; }
                } else {
                    proof { if wmin < 0 { wmin = i as int; } }
                }
                if x > max {
                    max = x;
                    proof { wmax = i as int; }
                } else {
                    proof { if wmax < 0 { wmax = i as int; } }
                }
            },
            None => {},
        }
        i = i + 1;
    }
    proof {
        let k = choose|k: int| 0 <= k < v@.len() && v@[k] is Some;
        assert(w[k] is Some);
    }
    (min, max)
}

/// The entries of a `UInt8` column as integers.
pub open spec fn widen_u8(v: Seq<Option<u8>>) -> Seq<Option<int>> {
    v.map_values(|o: Option<u8>| match o {
        Some(x) => Some(x as int),
        None => None,
    })
}

/// Least and greatest present entries of a `UInt8` column.
fn min_max_u8(v: &Vec<Option<u8>>) -> (r: (u8, u8))
    requires
        has_some(v@),
    ensures
        is_least(widen_u8(v@), r.0 as int),
        is_greatest(widen_u8(v@), r.1 as int),
{
    let ghost w = widen_u8(v@);
    let mut min: u8 = u8::MAX;
    let mut max: u8 = u8::MIN;
    let ghost mut wmin: int = -1;
    let ghost mut wmax: int = -1;
    let mut i: usize = 0;
    while i < v.len()
        invariant
            i <= v@.len(),
            w == widen_u8(v@),
            -1 <= wmin < i,
            -1 <= wmax < i,
            wmin >= 0 ==> w[wmin] == Some(min as int),
            wmax >= 0 ==> w[wmax] == Some(max as int),
            wmin < 0 ==> min == u8::MAX && forall|j: int| 0 <= j < i ==> v@[j] is None,
            wmax < 0 ==> max == u8::MIN && forall|j: int| 0 <= j < i ==> v@[j] is None,
            forall|j: int| 0 <= j < i && (#[trigger] w[j]) is Some ==> min <= w[j]->0 && w[j]->0 <= max,
        decreases v@.len() - i,
    {
        match v[i] {
            Some(x) => {
                if x < min {
                    min = x;
                    proof { wmin = i as int; }
                } else {
                    proof { if wmin < 0 { wmin = i as int; } }
                }
                if x > max {
                    max = x;
                    proof { wmax = i as int; }
                } else {
                    proof { if wmax < 0 { wmax = i as int; } }
                }
            },
            None => {},
        }
        i = i + 1;
    }
    proof {
        let k = choose|k: int| 0 <= k < v@.len() && v@[k] is Some;
        assert(w[k] is Some);
    }
    (min, max)
}

/// The entries of a `UInt16` column as integers.
pub open spec fn widen_u16(v: Seq<Option<u16>>) -> Seq<Option<int>> {
    v.map_values(|o: Option<u16>| match o {
        Some(x) => Some(x as int),
        None => None,
    })
}

/// Least and greatest present entries of a `UInt16` column.
fn min_max_u16(v: &Vec<Option<u16>>) -> (r: (u16, u16))
    requires
        has_some(v@),
    ensures
        is_least(widen_u16(v@), r.0 as int),
        is_greatest(widen_u16(v@), r.1 as int),
{
    let ghost w = widen_u16(v@);
    let mut min: u16 = u16::MAX;
    let mut max: u16 = u16::MIN;
    let ghost mut wmin: int = -1;
    let ghost mut wmax: int = -1;
    let mut i: usize = 0;
    while i < v.len()
        invariant
            i <= v@.len(),
            w == widen_u16(v@),
            -1 <= wmin < i,
            -1 <= wmax < i,
            wmin >= 0 ==> w[wmin] == Some(min as int),
            wmax >= 0 ==> w[wmax] == Some(max as int),
            wmin < 0 ==> min == u16::MAX && forall|j: int| 0 <= j < i ==> v@[j] is None,
            wmax < 0 ==> max == u16::MIN && forall|j: int| 0 <= j < i ==> v@[j] is None,
            forall|j: int| 0 <= j < i && (#[trigger] w[j]) is Some ==> min <= w[j]->0 && w[j]->0 <= max,
        decreases v@.len() - i,
    {
        match v[i] {
            Some(x) => {
                if x < min {
                    min = x;
                    proof { wmin = i as int; }
                } else {
                    proof { if wmin < 0 { wmin = i as int; } }
                }
                if x > max {
                    max = x;
                    proof { wmax = i as int; }
                } else {
                    proof { if wmax < 0 { wmax = i as int; } }
                }
            },
            None => {},
        }
        i = i + 1;
    }
    proof {
        let k = choose|k: int| 0 <= k < v@.len() && v@[k] is Some;
        assert(w[k] is Some);
    }
    (min, max)
}

/// The entries of a `UInt32` column as integers.
pub open spec fn widen_u32(v: Seq<Option<u32>>) -> Seq<Option<int>> {
    v.map_values(|o: Option<u32>| match o {
        Some(x) => Some(x as int),
        None => None,
    })
}

/// Least and greatest present entries of a `UInt32` column.
fn min_max_u32(v: &Vec<Option<u32>>) -> (r: (u32, u32))
    requires
        has_some(v@),
    ensures
        is_least(widen_u32(v@), r.0 as int),
        is_greatest(widen_u32(v@), r.1 as int),
{
    let ghost w = widen_u32(v@);
    let mut min: u32 = u32::MAX;
    let mut max: u32 = u32::MIN;
    let ghost mut wmin: int = -1;
    let ghost mut wmax: int = -1;
    let mut i: usize = 0;
    while i < v.len()
        invariant
            i <= v@.len(),
            w == widen_u32(v@),
            -1 <= wmin < i,
            -1 <= wmax < i,
            wmin >= 0 ==> w[wmin] == Some(min as int),
            wmax >= 0 ==> w[wmax] == Some(max as int),
            wmin < 0 ==> min == u32::MAX && forall|j: int| 0 <= j < i ==> v@[j] is None,
            wmax < 0 ==> max == u32::MIN && forall|j: int| 0 <= j < i ==> v@[j] is None,
            forall|j: int| 0 <= j < i && (#[trigger] w[j]) is Some ==> min <= w[j]->0 && w[j]->0 <= max,
        decreases v@.len() - i,
    {
        match v[i] {
            Some(x) => {
                if x < min {
                    min = x;
                    proof { wmin = i as int; }
                } else {
                    proof { if wmin < 0 { wmin = i as int; } }
                }
                if x > max {
                    max = x;
                    proof { wmax = i as int; }
                } else {
                    proof { if wmax < 0 { wmax = i as int; } }
                }
            },
            None => {},
        }
        i = i + 1;
    }
    proof {
        let k = choose|k: int| 0 <= k < v@.len() && v@[k] is Some;
        assert(w[k] is Some);
    }
    (min, max)
}

/// The entries of a `UInt64` column as integers.
pub open spec fn widen_u64(v: Seq<Option<u64>>) -> Seq<Option<int>> {
    v.map_values(|o: Option<u64>| match o {
        Some(x) => Some(x as int),
        None => None,
    })
}

/// Least and greatest present entries of a `UInt64` column.
fn min_max_u64(v: &Vec<Option<u64>>) -> (r: (u64, u64))
    requires
        has_some(v@),
    ensures
        is_least(widen_u64(v@), r.0 as int),
        is_greatest(widen_u64(v@), r.1 as int),
{
    let ghost w = widen_u64(v@);
    let mut min: u64 = u64::MAX;
    let mut max: u64 = u64::MIN;
    let ghost mut wmin: int = -1;
    let ghost mut wmax: int = -1;
    let mut i: usize = 0;
    while i < v.len()
        invariant
            i <= v@.len(),
            w == widen_u64(v@),
            -1 <= wmin < i,
            -1 <= wmax < i,
            wmin >= 0 ==> w[wmin] == Some(min as int),
            wmax >= 0 ==> w[wmax] == Some(max as int),
            wmin < 0 ==> min == u64::MAX && forall|j: int| 0 <= j < i ==> v@[j] is None,
            wmax < 0 ==> max == u64::MIN && forall|j: int| 0 <= j < i ==> v@[j] is None,
            forall|j: int| 0 <= j < i && (#[trigger] w[j]) is Some ==> min <= w[j]->0 && w[j]->0 <= max,
        decreases v@.len() - i,
    {
        match v[i] {
            Some(x) => {
                if x < min {
                    min = x;
                    proof { wmin = i as int; }
                } else {
                    proof { if wmin < 0 { wmin = i as int; } }
                }
                if x > max {
                    max = x;
                    proof { wmax = i as int; }
                } else {
                    proof { if wmax < 0 { wmax = i as int; } }
                }
            },
            None => {},
        }
        i = i + 1;
    }
    proof {
        let k = choose|k: int| 0 <= k < v@.len() && v@[k] is Some;
        assert(w[k] is Some);
    }
    (min, max)
}

/// The character views of optional strings.
pub open spec fn opt_texts(v: Seq<Option<String>>) -> Seq<Option<Seq<char>>> {
    v.map_values(|o: Option<String>| match o {
        Some(x) => Some(x@),
        None => None,
    })
}

/// Least and greatest present entries of a text column, in code-point order; the first
/// occurrence is kept on ties.
fn min_max_text(v: &Vec<Option<String>>) -> (r: (Option<String>, Option<String>))
    ensures
        !has_some(v@) ==> r.0 is None && r.1 is None,
        has_some(v@) ==> (r.0 matches Some(m) && is_least_text(opt_texts(v@), m@)),
        has_some(v@) ==> (r.1 matches Some(m) && is_greatest_text(opt_texts(v@), m@)),
{
    let ghost w = opt_texts(v@);
    let mut min: Option<String> = None;
    let mut max: Option<String> = None;
    let mut i: usize = 0;
    while i < v.len()
        invariant
            i <= v@.len(),
            w == opt_texts(v@),
            min is None ==> forall|j: int| 0 <= j < i ==> v@[j] is None,
            max is None ==> forall|j: int| 0 <= j < i ==> v@[j] is None,
            min matches Some(m) ==> (exists|j: int| 0 <= j < i && w[j] == Some(m@)),
            max matches Some(m) ==> (exists|j: int| 0 <= j < i && w[j] == Some(m@)),
            min matches Some(m) ==> forall|j: int| 0 <= j < i && (#[trigger] w[j]) is Some ==> !text_lt(w[j]->0, m@),
            max matches Some(m) ==> forall|j: int| 0 <= j < i && (#[trigger] w[j]) is Some ==> !text_lt(m@, w[j]->0),
        decreases v@.len() - i,
    {
        match &v[i] {
            Some(x) => {
                assert(w[i as int] == Some(x@));
                let take_min = match &min {
                    None => true,
                    Some(m) => text_less(x, m),
                };
                if take_min {
                    proof {
                        lemma_text_lt_irreflexive(x@);
                        if let Some(m) = min {
                            assert forall|j: int| 0 <= j < i && (#[trigger] w[j]) is Some implies !text_lt(w[j]->0, x@) by {
                                if text_lt(w[j]->0, x@) {
                                    lemma_text_lt_transitive(w[j]->0, x@, m@);
                                }
                            }
                        }
                    }
                    min = Some(x.clone());
                } else {
                    proof {
                        let m = min->0;
                        lemma_text_lt_asymmetric(x@, m@);
                    }
                }
                let take_max = match &max {
                    None => true,
                    Some(m) => text_less(m, x),
                };
                if take_max {
                    proof {
                        lemma_text_lt_irreflexive(x@);
                        if let Some(m) = max {
                            assert forall|j: int| 0 <= j < i && (#[trigger] w[j]) is Some implies !text_lt(x@, w[j]->0) by {
                                if text_lt(x@, w[j]->0) {
                                    lemma_text_lt_transitive(m@, x@, w[j]->0);
                                }
                            }
                        }
                    }
                    max = Some(x.clone());
                }
            },
            None => {},
        }
        i = i + 1;
    }
    proof {
        if has_some(v@) {
            let k = choose|k: int| 0 <= k < v@.len() && v@[k] is Some;
            assert(w[k] is Some);
        }
    }
    (min, max)
}

/// Number of missing entries of a column.
fn count_missing<T>(v: &Vec<Option<T>>) -> (r: usize)
    ensures
        r == count_none(v@),
{
    let mut n: usize = 0;
    let mut i: usize = 0;
    while i < v.len()
        invariant
            i <= v@.len(),
            n == count_none(v@.take(i as int)),
            n <= i,
        decreases v@.len() - i,
    {
        assert(v@.take(i + 1).drop_last() =~= v@.take(i as int));
        if v[i].is_none() {
            n = n + 1;
        }
        i = i + 1;
    }
    assert(v@.take(v@.len() as int) =~= v@);
    n
}

/// The view of a scalar: strings by their characters.
pub enum ScalarView {
    Null,
    Boolean(bool),
    Int8(i8),
    Int16(i16),
    Int32(i32),
    Int64(i64),
    UInt8(u8),
    UInt16(u16),
    UInt32(u32),
    UInt64(u64),
    Utf8(Seq<char>),
    Date32(i32),
    TimestampMicros(i64, Option<Seq<char>>),
}

impl View for CanonicalScalar {
    type V = ScalarView;

    open spec fn view(&self) -> ScalarView {
        match self {
            CanonicalScalar::Null => ScalarView::Null,
            CanonicalScalar::Boolean(b) => ScalarView::Boolean(*b),
            CanonicalScalar::Int8(x) => ScalarView::Int8(*x),
            CanonicalScalar::Int16(x) => ScalarView::Int16(*x),
            CanonicalScalar::Int32(x) => ScalarView::Int32(*x),
            CanonicalScalar::Int64(x) => ScalarView::Int64(*x),
            CanonicalScalar::UInt8(x) => ScalarView::UInt8(*x),
            CanonicalScalar::UInt16(x) => ScalarView::UInt16(*x),
            CanonicalScalar::UInt32(x) => ScalarView::UInt32(*x),
            CanonicalScalar::UInt64(x) => ScalarView::UInt64(*x),
            CanonicalScalar::Utf8(s) => ScalarView::Utf8(s@),
            CanonicalScalar::Date32(x) => ScalarView::Date32(*x),
            CanonicalScalar::TimestampMicros(x, tz) => ScalarView::TimestampMicros(*x, match tz {
                Some(t) => Some(t@),
                None => None,
            }),
        }
    }
}

/// The view of an optional scalar.
pub open spec fn opt_scalar(o: Option<CanonicalScalar>) -> Option<ScalarView> {
    match o {
        Some(x) => Some(x@),
        None => None,
    }
}

/// The least entry of an integer sequence with a present entry.
pub open spec fn least_of(s: Seq<Option<int>>) -> int {
    choose|m: int| is_least(s, m)
}

/// The greatest entry of an integer sequence with a present entry.
pub open spec fn greatest_of(s: Seq<Option<int>>) -> int {
    choose|m: int| is_greatest(s, m)
}

/// The least entry of a text sequence with a present entry.
pub open spec fn least_text_of(s: Seq<Option<Seq<char>>>) -> Seq<char> {
    choose|m: Seq<char>| is_least_text(s, m)
}

/// The greatest entry of a text sequence with a present entry.
pub open spec fn greatest_text_of(s: Seq<Option<Seq<char>>>) -> Seq<char> {
    choose|m: Seq<char>| is_greatest_text(s, m)
}

/// The least and greatest value of one batch column; `None` when the column has no
/// present entry or is not read by the profiler.
pub open spec fn column_min_max(c: ColumnValues) -> (Option<ScalarView>, Option<ScalarView>) {
    match c {
        ColumnValues::Int8(v) => if has_some(v@) {
            (Some(ScalarView::Int8(least_of(widen_i8(v@)) as i8)), Some(ScalarView::Int8(greatest_of(widen_i8(v@)) as i8)))
        } else {
            (None, None)
        },
        ColumnValues::Int16(v) => if has_some(v@) {
            (Some(ScalarView::Int16(least_of(widen_i16(v@)) as i16)), Some(ScalarView::Int16(greatest_of(widen_i16(v@)) as i16)))
        } else {
            (None, None)
        },
        ColumnValues::Int32(v) => if has_some(v@) {
            (Some(ScalarView::Int32(least_of(widen_i32(v@)) as i32)), Some(ScalarView::Int32(greatest_of(widen_i32(v@)) as i32)))
        } else {
            (None, None)
        },
        ColumnValues::Int64(v) => if has_some(v@) {
            (Some(ScalarView::Int64(least_of(widen_i64(v@)) as i64)), Some(ScalarView::Int64(greatest_of(widen_i64(v@)) as i64)))
        } else {
            (None, None)
        },
        ColumnValues::UInt8(v) => if has_some(v@) {
            (Some(ScalarView::UInt8(least_of(widen_u8(v@)) as u8)), Some(ScalarView::UInt8(greatest_of(widen_u8(v@)) as u8)))
        } else {
            (None, None)
        },
        ColumnValues::UInt16(v) => if has_some(v@) {
            (Some(ScalarView::UInt16(least_of(widen_u16(v@)) as u16)), Some(ScalarView::UInt16(greatest_of(widen_u16(v@)) as u16)))
        } else {
            (None, None)
        },
        ColumnValues::UInt32(v) => if has_some(v@) {
            (Some(ScalarView::UInt32(least_of(widen_u32(v@)) as u32)), Some(ScalarView::UInt32(greatest_of(widen_u32(v@)) as u32)))
        } else {
            (None, None)
        },
        ColumnValues::UInt64(v) => if has_some(v@) {
            (Some(ScalarView::UInt64(least_of(widen_u64(v@)) as u64)), Some(ScalarView::UInt64(greatest_of(widen_u64(v@)) as u64)))
        } else {
            (None, None)
        },
        ColumnValues::Utf8(v) => if has_some(v@) {
            (Some(ScalarView::Utf8(least_text_of(opt_texts(v@)))), Some(ScalarView::Utf8(greatest_text_of(opt_texts(v@)))))
        } else {
            (None, None)
        },
        ColumnValues::Opaque { .. } => (None, None),
    }
}

/// Number of null entries of a batch column.
pub open spec fn column_nulls(c: ColumnValues) -> nat {
    match c {
        ColumnValues::Int8(v) => count_none(v@),
        ColumnValues::Int16(v) => count_none(v@),
        ColumnValues::Int32(v) => count_none(v@),
        ColumnValues::Int64(v) => count_none(v@),
        ColumnValues::UInt8(v) => count_none(v@),
        ColumnValues::UInt16(v) => count_none(v@),
        ColumnValues::UInt32(v) => count_none(v@),
        ColumnValues::UInt64(v) => count_none(v@),
        ColumnValues::Utf8(v) => count_none(v@),
        ColumnValues::Opaque { null_count, .. } => null_count as nat,
    }
}

impl ColumnValues {
    /// Number of null entries.
    pub fn null_count(&self) -> (r: usize)
        ensures
            r == column_nulls(*self),
    {
        match self {
            ColumnValues::Int8(v) => count_missing(v),
            ColumnValues::Int16(v) => count_missing(v),
            ColumnValues::Int32(v) => count_missing(v),
            ColumnValues::Int64(v) => count_missing(v),
            ColumnValues::UInt8(v) => count_missing(v),
            ColumnValues::UInt16(v) => count_missing(v),
            ColumnValues::UInt32(v) => count_missing(v),
            ColumnValues::UInt64(v) => count_missing(v),
            ColumnValues::Utf8(v) => count_missing(v),
            ColumnValues::Opaque { null_count, .. } => *null_count,
        }
    }
}

/// The least and greatest value of a batch column (for integer and text columns; other
/// columns and columns with no present entry give `(None, None)`).
pub fn extract_min_max(c: &ColumnValues) -> (r: (Option<CanonicalScalar>, Option<CanonicalScalar>))
    ensures
        (opt_scalar(r.0), opt_scalar(r.1)) == column_min_max(*c),
{
    match c {
        ColumnValues::Int8(v) => {
            if v.len() == 0 || count_missing(v) == v.len() {
                proof {
                    if has_some(v@) {
                        let k = choose|k: int| 0 <= k < v@.len() && v@[k] is Some;
                        lemma_count_none_bound(v@, k);
                    }
                }
                (None, None)
            } else {
                proof { lemma_some_when_fewer_missing(v@); }
                let (lo, hi) = min_max_i8(v);
                proof {
                    let w = widen_i8(v@);
                    lemma_least_unique(w, lo as int, least_of(w));
                    lemma_greatest_unique(w, hi as int, greatest_of(w));
                }
                (Some(CanonicalScalar::Int8(lo)), Some(CanonicalScalar::Int8(hi)))
            }
        },
        ColumnValues::Int16(v) => {
            if v.len() == 0 || count_missing(v) == v.len() {
                proof {
                    if has_some(v@) {
                        let k = choose|k: int| 0 <= k < v@.len() && v@[k] is Some;
                        lemma_count_none_bound(v@, k);
                    }
                }
                (None, None)
            } else {
                proof { lemma_some_when_fewer_missing(v@); }
                let (lo, hi) = min_max_i16(v);
                proof {
                    let w = widen_i16(v@);
                    lemma_least_unique(w, lo as int, least_of(w));
                    lemma_greatest_unique(w, hi as int, greatest_of(w));
                }
                (Some(CanonicalScalar::Int16(lo)), Some(CanonicalScalar::Int16(hi)))
            }
        },
        ColumnValues::Int32(v) => {
            if v.len() == 0 || count_missing(v) == v.len() {
                proof {
                    if has_some(v@) {
                        let k = choose|k: int| 0 <= k < v@.len() && v@[k] is Some;
                        lemma_count_none_bound(v@, k);
                    }
                }
                (None, None)
            } else {
                proof { lemma_some_when_fewer_missing(v@); }
                let (lo, hi) = min_max_i32(v);
                proof {
                    let w = widen_i32(v@);
                    lemma_least_unique(w, lo as int, least_of(w));
                    lemma_greatest_unique(w, hi as int, greatest_of(w));
                }
                (Some(CanonicalScalar::Int32(lo)), Some(CanonicalScalar::Int32(hi)))
            }
        },
        ColumnValues::Int64(v) => {
            if v.len() == 0 || count_missing(v) == v.len() {
                proof {
                    if has_some(v@) {
                        let k = choose|k: int| 0 <= k < v@.len() && v@[k] is Some;
                        lemma_count_none_bound(v@, k);
                    }
                }
                (None, None)
            } else {
                proof { lemma_some_when_fewer_missing(v@); }
                let (lo, hi) = min_max_i64(v);
                proof {
                    let w = widen_i64(v@);
                    lemma_least_unique(w, lo as int, least_of(w));
                    lemma_greatest_unique(w, hi as int, greatest_of(w));
                }
                (Some(CanonicalScalar::Int64(lo)), Some(CanonicalScalar::Int64(hi)))
            }
        },
        ColumnValues::UInt8(v) => {
            if v.len() == 0 || count_missing(v) == v.len() {
                proof {
                    if has_some(v@) {
                        let k = choose|k: int| 0 <= k < v@.len() && v@[k] is Some;
                        lemma_count_none_bound(v@, k);
                    }
                }
                (None, None)
            } else {
                proof { lemma_some_when_fewer_missing(v@); }
                let (lo, hi) = min_max_u8(v);
                proof {
                    let w = widen_u8(v@);
                    lemma_least_unique(w, lo as int, least_of(w));
                    lemma_greatest_unique(w, hi as int, greatest_of(w));
                }
                (Some(CanonicalScalar::UInt8(lo)), Some(CanonicalScalar::UInt8(hi)))
            }
        },
        ColumnValues::UInt16(v) => {
            if v.len() == 0 || count_missing(v) == v.len() {
                proof {
                    if has_some(v@) {
                        let k = choose|k: int| 0 <= k < v@.len() && v@[k] is Some;
                        lemma_count_none_bound(v@, k);
                    }
                }
                (None, None)
            } else {
                proof { lemma_some_when_fewer_missing(v@); }
                let (lo, hi) = min_max_u16(v);
                proof {
                    let w = widen_u16(v@);
                    lemma_least_unique(w, lo as int, least_of(w));
                    lemma_greatest_unique(w, hi as int, greatest_of(w));
                }
                (Some(CanonicalScalar::UInt16(lo)), Some(CanonicalScalar::UInt16(hi)))
            }
        },
        ColumnValues::UInt32(v) => {
            if v.len() == 0 || count_missing(v) == v.len() {
                proof {
                    if has_some(v@) {
                        let k = choose|k: int| 0 <= k < v@.len() && v@[k] is Some;
                        lemma_count_none_bound(v@, k);
                    }
                }
                (None, None)
            } else {
                proof { lemma_some_when_fewer_missing(v@); }
                let (lo, hi) = min_max_u32(v);
                proof {
                    let w = widen_u32(v@);
                    lemma_least_unique(w, lo as int, least_of(w));
                    lemma_greatest_unique(w, hi as int, greatest_of(w));
                }
                (Some(CanonicalScalar::UInt32(lo)), Some(CanonicalScalar::UInt32(hi)))
            }
        },
        ColumnValues::UInt64(v) => {
            if v.len() == 0 || count_missing(v) == v.len() {
                proof {
                    if has_some(v@) {
                        let k = choose|k: int| 0 <= k < v@.len() && v@[k] is Some;
                        lemma_count_none_bound(v@, k);
                    }
                }
                (None, None)
            } else {
                proof { lemma_some_when_fewer_missing(v@); }
                let (lo, hi) = min_max_u64(v);
                proof {
                    let w = widen_u64(v@);
                    lemma_least_unique(w, lo as int, least_of(w));
                    lemma_greatest_unique(w, hi as int, greatest_of(w));
                }
                (Some(CanonicalScalar::UInt64(lo)), Some(CanonicalScalar::UInt64(hi)))
            }
        },
        ColumnValues::Utf8(v) => {
            let (lo, hi) = min_max_text(v);
            proof {
                if has_some(v@) {
                    let w = opt_texts(v@);
                    lemma_least_text_unique(w, lo->0@, least_text_of(w));
                    lemma_greatest_text_unique(w, hi->0@, greatest_text_of(w));
                }
            }
            let a = match lo {
                Some(x) => Some(CanonicalScalar::Utf8(x)),
                None => None,
            };
            let b = match hi {
                Some(x) => Some(CanonicalScalar::Utf8(x)),
                None => None,
            };
            (a, b)
        },
        ColumnValues::Opaque { .. } => (None, None),
    }
}

proof fn lemma_count_none_bound<A>(v: Seq<Option<A>>, k: int)
    requires
        0 <= k < v.len(),
        v[k] is Some,
    ensures
        count_none(v) < v.len(),
    decreases v.len(),
{
    lemma_count_none_le(v.drop_last());
    if k < v.len() - 1 {
        lemma_count_none_bound(v.drop_last(), k);
    }
}

proof fn lemma_count_none_le<A>(v: Seq<Option<A>>)
    ensures
        count_none(v) <= v.len(),
    decreases v.len(),
{
    if v.len() > 0 {
        lemma_count_none_le(v.drop_last());
    }
}

proof fn lemma_some_when_fewer_missing<A>(v: Seq<Option<A>>)
    requires
        count_none(v) != v.len(),
    ensures
        has_some(v),
    decreases v.len(),
{
    lemma_count_none_le(v.drop_last());
    if v.last() is Some {
        assert(v[v.len() - 1] is Some);
    } else {
        lemma_some_when_fewer_missing(v.drop_last());
        let k = choose|k: int| 0 <= k < v.drop_last().len() && v.drop_last()[k] is Some;
        assert(v[k] is Some);
    }
}

/// The integer kind of a scalar (numbered as `int_kind`), if it is an integer scalar of one
/// of the eight integer types.
pub open spec fn scalar_kind(s: ScalarView) -> Option<nat> {
    match s {
        ScalarView::Int8(_) => Some(0nat),
        ScalarView::Int16(_) => Some(1nat),
        ScalarView::Int32(_) => Some(2nat),
        ScalarView::Int64(_) => Some(3nat),
        ScalarView::UInt8(_) => Some(4nat),
        ScalarView::UInt16(_) => Some(5nat),
        ScalarView::UInt32(_) => Some(6nat),
        ScalarView::UInt64(_) => Some(7nat),
        _ => None,
    }
}

/// The value of an integer scalar (0 for other scalars).
pub open spec fn scalar_int(s: ScalarView) -> int {
    match s {
        ScalarView::Int8(x) => x as int,
        ScalarView::Int16(x) => x as int,
        ScalarView::Int32(x) => x as int,
        ScalarView::Int64(x) => x as int,
        ScalarView::UInt8(x) => x as int,
        ScalarView::UInt16(x) => x as int,
        ScalarView::UInt32(x) => x as int,
        ScalarView::UInt64(x) => x as int,
        _ => 0,
    }
}

/// How a running least value absorbs the least value of one more batch: two integers of
/// the same type give the smaller, two texts the earlier; otherwise the value already held
/// is kept.
pub open spec fn min_update(c: Option<ScalarView>, n: Option<ScalarView>) -> Option<ScalarView> {
    match c {
        None => n,
        Some(cv) => match n {
            None => c,
            Some(nv) => if scalar_kind(cv) is Some && scalar_kind(cv) == scalar_kind(nv) {
                if scalar_int(nv) < scalar_int(cv) { n } else { c }
            } else if cv is Utf8 && nv is Utf8 {
                if text_lt(nv->Utf8_0, cv->Utf8_0) { n } else { c }
            } else {
                c
            },
        },
    }
}

/// How a running greatest value absorbs the greatest value of one more batch.
pub open spec fn max_update(c: Option<ScalarView>, n: Option<ScalarView>) -> Option<ScalarView> {
    match c {
        None => n,
        Some(cv) => match n {
            None => c,
            Some(nv) => if scalar_kind(cv) is Some && scalar_kind(cv) == scalar_kind(nv) {
                if scalar_int(cv) < scalar_int(nv) { n } else { c }
            } else if cv is Utf8 && nv is Utf8 {
                if text_lt(cv->Utf8_0, nv->Utf8_0) { n } else { c }
            } else {
                c
            },
        },
    }
}

/// Combines a running least value with the least value of one more batch.
pub fn update_min(current: Option<CanonicalScalar>, new_val: Option<CanonicalScalar>) -> (r: Option<CanonicalScalar>)
    ensures
        opt_scalar(r) == min_update(opt_scalar(current), opt_scalar(new_val)),
{
    match current {
        None => new_val,
        Some(c) => match new_val {
            None => Some(c),
            Some(n) => match (c, n) {
                (CanonicalScalar::Int8(a), CanonicalScalar::Int8(b)) => Some(CanonicalScalar::Int8(if b < a { b } else { a })),
                (CanonicalScalar::Int16(a), CanonicalScalar::Int16(b)) => Some(CanonicalScalar::Int16(if b < a { b } else { a })),
                (CanonicalScalar::Int32(a), CanonicalScalar::Int32(b)) => Some(CanonicalScalar::Int32(if b < a { b } else { a })),
                (CanonicalScalar::Int64(a), CanonicalScalar::Int64(b)) => Some(CanonicalScalar::Int64(if b < a { b } else { a })),
                (CanonicalScalar::UInt8(a), CanonicalScalar::UInt8(b)) => Some(CanonicalScalar::UInt8(if b < a { b } else { a })),
                (CanonicalScalar::UInt16(a), CanonicalScalar::UInt16(b)) => Some(CanonicalScalar::UInt16(if b < a { b } else { a })),
                (CanonicalScalar::UInt32(a), CanonicalScalar::UInt32(b)) => Some(CanonicalScalar::UInt32(if b < a { b } else { a })),
                (CanonicalScalar::UInt64(a), CanonicalScalar::UInt64(b)) => Some(CanonicalScalar::UInt64(if b < a { b } else { a })),
                (CanonicalScalar::Utf8(a), CanonicalScalar::Utf8(b)) => {
                    if text_less(&b, &a) {
                        Some(CanonicalScalar::Utf8(b))
                    } else {
                        Some(CanonicalScalar::Utf8(a))
                    }
                },
                (c, _) => Some(c),
            },
        },
    }
}

/// Combines a running greatest value with the greatest value of one more batch.
pub fn update_max(current: Option<CanonicalScalar>, new_val: Option<CanonicalScalar>) -> (r: Option<CanonicalScalar>)
    ensures
        opt_scalar(r) == max_update(opt_scalar(current), opt_scalar(new_val)),
{
    match current {
        None => new_val,
        Some(c) => match new_val {
            None => Some(c),
            Some(n) => match (c, n) {
                (CanonicalScalar::Int8(a), CanonicalScalar::Int8(b)) => Some(CanonicalScalar::Int8(if a < b { b } else { a })),
                (CanonicalScalar::Int16(a), CanonicalScalar::Int16(b)) => Some(CanonicalScalar::Int16(if a < b { b } else { a })),
                (CanonicalScalar::Int32(a), CanonicalScalar::Int32(b)) => Some(CanonicalScalar::Int32(if a < b { b } else { a })),
                (CanonicalScalar::Int64(a), CanonicalScalar::Int64(b)) => Some(CanonicalScalar::Int64(if a < b { b } else { a })),
                (CanonicalScalar::UInt8(a), CanonicalScalar::UInt8(b)) => Some(CanonicalScalar::UInt8(if a < b { b } else { a })),
                (CanonicalScalar::UInt16(a), CanonicalScalar::UInt16(b)) => Some(CanonicalScalar::UInt16(if a < b { b } else { a })),
                (CanonicalScalar::UInt32(a), CanonicalScalar::UInt32(b)) => Some(CanonicalScalar::UInt32(if a < b { b } else { a })),
                (CanonicalScalar::UInt64(a), CanonicalScalar::UInt64(b)) => Some(CanonicalScalar::UInt64(if a < b { b } else { a })),
                (CanonicalScalar::Utf8(a), CanonicalScalar::Utf8(b)) => {
                    if text_less(&a, &b) {
                        Some(CanonicalScalar::Utf8(b))
                    } else {
                        Some(CanonicalScalar::Utf8(a))
                    }
                },
                (c, _) => Some(c),
            },
        },
    }
}

/// Least value of a column over a sequence of batches.
pub open spec fn fold_min(bs: Seq<ColumnValues>) -> Option<ScalarView>
    decreases bs.len(),
{
    if bs.len() == 0 {
        None
    } else {
        min_update(fold_min(bs.drop_last()), column_min_max(bs.last()).0)
    }
}

/// Greatest value of a column over a sequence of batches.
pub open spec fn fold_max(bs: Seq<ColumnValues>) -> Option<ScalarView>
    decreases bs.len(),
{
    if bs.len() == 0 {
        None
    } else {
        max_update(fold_max(bs.drop_last()), column_min_max(bs.last()).1)
    }
}

/// Null entries of a column over a sequence of batches.
pub open spec fn total_nulls(bs: Seq<ColumnValues>) -> nat
    decreases bs.len(),
{
    if bs.len() == 0 {
        0
    } else {
        total_nulls(bs.drop_last()) + column_nulls(bs.last())
    }
}

/// Summary statistics of one column over all batches.
#[derive(Debug)]
pub struct ColumnStats {
    pub name: String,
    pub data_type: String,
    pub total_count: u64,
    pub null_count: u64,
    pub min_value: Option<CanonicalScalar>,
    pub max_value: Option<CanonicalScalar>,
}

/// A detected quality rule violation.
#[derive(Debug, Clone, PartialEq, Eq)]
pub struct QualityViolation {
    pub rule_description: String,
    pub column: Option<String>,
    pub details: String,
}

/// Profiler of record batches.
pub struct DatasetProfiler;

proof fn lemma_total_nulls_prefix(bs: Seq<ColumnValues>, i: int)
    requires
        0 <= i <= bs.len(),
    ensures
        total_nulls(bs.take(i)) <= total_nulls(bs),
    decreases bs.len() - i,
{
    if i < bs.len() {
        lemma_total_nulls_prefix(bs, i + 1);
        assert(bs.take(i + 1).drop_last() =~= bs.take(i));
    } else {
        assert(bs.take(i) =~= bs);
    }
}

impl DatasetProfiler {
    /// Profiles one column given its slice in every batch: `total_rows` rows, the sum of
    /// the null counts, and the least and greatest values combined batch by batch.
    pub fn profile_column(name: &str, data_type: &str, batches: &Vec<ColumnValues>, total_rows: u64) -> (r: ColumnStats)
        requires
            total_nulls(batches@) <= u64::MAX,
        ensures
            r.name@ == name@,
            r.data_type@ == data_type@,
            r.total_count == total_rows,
            r.null_count == total_nulls(batches@),
            opt_scalar(r.min_value) == fold_min(batches@),
            opt_scalar(r.max_value) == fold_max(batches@),
    {
        let mut null_count: u64 = 0;
        let mut min_val: Option<CanonicalScalar> = None;
        let mut max_val: Option<CanonicalScalar> = None;
        let mut i: usize = 0;
        while i < batches.len()
            invariant
                i <= batches@.len(),
                total_nulls(batches@) <= u64::MAX,
                null_count == total_nulls(batches@.take(i as int)),
                opt_scalar(min_val) == fold_min(batches@.take(i as int)),
                opt_scalar(max_val) == fold_max(batches@.take(i as int)),
            decreases batches@.len() - i,
        {
            let col = &batches[i];
            proof {
                assert(batches@.take(i + 1).drop_last() =~= batches@.take(i as int));
                lemma_total_nulls_prefix(batches@, i + 1);
            }
            let n = col.null_count();
            null_count = null_count + n as u64;
            let (b_min, b_max) = extract_min_max(col);
            min_val = update_min(min_val, b_min);
            max_val = update_max(max_val, b_max);
            i = i + 1;
        }
        assert(batches@.take(batches@.len() as int) =~= batches@);
        ColumnStats {
            name: name.to_owned(),
            data_type: data_type.to_owned(),
            total_count: total_rows,
            null_count,
            min_value: min_val,
            max_value: max_val,
        }
    }

    /// The `MinRowCount` rule: violated when the dataset has fewer rows than required.
    pub fn check_min_row_count(row_count: u64, min_rows: u64) -> (r: Option<QualityViolation>)
        ensures
            r is Some <==> row_count < min_rows,
            r matches Some(v) ==> {
                &&& v.rule_description@ == "Minimum row count requirement of "@ + decimal(min_rows as nat)
                &&& v.column is None
                &&& v.details@ == "Dataset contains "@ + decimal(row_count as nat) + " rows, expected at least "@
                    + decimal(min_rows as nat)
            },
    {
        if row_count < min_rows {
            let m = u64_text(min_rows);
            let n = u64_text(row_count);
            let rule_description = concat2("Minimum row count requirement of ", &m);
            let d1 = concat2("Dataset contains ", &n);
            let d2 = concat2(&d1, " rows, expected at least ");
            let details = concat2(&d2, &m);
            Some(QualityViolation { rule_description, column: None, details })
        } else {
            None
        }
    }

    /// The column a rule names: the last column with that name (later columns shadow
    /// earlier ones of the same name), if any.
    pub fn find_column(cols: &Vec<ColumnStats>, name: &str) -> (r: Option<usize>)
        ensures
            match r {
                Some(i) => i < cols@.len() && cols@[i as int].name@ == name@ && forall|j: int|
                    i < j < cols@.len() ==> (#[trigger] cols@[j]).name@ != name@,
                None => forall|j: int| 0 <= j < cols@.len() ==> (#[trigger] cols@[j]).name@ != name@,
            },
    {
        let mut i: usize = cols.len();
        while i > 0
            invariant
                i <= cols@.len(),
                forall|j: int| i <= j < cols@.len() ==> (#[trigger] cols@[j]).name@ != name@,
            decreases i,
        {
            if same_text(&cols[i - 1].name, name) {
                return Some(i - 1);
            }
            i = i - 1;
        }
        None
    }

    /// The `NonEmptyColumn` rule: violated when the named column exists, has rows, and
    /// every entry is null. A rule naming no column is not violated.
    pub fn check_non_empty_column(cols: &Vec<ColumnStats>, column: &str) -> (r: Option<QualityViolation>)
        ensures
            r is Some <==> exists|i: int|
                0 <= i < cols@.len() && (#[trigger] cols@[i]).name@ == column@ && (forall|j: int|
                    i < j < cols@.len() ==> (#[trigger] cols@[j]).name@ != column@) && cols@[i].null_count
                    == cols@[i].total_count && cols@[i].total_count > 0,
            r matches Some(v) ==> {
                &&& v.rule_description@ == "Non-empty column requirement for '"@ + column@ + "'"@
                &&& v.column matches Some(c) && c@ == column@
                &&& v.details@ == "Column '"@ + column@ + "' is 100% null"@
            },
    {
        match Self::find_column(cols, column) {
            None => None,
            Some(i) => {
                let c = &cols[i];
                if c.null_count == c.total_count && c.total_count > 0 {
                    let a = concat2("Non-empty column requirement for '", column);
                    let rule_description = concat2(&a, "'");
                    let b = concat2("Column '", column);
                    let details = concat2(&b, "' is 100% null");
                    Some(QualityViolation { rule_description, column: Some(column.to_owned()), details })
                } else {
                    proof {
                        assert forall|k: int|
                            0 <= k < cols@.len() && (#[trigger] cols@[k]).name@ == column@ && (forall|j: int|
                                k < j < cols@.len() ==> (#[trigger] cols@[j]).name@ != column@) implies k == i by {
                            if k < i {
                                assert(cols@[i as int].name@ == column@);
                            }
                        }
                    }
                    None
                }
            },
        }
    }

    /// The violation reported for a `MaxNullPercentage` rule, given the rule's limit and
    /// the column's null percentage already printed (with one and two decimals).
    pub fn null_threshold_violation(column: &str, limit_text: &str, percentage_text: &str) -> (r: QualityViolation)
        ensures
            r.rule_description@ == "Max null threshold of "@ + limit_text@ + "% for column '"@ + column@ + "'"@,
            r.column matches Some(c) && c@ == column@,
            r.details@ == "Column '"@ + column@ + "' has "@ + percentage_text@ + "% nulls, exceeding limit of "@
                + limit_text@ + "%"@,
    {
        let a = concat2("Max null threshold of ", limit_text);
        let b = concat2(&a, "% for column '");
        let c = concat2(&b, column);
        let rule_description = concat2(&c, "'");
        let d = concat2("Column '", column);
        let e = concat2(&d, "' has ");
        let f = concat2(&e, percentage_text);
        let g = concat2(&f, "% nulls, exceeding limit of ");
        let h = concat2(&g, limit_text);
        let details = concat2(&h, "%");
        QualityViolation { rule_description, column: Some(column.to_owned()), details }
    }
}

/// The value of a violation: texts as character sequences.
pub struct ViolationView {
    pub rule_description: Seq<char>,
    pub column: Option<Seq<char>>,
    pub details: Seq<char>,
}

impl View for QualityViolation {
    type V = ViolationView;

    open spec fn view(&self) -> ViolationView {
        ViolationView {
            rule_description: self.rule_description@,
            column: match self.column {
                Some(c) => Some(c@),
                None => None,
            },
            details: self.details@,
        }
    }
}

/// A quality rule as the library checks it. The null-percentage comparison is floating
/// point, so a `MaxNullPercentage` rule arrives with it made: `exceeded` holds the named
/// column's printed null percentage when that column exists and exceeds the limit.
#[derive(Debug)]
pub enum RuleCheck {
    MinRowCount(u64),
    NonEmptyColumn(String),
    MaxNullPercentage { column: String, limit_text: String, exceeded: Option<String> },
}

/// Whether the last column named `column` has rows and only nulls.
pub open spec fn all_null_column(cols: Seq<ColumnStats>, column: Seq<char>) -> bool {
    exists|i: int|
        0 <= i < cols.len() && (#[trigger] cols[i]).name@ == column && (forall|j: int|
            i < j < cols.len() ==> (#[trigger] cols[j]).name@ != column) && cols[i].null_count
            == cols[i].total_count && cols[i].total_count > 0
}

/// The violation one rule reports, if any.
pub open spec fn rule_violation(row_count: u64, cols: Seq<ColumnStats>, rule: RuleCheck) -> Option<ViolationView> {
    match rule {
        RuleCheck::MinRowCount(min_rows) => if row_count < min_rows {
            Some(ViolationView {
                rule_description: "Minimum row count requirement of "@ + decimal(min_rows as nat),
                column: None,
                details: "Dataset contains "@ + decimal(row_count as nat) + " rows, expected at least "@
                    + decimal(min_rows as nat),
            })
        } else {
            None
        },
        RuleCheck::NonEmptyColumn(column) => if all_null_column(cols, column@) {
            Some(ViolationView {
                rule_description: "Non-empty column requirement for '"@ + column@ + "'"@,
                column: Some(column@),
                details: "Column '"@ + column@ + "' is 100% null"@,
            })
        } else {
            None
        },
        RuleCheck::MaxNullPercentage { column, limit_text, exceeded } => match exceeded {
            Some(p) => Some(ViolationView {
                rule_description: "Max null threshold of "@ + limit_text@ + "% for column '"@ + column@ + "'"@,
                column: Some(column@),
                details: "Column '"@ + column@ + "' has "@ + p@ + "% nulls, exceeding limit of "@ + limit_text@
                    + "%"@,
            }),
            None => None,
        },
    }
}

/// The violations of a list of rules, in the order of the rules.
pub open spec fn rules_violations(row_count: u64, cols: Seq<ColumnStats>, rules: Seq<RuleCheck>) -> Seq<ViolationView>
    decreases rules.len(),
{
    if rules.len() == 0 {
        seq![]
    } else {
        rules_violations(row_count, cols, rules.drop_last()) + match rule_violation(row_count, cols, rules.last()) {
            Some(v) => seq![v],
            None => seq![],
        }
    }
}

/// The violations of a list of rules are those of its parts, in order: checking `a` then
/// `b` reports what checking `a` reports, followed by what checking `b` reports.
pub proof fn law_rules_checked_in_order(row_count: u64, cols: Seq<ColumnStats>, a: Seq<RuleCheck>, b: Seq<RuleCheck>)
    ensures
        rules_violations(row_count, cols, a + b) == rules_violations(row_count, cols, a) + rules_violations(row_count, cols, b),
    decreases b.len(),
{
    if b.len() == 0 {
        assert(a + b =~= a);
        assert(rules_violations(row_count, cols, a) + rules_violations(row_count, cols, b) =~= rules_violations(row_count, cols, a));
    } else {
        assert((a + b).drop_last() =~= a + b.drop_last());
        assert((a + b).last() == b.last());
        law_rules_checked_in_order(row_count, cols, a, b.drop_last());
        let tail = match rule_violation(row_count, cols, b.last()) {
            Some(v) => seq![v],
            None => seq![],
        };
        assert(rules_violations(row_count, cols, a) + rules_violations(row_count, cols, b.drop_last()) + tail
            =~= rules_violations(row_count, cols, a) + (rules_violations(row_count, cols, b.drop_last()) + tail));
    }
}

proof fn lemma_single_rule(row_count: u64, cols: Seq<ColumnStats>, r: RuleCheck)
    ensures
        rules_violations(row_count, cols, seq![r]) == match rule_violation(row_count, cols, r) {
            Some(v) => seq![v],
            None => Seq::<ViolationView>::empty(),
        },
{
    let rules = seq![r];
    assert(rules.drop_last() =~= Seq::<RuleCheck>::empty());
    assert(rules.last() == r);
    assert(rules_violations(row_count, cols, rules.drop_last()) =~= Seq::<ViolationView>::empty());
    let tail = match rule_violation(row_count, cols, r) {
        Some(v) => seq![v],
        None => Seq::<ViolationView>::empty(),
    };
    assert(Seq::<ViolationView>::empty() + tail =~= tail);
}

/// A `NonEmptyColumn(c)` rule is decided by the last column named `c`: it reports one
/// violation, naming `c` and saying the column is 100% null, exactly when that column has
/// rows and every one of them is null; when no column is named `c` it reports nothing.
pub proof fn law_non_empty_column_rule(row_count: u64, cols: Seq<ColumnStats>, c: String, last: int)
    ensures
        ({
            let vs = rules_violations(row_count, cols, seq![RuleCheck::NonEmptyColumn(c)]);
            &&& (0 <= last < cols.len() && cols[last].name@ == c@ && (forall|j: int| last < j < cols.len() ==> (#[trigger] cols[j]).name@ != c@))
                ==> (vs.len() == 1 <==> (cols[last].total_count > 0 && cols[last].null_count == cols[last].total_count))
            &&& (forall|j: int| 0 <= j < cols.len() ==> (#[trigger] cols[j]).name@ != c@) ==> vs.len() == 0
            &&& vs.len() <= 1
            &&& vs.len() == 1 ==> {
                &&& vs[0].rule_description == "Non-empty column requirement for '"@ + c@ + "'"@
                &&& vs[0].column == Some(c@)
                &&& vs[0].details == "Column '"@ + c@ + "' is 100% null"@
            }
        }),
{
    lemma_single_rule(row_count, cols, RuleCheck::NonEmptyColumn(c));
    if 0 <= last < cols.len() && cols[last].name@ == c@ && (forall|j: int| last < j < cols.len() ==> (#[trigger] cols[j]).name@ != c@) {
        if all_null_column(cols, c@) {
            let i = choose|i: int|
                0 <= i < cols.len() && (#[trigger] cols[i]).name@ == c@ && (forall|j: int|
                    i < j < cols.len() ==> (#[trigger] cols[j]).name@ != c@) && cols[i].null_count
                    == cols[i].total_count && cols[i].total_count > 0;
            if i < last {
                assert(cols[last].name@ == c@);
            }
            if last < i {
                assert(cols[i].name@ == c@);
            }
        }
    }
}

/// A `MinRowCount(m)` rule reports one violation exactly when the dataset has fewer than
/// `m` rows.
pub proof fn law_min_row_count_rule(row_count: u64, cols: Seq<ColumnStats>, m: u64)
    ensures
        rules_violations(row_count, cols, seq![RuleCheck::MinRowCount(m)]).len() == if row_count < m { 1int } else { 0int },
        rules_violations(row_count, cols, seq![RuleCheck::MinRowCount(m)]).len() == 1 ==> {
            let v = rules_violations(row_count, cols, seq![RuleCheck::MinRowCount(m)])[0];
            &&& v.column is None
            &&& v.rule_description == "Minimum row count requirement of "@ + decimal(m as nat)
            &&& v.details == "Dataset contains "@ + decimal(row_count as nat) + " rows, expected at least "@ + decimal(m as nat)
        },
{
    lemma_single_rule(row_count, cols, RuleCheck::MinRowCount(m));
}

/// A `MaxNullPercentage` rule reports one violation, naming its column, exactly when the
/// comparison found the limit exceeded.
pub proof fn law_max_null_percentage_rule(row_count: u64, cols: Seq<ColumnStats>, column: String, limit_text: String, exceeded: Option<String>)
    ensures
        ({
            let vs = rules_violations(row_count, cols, seq![RuleCheck::MaxNullPercentage { column, limit_text, exceeded }]);
            &&& vs.len() == if exceeded is Some { 1int } else { 0int }
            &&& vs.len() == 1 ==> vs[0].column == Some(column@)
            &&& exceeded matches Some(p) ==> vs.len() == 1 && vs[0].rule_description == "Max null threshold of "@
                + limit_text@ + "% for column '"@ + column@ + "'"@ && vs[0].details == "Column '"@ + column@ + "' has "@
                + p@ + "% nulls, exceeding limit of "@ + limit_text@ + "%"@
        }),
{
    lemma_single_rule(row_count, cols, RuleCheck::MaxNullPercentage { column, limit_text, exceeded });
}

/// The values of a list of violations.
pub open spec fn violation_views(vs: Seq<QualityViolation>) -> Seq<ViolationView> {
    vs.map_values(|v: QualityViolation| v@)
}

impl DatasetProfiler {
    /// Checks the rules in order and lists the violations found, one per violated rule.
    pub fn evaluate_rules(row_count: u64, cols: &Vec<ColumnStats>, rules: &Vec<RuleCheck>) -> (r: Vec<QualityViolation>)
        ensures
            violation_views(r@) == rules_violations(row_count, cols@, rules@),
    {
        let mut out: Vec<QualityViolation> = Vec::new();
        let mut i: usize = 0;
        while i < rules.len()
            invariant
                i <= rules@.len(),
                violation_views(out@) == rules_violations(row_count, cols@, rules@.take(i as int)),
            decreases rules@.len() - i,
        {
            let ghost prev = out@;
            let found = match &rules[i] {
                RuleCheck::MinRowCount(min_rows) => Self::check_min_row_count(row_count, *min_rows),
                RuleCheck::NonEmptyColumn(column) => Self::check_non_empty_column(cols, column),
                RuleCheck::MaxNullPercentage { column, limit_text, exceeded } => match exceeded {
                    Some(p) => Some(Self::null_threshold_violation(column, limit_text, p)),
                    None => None,
                },
            };
            assert(match found {
                Some(v) => rule_violation(row_count, cols@, rules@[i as int]) == Some(v@),
                None => rule_violation(row_count, cols@, rules@[i as int]) is None,
            });
            match found {
                Some(v) => {
                    out.push(v);
                },
                None => {},
            }
            assert(rules@.take(i + 1).drop_last() =~= rules@.take(i as int));
            assert(violation_views(out@) =~= violation_views(prev) + match rule_violation(
                row_count,
                cols@,
                rules@[i as int],
            ) {
                Some(v) => seq![v],
                None => seq![],
            });
            i = i + 1;
        }
        assert(rules@.take(rules@.len() as int) =~= rules@);
        out
    }
}

/// The summary of all columns of a dataset.
#[derive(Debug)]
pub struct DatasetSummary {
    pub row_count: u64,
    pub column_count: usize,
    pub columns: Vec<ColumnStats>,
}

/// Sum of the row counts of the batches.
pub open spec fn rows_total(rows: Seq<usize>) -> nat
    decreases rows.len(),
{
    if rows.len() == 0 {
        0
    } else {
        rows_total(rows.drop_last()) + rows.last() as nat
    }
}

proof fn lemma_rows_total_prefix(rows: Seq<usize>, i: int)
    requires
        0 <= i <= rows.len(),
    ensures
        rows_total(rows.take(i)) <= rows_total(rows),
    decreases rows.len() - i,
{
    if i < rows.len() {
        lemma_rows_total_prefix(rows, i + 1);
        assert(rows.take(i + 1).drop_last() =~= rows.take(i));
    } else {
        assert(rows.take(i) =~= rows);
    }
}

impl DatasetProfiler {
    /// Profiles every column of a dataset: `columns[c][b]` is column `c` of batch `b`,
    /// `batch_rows[b]` the number of rows of batch `b`; column `c` is named `names[c]` and
    /// has the printed type `type_texts[c]`.
    pub fn profile_columns(
        names: &Vec<String>,
        type_texts: &Vec<String>,
        columns: &Vec<Vec<ColumnValues>>,
        batch_rows: &Vec<usize>,
    ) -> (r: DatasetSummary)
        requires
            names@.len() == type_texts@.len(),
            names@.len() == columns@.len(),
            rows_total(batch_rows@) <= u64::MAX,
            forall|c: int| 0 <= c < columns@.len() ==> total_nulls(#[trigger] columns@[c]@) <= u64::MAX,
        ensures
            r.row_count == rows_total(batch_rows@),
            r.column_count == names@.len(),
            r.columns@.len() == names@.len(),
            forall|c: int|
                0 <= c < names@.len() ==> {
                    &&& (#[trigger] r.columns@[c]).name@ == names@[c]@
                    &&& r.columns@[c].data_type@ == type_texts@[c]@
                    &&& r.columns@[c].total_count == rows_total(batch_rows@)
                    &&& r.columns@[c].null_count == total_nulls(columns@[c]@)
                    &&& opt_scalar(r.columns@[c].min_value) == fold_min(columns@[c]@)
                    &&& opt_scalar(r.columns@[c].max_value) == fold_max(columns@[c]@)
                },
    {
        let mut total: u64 = 0;
        let mut b: usize = 0;
        while b < batch_rows.len()
            invariant
                b <= batch_rows@.len(),
                rows_total(batch_rows@) <= u64::MAX,
                total == rows_total(batch_rows@.take(b as int)),
            decreases batch_rows@.len() - b,
        {
            proof {
                assert(batch_rows@.take(b + 1).drop_last() =~= batch_rows@.take(b as int));
                lemma_rows_total_prefix(batch_rows@, b + 1);
            }
            total = total + batch_rows[b] as u64;
            b = b + 1;
        }
        assert(batch_rows@.take(b as int) =~= batch_rows@);
        let mut out: Vec<ColumnStats> = Vec::new();
        let mut c: usize = 0;
        while c < names.len()
            invariant
                c <= names@.len(),
                names@.len() == type_texts@.len(),
                names@.len() == columns@.len(),
                total == rows_total(batch_rows@),
                forall|k: int| 0 <= k < columns@.len() ==> total_nulls(#[trigger] columns@[k]@) <= u64::MAX,
                out@.len() == c,
                forall|k: int|
                    0 <= k < c ==> {
                        &&& (#[trigger] out@[k]).name@ == names@[k]@
                        &&& out@[k].data_type@ == type_texts@[k]@
                        &&& out@[k].total_count == total
                        &&& out@[k].null_count == total_nulls(columns@[k]@)
                        &&& opt_scalar(out@[k].min_value) == fold_min(columns@[k]@)
                        &&& opt_scalar(out@[k].max_value) == fold_max(columns@[k]@)
                    },
            decreases names@.len() - c,
        {
            let s = Self::profile_column(&names[c], &type_texts[c], &columns[c], total);
            out.push(s);
            c = c + 1;
        }
        DatasetSummary { row_count: total, column_count: names.len(), columns: out }
    }
}

// ---------------------------------------------------------------- across batches

proof fn lemma_least_exists(s: Seq<Option<int>>)
    requires
        has_some(s),
    ensures
        exists|m: int| is_least(s, m),
        exists|m: int| is_greatest(s, m),
    decreases s.len(),
{
    let p = s.drop_last();
    if has_some(p) {
        lemma_least_exists(p);
        let a = choose|m: int| is_least(p, m);
        let b = choose|m: int| is_greatest(p, m);
        let ia = choose|i: int| 0 <= i < p.len() && p[i] == Some(a);
        let ib = choose|i: int| 0 <= i < p.len() && p[i] == Some(b);
        assert(s[ia] == Some(a));
        assert(s[ib] == Some(b));
        match s.last() {
            Some(x) => {
                let n = s.len() - 1;
                assert(s[n] == Some(x));
                if x < a {
                    assert forall|i: int| 0 <= i < s.len() && (#[trigger] s[i]) is Some implies x <= s[i]->0 by {
                        if i < n {
                            assert(p[i] == s[i]);
                        }
                    }
                    assert(is_least(s, x));
                } else {
                    assert forall|i: int| 0 <= i < s.len() && (#[trigger] s[i]) is Some implies a <= s[i]->0 by {
                        if i < n {
                            assert(p[i] == s[i]);
                        }
                    }
                    assert(is_least(s, a));
                }
                if x > b {
                    assert forall|i: int| 0 <= i < s.len() && (#[trigger] s[i]) is Some implies s[i]->0 <= x by {
                        if i < n {
                            assert(p[i] == s[i]);
                        }
                    }
                    assert(is_greatest(s, x));
                } else {
                    assert forall|i: int| 0 <= i < s.len() && (#[trigger] s[i]) is Some implies s[i]->0 <= b by {
                        if i < n {
                            assert(p[i] == s[i]);
                        }
                    }
                    assert(is_greatest(s, b));
                }
            },
            None => {
                assert forall|i: int| 0 <= i < s.len() && (#[trigger] s[i]) is Some implies a <= s[i]->0 && s[i]->0 <= b by {
                    assert(p[i] == s[i]);
                }
                assert(is_least(s, a));
                assert(is_greatest(s, b));
            },
        }
    } else {
        let k = choose|k: int| 0 <= k < s.len() && s[k] is Some;
        assert(k == s.len() - 1) by {
            if k < s.len() - 1 {
                assert(p[k] is Some);
            }
        }
        let x = s[k]->0;
        assert forall|i: int| 0 <= i < s.len() && (#[trigger] s[i]) is Some implies s[i]->0 == x by {
            if i < s.len() - 1 {
                assert(p[i] is Some);
            }
        }
        assert(is_least(s, x));
        assert(is_greatest(s, x));
    }
}

proof fn lemma_least_concat(a: Seq<Option<int>>, b: Seq<Option<int>>)
    ensures
        has_some(a) && has_some(b) ==> least_of(a + b) == if least_of(a) <= least_of(b) { least_of(a) } else { least_of(b) },
        has_some(a) && has_some(b) ==> greatest_of(a + b) == if greatest_of(a) >= greatest_of(b) { greatest_of(a) } else { greatest_of(b) },
        has_some(a) && !has_some(b) ==> least_of(a + b) == least_of(a) && greatest_of(a + b) == greatest_of(a),
        !has_some(a) && has_some(b) ==> least_of(a + b) == least_of(b) && greatest_of(a + b) == greatest_of(b),
{
    let s = a + b;
    if has_some(a) {
        lemma_least_exists(a);
    }
    if has_some(b) {
        lemma_least_exists(b);
    }
    let la = least_of(a);
    let lb = least_of(b);
    let ga = greatest_of(a);
    let gb = greatest_of(b);
    if has_some(a) || has_some(b) {
        let k = if has_some(a) {
            choose|k: int| 0 <= k < a.len() && a[k] is Some
        } else {
            let j = choose|j: int| 0 <= j < b.len() && b[j] is Some;
            assert(s[a.len() + j] == b[j]);
            a.len() + j
        };
        if has_some(a) {
            assert(s[k] == a[k]);
        }
        assert(has_some(s));
        lemma_least_exists(s);
    }
    if has_some(a) && has_some(b) {
        let m = if la <= lb { la } else { lb };
        let g = if ga >= gb { ga } else { gb };
        let ia = choose|i: int| 0 <= i < a.len() && a[i] == Some(la);
        let ib = choose|i: int| 0 <= i < b.len() && b[i] == Some(lb);
        let ja = choose|i: int| 0 <= i < a.len() && a[i] == Some(ga);
        let jb = choose|i: int| 0 <= i < b.len() && b[i] == Some(gb);
        assert(s[ia] == a[ia]);
        assert(s[a.len() + ib] == b[ib]);
        assert(s[ja] == a[ja]);
        assert(s[a.len() + jb] == b[jb]);
        assert forall|i: int| 0 <= i < s.len() && (#[trigger] s[i]) is Some implies m <= s[i]->0 && s[i]->0 <= g by {
            if i < a.len() {
                assert(a[i] == s[i]);
            } else {
                assert(b[i - a.len()] == s[i]);
            }
        }
        assert(is_least(s, m));
        assert(is_greatest(s, g));
        lemma_least_unique(s, m, least_of(s));
        lemma_greatest_unique(s, g, greatest_of(s));
    } else if has_some(a) {
        let ia = choose|i: int| 0 <= i < a.len() && a[i] == Some(la);
        let ja = choose|i: int| 0 <= i < a.len() && a[i] == Some(ga);
        assert(s[ia] == a[ia]);
        assert(s[ja] == a[ja]);
        assert forall|i: int| 0 <= i < s.len() && (#[trigger] s[i]) is Some implies la <= s[i]->0 && s[i]->0 <= ga by {
            if i < a.len() {
                assert(a[i] == s[i]);
            } else {
                assert(b[i - a.len()] == s[i]);
            }
        }
        assert(is_least(s, la));
        assert(is_greatest(s, ga));
        lemma_least_unique(s, la, least_of(s));
        lemma_greatest_unique(s, ga, greatest_of(s));
    } else if has_some(b) {
        let ib = choose|i: int| 0 <= i < b.len() && b[i] == Some(lb);
        let jb = choose|i: int| 0 <= i < b.len() && b[i] == Some(gb);
        assert(s[a.len() + ib] == b[ib]);
        assert(s[a.len() + jb] == b[jb]);
        assert forall|i: int| 0 <= i < s.len() && (#[trigger] s[i]) is Some implies lb <= s[i]->0 && s[i]->0 <= gb by {
            if i < a.len() {
                assert(a[i] == s[i]);
            } else {
                assert(b[i - a.len()] == s[i]);
            }
        }
        assert(is_least(s, lb));
        assert(is_greatest(s, gb));
        lemma_least_unique(s, lb, least_of(s));
        lemma_greatest_unique(s, gb, greatest_of(s));
    }
}

/// The integer kind of a batch column, numbered in the order Int8, Int16, Int32, Int64,
/// UInt8, UInt16, UInt32, UInt64; `None` for text and unread columns.
pub open spec fn int_kind(c: ColumnValues) -> Option<nat> {
    match c {
        ColumnValues::Int8(_) => Some(0nat),
        ColumnValues::Int16(_) => Some(1nat),
        ColumnValues::Int32(_) => Some(2nat),
        ColumnValues::Int64(_) => Some(3nat),
        ColumnValues::UInt8(_) => Some(4nat),
        ColumnValues::UInt16(_) => Some(5nat),
        ColumnValues::UInt32(_) => Some(6nat),
        ColumnValues::UInt64(_) => Some(7nat),
        _ => None,
    }
}

/// The entries of an integer batch column as integers (none for other columns).
pub open spec fn col_ints(c: ColumnValues) -> Seq<Option<int>> {
    match c {
        ColumnValues::Int8(v) => widen_i8(v@),
        ColumnValues::Int16(v) => widen_i16(v@),
        ColumnValues::Int32(v) => widen_i32(v@),
        ColumnValues::Int64(v) => widen_i64(v@),
        ColumnValues::UInt8(v) => widen_u8(v@),
        ColumnValues::UInt16(v) => widen_u16(v@),
        ColumnValues::UInt32(v) => widen_u32(v@),
        ColumnValues::UInt64(v) => widen_u64(v@),
        _ => seq![],
    }
}

/// Whether `x` is a value of integer kind `k`.
pub open spec fn fits_kind(k: nat, x: int) -> bool {
    if k == 0 {
        i8::MIN <= x <= i8::MAX
    } else if k == 1 {
        i16::MIN <= x <= i16::MAX
    } else if k == 2 {
        i32::MIN <= x <= i32::MAX
    } else if k == 3 {
        i64::MIN <= x <= i64::MAX
    } else if k == 4 {
        0 <= x <= u8::MAX
    } else if k == 5 {
        0 <= x <= u16::MAX
    } else if k == 6 {
        0 <= x <= u32::MAX
    } else {
        0 <= x <= u64::MAX
    }
}

/// The scalar of integer kind `k` holding `x`.
pub open spec fn int_scalar(k: nat, x: int) -> ScalarView {
    if k == 0 {
        ScalarView::Int8(x as i8)
    } else if k == 1 {
        ScalarView::Int16(x as i16)
    } else if k == 2 {
        ScalarView::Int32(x as i32)
    } else if k == 3 {
        ScalarView::Int64(x as i64)
    } else if k == 4 {
        ScalarView::UInt8(x as u8)
    } else if k == 5 {
        ScalarView::UInt16(x as u16)
    } else if k == 6 {
        ScalarView::UInt32(x as u32)
    } else {
        ScalarView::UInt64(x as u64)
    }
}

proof fn lemma_int_scalar(k: nat, x: int)
    requires
        k < 8,
        fits_kind(k, x),
    ensures
        scalar_kind(int_scalar(k, x)) == Some(k),
        scalar_int(int_scalar(k, x)) == x,
{
}

proof fn lemma_same_presence<A>(v: Seq<Option<A>>, w: Seq<Option<int>>)
    requires
        v.len() == w.len(),
        forall|i: int| 0 <= i < v.len() ==> ((#[trigger] v[i]) is Some <==> w[i] is Some),
    ensures
        has_some(v) == has_some(w),
{
    if has_some(v) {
        let k = choose|k: int| 0 <= k < v.len() && v[k] is Some;
        assert(w[k] is Some);
    }
    if has_some(w) {
        let k = choose|k: int| 0 <= k < w.len() && w[k] is Some;
        assert(v[k] is Some);
    }
}

/// What one integer batch column contributes: its extremes as scalars of its kind, and
/// entries that fit the kind.
proof fn lemma_col_ints(c: ColumnValues, k: nat)
    requires
        int_kind(c) == Some(k),
    ensures
        k < 8,
        has_some(col_ints(c)) ==> column_min_max(c) == (
            Some(int_scalar(k, least_of(col_ints(c)))),
            Some(int_scalar(k, greatest_of(col_ints(c)))),
        ),
        !has_some(col_ints(c)) ==> column_min_max(c) == (None::<ScalarView>, None::<ScalarView>),
        forall|i: int| 0 <= i < col_ints(c).len() && (#[trigger] col_ints(c)[i]) is Some ==> fits_kind(k, col_ints(c)[i]->0),
{
    match c {
        ColumnValues::Int8(v) => lemma_same_presence(v@, widen_i8(v@)),
        ColumnValues::Int16(v) => lemma_same_presence(v@, widen_i16(v@)),
        ColumnValues::Int32(v) => lemma_same_presence(v@, widen_i32(v@)),
        ColumnValues::Int64(v) => lemma_same_presence(v@, widen_i64(v@)),
        ColumnValues::UInt8(v) => lemma_same_presence(v@, widen_u8(v@)),
        ColumnValues::UInt16(v) => lemma_same_presence(v@, widen_u16(v@)),
        ColumnValues::UInt32(v) => lemma_same_presence(v@, widen_u32(v@)),
        ColumnValues::UInt64(v) => lemma_same_presence(v@, widen_u64(v@)),
        _ => {},
    }
}

/// Whether every batch column is an integer column of kind `k`.
pub open spec fn all_int_kind(bs: Seq<ColumnValues>, k: nat) -> bool {
    forall|i: int| 0 <= i < bs.len() ==> int_kind(#[trigger] bs[i]) == Some(k)
}

/// The entries of all batches of an integer column, in order, as integers.
pub open spec fn int_entries(bs: Seq<ColumnValues>) -> Seq<Option<int>>
    decreases bs.len(),
{
    if bs.len() == 0 {
        seq![]
    } else {
        int_entries(bs.drop_last()) + col_ints(bs.last())
    }
}

proof fn lemma_int_entries_fit(bs: Seq<ColumnValues>, k: nat, i: int)
    requires
        all_int_kind(bs, k),
        0 <= i < int_entries(bs).len(),
        int_entries(bs)[i] is Some,
    ensures
        fits_kind(k, int_entries(bs)[i]->0),
    decreases bs.len(),
{
    let p = bs.drop_last();
    assert(all_int_kind(p, k)) by {
        assert forall|j: int| 0 <= j < p.len() implies int_kind(#[trigger] p[j]) == Some(k) by {
            assert(p[j] == bs[j]);
        }
    }
    assert(int_kind(bs[bs.len() - 1]) == Some(k));
    let e = int_entries(p);
    let w = col_ints(bs.last());
    lemma_col_ints(bs.last(), k);
    if i < e.len() {
        assert(int_entries(bs)[i] == e[i]);
        lemma_int_entries_fit(p, k, i);
    } else {
        assert(int_entries(bs)[i] == w[i - e.len()]);
    }
}

proof fn lemma_least_fits(s: Seq<Option<int>>, k: nat)
    requires
        has_some(s),
        forall|i: int| 0 <= i < s.len() && (#[trigger] s[i]) is Some ==> fits_kind(k, s[i]->0),
    ensures
        fits_kind(k, least_of(s)),
        fits_kind(k, greatest_of(s)),
{
    lemma_least_exists(s);
    let i = choose|i: int| 0 <= i < s.len() && s[i] == Some(least_of(s));
    let j = choose|i: int| 0 <= i < s.len() && s[i] == Some(greatest_of(s));
    assert(s[i] is Some);
    assert(s[j] is Some);
}

/// For an integer column of any of the eight integer types, the least and greatest
/// values that the profiler reports over all batches are the least and greatest entries
/// of the whole column (when it has any present entry; otherwise there are none).
pub proof fn law_integer_extremes_across_batches(bs: Seq<ColumnValues>, k: nat)
    requires
        all_int_kind(bs, k),
    ensures
        has_some(int_entries(bs)) ==> fold_min(bs) == Some(int_scalar(k, least_of(int_entries(bs)))),
        has_some(int_entries(bs)) ==> fold_max(bs) == Some(int_scalar(k, greatest_of(int_entries(bs)))),
        !has_some(int_entries(bs)) ==> fold_min(bs) is None && fold_max(bs) is None,
    decreases bs.len(),
{
    if bs.len() > 0 {
        let p = bs.drop_last();
        assert(all_int_kind(p, k)) by {
            assert forall|j: int| 0 <= j < p.len() implies int_kind(#[trigger] p[j]) == Some(k) by {
                assert(p[j] == bs[j]);
            }
        }
        law_integer_extremes_across_batches(p, k);
        let c = bs.last();
        assert(int_kind(bs[bs.len() - 1]) == Some(k));
        lemma_col_ints(c, k);
        let e = int_entries(p);
        let w = col_ints(c);
        assert(int_entries(bs) == e + w);
        lemma_least_concat(e, w);
        if has_some(e) {
            assert forall|i: int| 0 <= i < e.len() && (#[trigger] e[i]) is Some implies fits_kind(k, e[i]->0) by {
                lemma_int_entries_fit(p, k, i);
            }
            lemma_least_fits(e, k);
            lemma_int_scalar(k, least_of(e));
            lemma_int_scalar(k, greatest_of(e));
            let j = choose|j: int| 0 <= j < e.len() && e[j] is Some;
            assert((e + w)[j] == e[j]);
        }
        if has_some(w) {
            lemma_least_fits(w, k);
            lemma_int_scalar(k, least_of(w));
            lemma_int_scalar(k, greatest_of(w));
            let j = choose|j: int| 0 <= j < w.len() && w[j] is Some;
            assert((e + w)[e.len() + j] == w[j]);
        }
        if !has_some(e) && !has_some(w) {
            assert forall|j: int| 0 <= j < (e + w).len() implies !((e + w)[j] is Some) by {
                if j < e.len() {
                    assert((e + w)[j] == e[j]);
                } else {
                    assert((e + w)[j] == w[j - e.len()]);
                }
            }
        }
    }
}

/// Whether every batch column is a text column.
pub open spec fn all_utf8(bs: Seq<ColumnValues>) -> bool {
    forall|i: int| 0 <= i < bs.len() ==> (#[trigger] bs[i]) is Utf8
}

/// The entries of all batches of a text column, in order.
pub open spec fn utf8_entries(bs: Seq<ColumnValues>) -> Seq<Option<Seq<char>>>
    decreases bs.len(),
{
    if bs.len() == 0 {
        seq![]
    } else {
        utf8_entries(bs.drop_last()) + match bs.last() {
            ColumnValues::Utf8(v) => opt_texts(v@),
            _ => seq![],
        }
    }
}

/// No entry precedes `m`, no entry follows `g`.
proof fn lemma_text_bounds_exist(s: Seq<Option<Seq<char>>>)
    requires
        has_some(s),
    ensures
        exists|m: Seq<char>| is_least_text(s, m),
        exists|m: Seq<char>| is_greatest_text(s, m),
    decreases s.len(),
{
    let p = s.drop_last();
    let n = s.len() - 1;
    if has_some(p) {
        lemma_text_bounds_exist(p);
        let a = choose|m: Seq<char>| is_least_text(p, m);
        let b = choose|m: Seq<char>| is_greatest_text(p, m);
        let ia = choose|i: int| 0 <= i < p.len() && p[i] == Some(a);
        let ib = choose|i: int| 0 <= i < p.len() && p[i] == Some(b);
        assert(s[ia] == Some(a));
        assert(s[ib] == Some(b));
        match s.last() {
            Some(x) => {
                assert(s[n] == Some(x));
                if text_lt(x, a) {
                    assert forall|i: int| 0 <= i < s.len() && (#[trigger] s[i]) is Some implies !text_lt(s[i]->0, x) by {
                        if i < n {
                            assert(p[i] == s[i]);
                            if text_lt(s[i]->0, x) {
                                lemma_text_lt_transitive(s[i]->0, x, a);
                            }
                        } else {
                            lemma_text_lt_irreflexive(x);
                        }
                    }
                    assert(is_least_text(s, x));
                } else {
                    assert forall|i: int| 0 <= i < s.len() && (#[trigger] s[i]) is Some implies !text_lt(s[i]->0, a) by {
                        if i < n {
                            assert(p[i] == s[i]);
                        }
                    }
                    assert(is_least_text(s, a));
                }
                if text_lt(b, x) {
                    assert forall|i: int| 0 <= i < s.len() && (#[trigger] s[i]) is Some implies !text_lt(x, s[i]->0) by {
                        if i < n {
                            assert(p[i] == s[i]);
                            if text_lt(x, s[i]->0) {
                                lemma_text_lt_transitive(b, x, s[i]->0);
                            }
                        } else {
                            lemma_text_lt_irreflexive(x);
                        }
                    }
                    assert(is_greatest_text(s, x));
                } else {
                    assert forall|i: int| 0 <= i < s.len() && (#[trigger] s[i]) is Some implies !text_lt(b, s[i]->0) by {
                        if i < n {
                            assert(p[i] == s[i]);
                        }
                    }
                    assert(is_greatest_text(s, b));
                }
            },
            None => {
                assert forall|i: int| 0 <= i < s.len() && (#[trigger] s[i]) is Some implies !text_lt(s[i]->0, a) && !text_lt(b, s[i]->0) by {
                    assert(p[i] == s[i]);
                }
                assert(is_least_text(s, a));
                assert(is_greatest_text(s, b));
            },
        }
    } else {
        let k = choose|k: int| 0 <= k < s.len() && s[k] is Some;
        assert(k == n) by {
            if k < n {
                assert(p[k] is Some);
            }
        }
        let x = s[k]->0;
        lemma_text_lt_irreflexive(x);
        assert forall|i: int| 0 <= i < s.len() && (#[trigger] s[i]) is Some implies s[i]->0 == x by {
            if i < n {
                assert(p[i] is Some);
            }
        }
        assert(is_least_text(s, x));
        assert(is_greatest_text(s, x));
    }
}

proof fn lemma_text_bounds_concat(a: Seq<Option<Seq<char>>>, b: Seq<Option<Seq<char>>>)
    ensures
        has_some(a) && has_some(b) ==> least_text_of(a + b) == if text_lt(least_text_of(b), least_text_of(a)) {
            least_text_of(b)
        } else {
            least_text_of(a)
        },
        has_some(a) && has_some(b) ==> greatest_text_of(a + b) == if text_lt(greatest_text_of(a), greatest_text_of(b)) {
            greatest_text_of(b)
        } else {
            greatest_text_of(a)
        },
        has_some(a) && !has_some(b) ==> least_text_of(a + b) == least_text_of(a) && greatest_text_of(a + b)
            == greatest_text_of(a),
        !has_some(a) && has_some(b) ==> least_text_of(a + b) == least_text_of(b) && greatest_text_of(a + b)
            == greatest_text_of(b),
{
    let s = a + b;
    if has_some(a) {
        lemma_text_bounds_exist(a);
        let k = choose|k: int| 0 <= k < a.len() && a[k] is Some;
        assert(s[k] == a[k]);
    }
    if has_some(b) {
        lemma_text_bounds_exist(b);
        let k = choose|k: int| 0 <= k < b.len() && b[k] is Some;
        assert(s[a.len() + k] == b[k]);
    }
    if has_some(a) || has_some(b) {
        lemma_text_bounds_exist(s);
    }
    let la = least_text_of(a);
    let lb = least_text_of(b);
    let ga = greatest_text_of(a);
    let gb = greatest_text_of(b);
    if has_some(a) {
        let ia = choose|i: int| 0 <= i < a.len() && a[i] == Some(la);
        let ja = choose|i: int| 0 <= i < a.len() && a[i] == Some(ga);
        assert(s[ia] == a[ia]);
        assert(s[ja] == a[ja]);
    }
    if has_some(b) {
        let ib = choose|i: int| 0 <= i < b.len() && b[i] == Some(lb);
        let jb = choose|i: int| 0 <= i < b.len() && b[i] == Some(gb);
        assert(s[a.len() + ib] == b[ib]);
        assert(s[a.len() + jb] == b[jb]);
    }
    if has_some(a) && has_some(b) {
        let m = if text_lt(lb, la) { lb } else { la };
        let g = if text_lt(ga, gb) { gb } else { ga };
        lemma_text_lt_total(la, lb);
        lemma_text_lt_total(ga, gb);
        assert forall|i: int| 0 <= i < s.len() && (#[trigger] s[i]) is Some implies !text_lt(s[i]->0, m) && !text_lt(g, s[i]->0) by {
            let y = s[i]->0;
            if i < a.len() {
                assert(a[i] == s[i]);
                assert(!text_lt(y, la));
                assert(!text_lt(ga, y));
                if text_lt(y, m) && text_lt(lb, la) {
                    lemma_text_lt_transitive(y, lb, la);
                }
                if text_lt(g, y) && text_lt(ga, gb) {
                    lemma_text_lt_transitive(ga, gb, y);
                }
            } else {
                assert(b[i - a.len()] == s[i]);
                assert(!text_lt(y, lb));
                assert(!text_lt(gb, y));
                if text_lt(y, m) && !text_lt(lb, la) && la != lb {
                    lemma_text_lt_transitive(y, la, lb);
                }
                if text_lt(g, y) && !text_lt(ga, gb) && ga != gb {
                    lemma_text_lt_transitive(gb, ga, y);
                }
            }
        }
        assert(is_least_text(s, m));
        assert(is_greatest_text(s, g));
        lemma_least_text_unique(s, m, least_text_of(s));
        lemma_greatest_text_unique(s, g, greatest_text_of(s));
    } else if has_some(a) {
        assert forall|i: int| 0 <= i < s.len() && (#[trigger] s[i]) is Some implies !text_lt(s[i]->0, la) && !text_lt(ga, s[i]->0) by {
            if i < a.len() {
                assert(a[i] == s[i]);
            } else {
                assert(b[i - a.len()] == s[i]);
            }
        }
        assert(is_least_text(s, la));
        assert(is_greatest_text(s, ga));
        lemma_least_text_unique(s, la, least_text_of(s));
        lemma_greatest_text_unique(s, ga, greatest_text_of(s));
    } else if has_some(b) {
        assert forall|i: int| 0 <= i < s.len() && (#[trigger] s[i]) is Some implies !text_lt(s[i]->0, lb) && !text_lt(gb, s[i]->0) by {
            if i < a.len() {
                assert(a[i] == s[i]);
            } else {
                assert(b[i - a.len()] == s[i]);
            }
        }
        assert(is_least_text(s, lb));
        assert(is_greatest_text(s, gb));
        lemma_least_text_unique(s, lb, least_text_of(s));
        lemma_greatest_text_unique(s, gb, greatest_text_of(s));
    }
}

proof fn lemma_opt_texts_some(v: Seq<Option<String>>)
    ensures
        has_some(opt_texts(v)) == has_some(v),
{
    let w = opt_texts(v);
    if has_some(v) {
        let k = choose|k: int| 0 <= k < v.len() && v[k] is Some;
        assert(w[k] is Some);
    }
    if has_some(w) {
        let k = choose|k: int| 0 <= k < w.len() && w[k] is Some;
        assert(v[k] is Some);
    }
}

/// For a text column, the least and greatest values that the profiler reports over all
/// batches are the least and greatest entries of the whole column in code-point order
/// (when it has any present entry; otherwise there are none).
pub proof fn law_utf8_extremes_across_batches(bs: Seq<ColumnValues>)
    requires
        all_utf8(bs),
    ensures
        has_some(utf8_entries(bs)) ==> fold_min(bs) == Some(ScalarView::Utf8(least_text_of(utf8_entries(bs)))),
        has_some(utf8_entries(bs)) ==> fold_max(bs) == Some(ScalarView::Utf8(greatest_text_of(utf8_entries(bs)))),
        !has_some(utf8_entries(bs)) ==> fold_min(bs) is None && fold_max(bs) is None,
    decreases bs.len(),
{
    if bs.len() > 0 {
        let p = bs.drop_last();
        assert(all_utf8(p)) by {
            assert forall|i: int| 0 <= i < p.len() implies (#[trigger] p[i]) is Utf8 by {
                assert(p[i] == bs[i]);
            }
        }
        law_utf8_extremes_across_batches(p);
        assert(bs[bs.len() - 1] is Utf8);
        let v = bs.last()->Utf8_0;
        let e = utf8_entries(p);
        let w = opt_texts(v@);
        assert(utf8_entries(bs) == e + w);
        lemma_opt_texts_some(v@);
        lemma_text_bounds_concat(e, w);
        if has_some(e) {
            let k = choose|k: int| 0 <= k < e.len() && e[k] is Some;
            assert((e + w)[k] == e[k]);
        }
        if has_some(w) {
            let k = choose|k: int| 0 <= k < w.len() && w[k] is Some;
            assert((e + w)[e.len() + k] == w[k]);
        }
        if !has_some(e) && !has_some(w) {
            assert forall|k: int| 0 <= k < (e + w).len() implies !((e + w)[k] is Some) by {
                if k < e.len() {
                    assert((e + w)[k] == e[k]);
                } else {
                    assert((e + w)[k] == w[k - e.len()]);
                }
            }
        }
    }
}

} // verus!
