//! The library's model of Arrow schemas and the canonical type contract that every
//! schema crossing the engine boundary must satisfy.

use vstd::prelude::*;
use crate::text::concat2;
use crate::error::{QlaroError, QlaroErrorCode};

verus! {

/// Resolution of a timestamp column.
#[derive(Debug, Clone, Copy, PartialEq, Eq, Structural)]
pub enum TimeUnit {
    Second,
    Millisecond,
    Microsecond,
    Nanosecond,
}

/// An Arrow data type as the engine sees it. Types outside the vocabulary that the
/// contract names are carried as `Other`, with their printed (`{:?}`) form.
#[derive(Debug, PartialEq, Eq)]
pub enum ArrowType {
    Boolean,
    Int8,
    Int16,
    Int32,
    Int64,
    UInt8,
    UInt16,
    UInt32,
    UInt64,
    Float32,
    Float64,
    Utf8,
    LargeUtf8,
    Date32,
    Timestamp(TimeUnit, Option<String>),
    List(Box<ArrowField>),
    Struct(Vec<ArrowField>),
    Other(String),
}

/// A named, typed column.
#[derive(Debug, PartialEq, Eq)]
pub struct ArrowField {
    pub name: String,
    pub data_type: ArrowType,
    pub nullable: bool,
}

/// An ordered list of fields.
#[derive(Debug, PartialEq, Eq)]
pub struct ArrowSchema {
    pub fields: Vec<ArrowField>,
}

/// The mathematical value of an `ArrowType`: texts as character sequences.
pub enum TypeView {
    Boolean,
    Int8,
    Int16,
    Int32,
    Int64,
    UInt8,
    UInt16,
    UInt32,
    UInt64,
    Float32,
    Float64,
    Utf8,
    LargeUtf8,
    Date32,
    Timestamp(TimeUnit, Option<Seq<char>>),
    List(Box<FieldView>),
    Struct(Seq<FieldView>),
    Other(Seq<char>),
}

/// The mathematical value of an `ArrowField`.
pub struct FieldView {
    pub name: Seq<char>,
    pub data_type: TypeView,
    pub nullable: bool,
}

/// The mathematical value of an `ArrowSchema`.
pub struct SchemaView {
    pub fields: Seq<FieldView>,
}

/// The value of a data type.
pub open spec fn type_view(t: ArrowType) -> TypeView
    decreases t,
{
    match t {
        ArrowType::Boolean => TypeView::Boolean,
        ArrowType::Int8 => TypeView::Int8,
        ArrowType::Int16 => TypeView::Int16,
        ArrowType::Int32 => TypeView::Int32,
        ArrowType::Int64 => TypeView::Int64,
        ArrowType::UInt8 => TypeView::UInt8,
        ArrowType::UInt16 => TypeView::UInt16,
        ArrowType::UInt32 => TypeView::UInt32,
        ArrowType::UInt64 => TypeView::UInt64,
        ArrowType::Float32 => TypeView::Float32,
        ArrowType::Float64 => TypeView::Float64,
        ArrowType::Utf8 => TypeView::Utf8,
        ArrowType::LargeUtf8 => TypeView::LargeUtf8,
        ArrowType::Date32 => TypeView::Date32,
        ArrowType::Timestamp(u, tz) => TypeView::Timestamp(u, match tz {
            Some(z) => Some(z@),
            None => None,
        }),
        ArrowType::List(inner) => TypeView::List(
            Box::new(FieldView { name: inner.name@, data_type: type_view(inner.data_type), nullable: inner.nullable }),
        ),
        ArrowType::Struct(fields) => TypeView::Struct(fields_view_from(fields@, 0)),
        ArrowType::Other(debug) => TypeView::Other(debug@),
    }
}

/// The values of the fields `fields[i..]`.
pub open spec fn fields_view_from(fields: Seq<ArrowField>, i: int) -> Seq<FieldView>
    decreases fields, fields.len() - i,
{
    if i < 0 || i >= fields.len() {
        seq![]
    } else {
        seq![FieldView { name: fields[i].name@, data_type: type_view(fields[i].data_type), nullable: fields[i].nullable }]
            + fields_view_from(fields, i + 1)
    }
}

impl View for ArrowSchema {
    type V = SchemaView;

    open spec fn view(&self) -> SchemaView {
        SchemaView { fields: fields_view_from(self.fields@, 0) }
    }
}

/// The message that rejects the printed type `debug`.
pub open spec fn unsupported_message(debug: Seq<char>) -> Seq<char> {
    debug + " is not a supported canonical Arrow data type in Qlaro"@
}

/// The text `{:?}` prints for a string (quoted, with escapes), as std's `Debug` for `str`
/// gives it.
pub uninterp spec fn str_debug(s: Seq<char>) -> Seq<char>;

/// `format!("{:?}", s)`: std's `Debug` text of a string.
#[verifier::external_body]
fn debug_text(s: &str) -> (r: String)
    ensures
        r@ == str_debug(s@),
{
    format!("{:?}", s)
}

/// The printed (`{:?}`) form of a second-resolution timestamp type with time zone `tz`.
pub open spec fn second_timestamp_debug(tz: Option<Seq<char>>) -> Seq<char> {
    match tz {
        None => "Timestamp(Second, None)"@,
        Some(z) => "Timestamp(Second, Some("@ + str_debug(z) + "))"@,
    }
}

/// The first contract violation in `t`, depth first, or `None` when `t` is canonical.
/// Timestamps are canonical in milli-, micro- and nanoseconds, not in seconds.
pub open spec fn type_violation(t: ArrowType) -> Option<Seq<char>>
    decreases t,
{
    match t {
        ArrowType::Timestamp(TimeUnit::Second, tz) => Some(unsupported_message(second_timestamp_debug(match tz {
            Some(z) => Some(z@),
            None => None,
        }))),
        ArrowType::List(inner) => type_violation(inner.data_type),
        ArrowType::Struct(fields) => fields_violation_from(fields@, 0),
        ArrowType::Other(debug) => Some(unsupported_message(debug@)),
        _ => None,
    }
}

/// The first violation among `fields[i..]`.
pub open spec fn fields_violation_from(fields: Seq<ArrowField>, i: int) -> Option<Seq<char>>
    decreases fields, fields.len() - i,
{
    if i < 0 || i >= fields.len() {
        None
    } else {
        match type_violation(fields[i].data_type) {
            Some(m) => Some(m),
            None => fields_violation_from(fields, i + 1),
        }
    }
}


/// The first field of `schema[i..]` whose type breaks the contract, with the field-level message.
pub open spec fn schema_violation_from(fields: Seq<ArrowField>, i: int) -> Option<Seq<char>>
    decreases fields.len() - i,
{
    if i < 0 || i >= fields.len() {
        None
    } else {
        match type_violation(fields[i].data_type) {
            Some(m) => Some("Field '"@ + fields[i].name@ + "': "@ + m),
            None => schema_violation_from(fields, i + 1),
        }
    }
}

proof fn lemma_schema_violation_skip(fields: Seq<ArrowField>, i: int)
    requires
        0 <= i <= fields.len(),
        forall|k: int| 0 <= k < i ==> (#[trigger] type_violation(fields[k].data_type)) is None,
    ensures
        schema_violation_from(fields, 0) == schema_violation_from(fields, i),
    decreases i,
{
    if i > 0 {
        lemma_schema_violation_skip(fields, i - 1);
    }
}

/// Checks one data type against the canonical contract, recursing into list items and
/// struct members; the error is the message for the first unsupported type met.
pub fn validate_canonical_datatype(t: &ArrowType) -> (r: Result<(), String>)
    ensures
        match r {
            Ok(()) => type_violation(*t) is None,
            Err(m) => type_violation(*t) == Some(m@),
        },
    decreases t,
{
    match t {
        ArrowType::Timestamp(TimeUnit::Second, tz) => {
            let printed = match tz {
                None => "Timestamp(Second, None)".to_owned(),
                Some(z) => {
                    let d = debug_text(z);
                    let a = concat2("Timestamp(Second, Some(", &d);
                    concat2(&a, "))")
                },
            };
            Err(concat2(&printed, " is not a supported canonical Arrow data type in Qlaro"))
        },
        ArrowType::List(inner) => validate_canonical_datatype(&inner.data_type),
        ArrowType::Struct(fields) => validate_fields_from(fields, 0),
        ArrowType::Other(debug) => Err(concat2(debug, " is not a supported canonical Arrow data type in Qlaro")),
        _ => Ok(()),
    }
}

/// Checks the member types `fields[i..]` in order.
fn validate_fields_from(fields: &Vec<ArrowField>, i: usize) -> (r: Result<(), String>)
    requires
        i <= fields@.len(),
    ensures
        match r {
            Ok(()) => fields_violation_from(fields@, i as int) is None,
            Err(m) => fields_violation_from(fields@, i as int) == Some(m@),
        },
    decreases fields, fields@.len() - i,
{
    if i >= fields.len() {
        return Ok(());
    }
    proof {
        assert(decreases_to!(fields => fields@));
        assert(decreases_to!(fields@ => fields@[i as int]));
    }
    match validate_canonical_datatype(&fields[i].data_type) {
        Ok(()) => validate_fields_from(fields, i + 1),
        Err(m) => Err(m),
    }
}

/// Checks every field of a schema; the first offending field is reported as
/// `UnsupportedDataType("Field '<name>': <reason>")`.
pub fn validate_canonical_schema(schema: &ArrowSchema) -> (r: Result<(), QlaroError>)
    ensures
        match schema_violation_from(schema.fields@, 0) {
            None => r is Ok,
            Some(m) => r matches Err(QlaroError::Core(QlaroErrorCode::UnsupportedDataType(t))) && t@ == m,
        },
{
    let mut i: usize = 0;
    while i < schema.fields.len()
        invariant
            i <= schema.fields@.len(),
            forall|k: int| 0 <= k < i ==> (#[trigger] type_violation(schema.fields@[k].data_type)) is None,
        decreases schema.fields@.len() - i,
    {
        let field = &schema.fields[i];
        match validate_canonical_datatype(&field.data_type) {
            Ok(()) => {},
            Err(e) => {
                proof {
                    lemma_schema_violation_skip(schema.fields@, i as int);
                }
                let a = concat2("Field '", &field.name);
                let b = concat2(&a, "': ");
                let c = concat2(&b, &e);
                return Err(QlaroError::Core(QlaroErrorCode::UnsupportedDataType(c)));
            },
        }
        i = i + 1;
    }
    proof {
        lemma_schema_violation_skip(schema.fields@, i as int);
    }
    Ok(())
}

/// The primitive types of the canonical vocabulary: booleans, signed and unsigned integers
/// of every width, both floats, both strings, dates, and timestamps in milli-, micro- or
/// nanoseconds (with or without a time zone).
pub open spec fn canonical_primitive(t: ArrowType) -> bool {
    ||| t is Boolean
    ||| t is Int8 || t is Int16 || t is Int32 || t is Int64
    ||| t is UInt8 || t is UInt16 || t is UInt32 || t is UInt64
    ||| t is Float32 || t is Float64
    ||| t is Utf8 || t is LargeUtf8
    ||| t is Date32
    ||| t matches ArrowType::Timestamp(u, _) && (u == TimeUnit::Millisecond || u == TimeUnit::Microsecond
        || u == TimeUnit::Nanosecond)
}

/// Every primitive type of the canonical vocabulary satisfies the contract, and a type
/// outside the vocabulary does not: it is rejected with its printed form.
pub proof fn law_canonical_primitives_accepted(t: ArrowType)
    ensures
        canonical_primitive(t) ==> type_violation(t) is None,
        t matches ArrowType::Other(debug) ==> type_violation(t) == Some(unsupported_message(debug@)),
{
}

/// A schema whose fields all have canonical primitive types passes the contract.
pub proof fn law_primitive_schema_accepted(fields: Seq<ArrowField>, i: int)
    requires
        forall|k: int| 0 <= k < fields.len() ==> canonical_primitive(#[trigger] fields[k].data_type),
    ensures
        schema_violation_from(fields, i) is None,
    decreases fields.len() - i,
{
    if 0 <= i < fields.len() {
        law_canonical_primitives_accepted(fields[i].data_type);
        law_primitive_schema_accepted(fields, i + 1);
    }
}

/// A list or struct of canonical primitive types is canonical: nesting adds no violation.
pub proof fn law_nested_primitives_accepted(t: ArrowType)
    requires
        t matches ArrowType::List(inner) ==> canonical_primitive(inner.data_type),
        t matches ArrowType::Struct(fields) ==> forall|k: int|
            0 <= k < fields@.len() ==> canonical_primitive(#[trigger] fields@[k].data_type),
        t is List || t is Struct,
    ensures
        type_violation(t) is None,
{
    match t {
        ArrowType::List(inner) => law_canonical_primitives_accepted(inner.data_type),
        ArrowType::Struct(fields) => lemma_primitive_members(fields@, 0),
        _ => {},
    }
}

proof fn lemma_primitive_members(fields: Seq<ArrowField>, i: int)
    requires
        forall|k: int| 0 <= k < fields.len() ==> canonical_primitive(#[trigger] fields[k].data_type),
    ensures
        fields_violation_from(fields, i) is None,
    decreases fields.len() - i,
{
    if 0 <= i < fields.len() {
        law_canonical_primitives_accepted(fields[i].data_type);
        lemma_primitive_members(fields, i + 1);
    }
}

/// A schema is refused at its first field of a type outside the vocabulary, with that
/// field's name and the type's printed form, when every earlier field is a canonical
/// primitive: later fields do not change the report.
pub proof fn law_first_offending_field_reported(fields: Seq<ArrowField>, k: int, debug: Seq<char>)
    requires
        0 <= k < fields.len(),
        forall|j: int| 0 <= j < k ==> canonical_primitive(#[trigger] fields[j].data_type),
        fields[k].data_type matches ArrowType::Other(dbg) && dbg@ == debug,
    ensures
        schema_violation_from(fields, 0) == Some(
            "Field '"@ + fields[k].name@ + "': "@ + debug + " is not a supported canonical Arrow data type in Qlaro"@,
        ),
{
    lemma_first_offending_from(fields, 0, k, debug);
}

proof fn lemma_first_offending_from(fields: Seq<ArrowField>, i: int, k: int, debug: Seq<char>)
    requires
        0 <= i <= k < fields.len(),
        forall|j: int| 0 <= j < k ==> canonical_primitive(#[trigger] fields[j].data_type),
        fields[k].data_type matches ArrowType::Other(dbg) && dbg@ == debug,
    ensures
        schema_violation_from(fields, i) == Some(
            "Field '"@ + fields[k].name@ + "': "@ + debug + " is not a supported canonical Arrow data type in Qlaro"@,
        ),
    decreases k - i,
{
    if i < k {
        law_canonical_primitives_accepted(fields[i].data_type);
        lemma_first_offending_from(fields, i + 1, k, debug);
    }
}

} // verus!
