//! Arrow IPC streams: the header check that deserialization makes before it reads any
//! batch, with the schema held to the canonical contract.

use vstd::prelude::*;
use arrow_ipc::reader::StreamReader;
use arrow_schema::{DataType, Field, Schema, TimeUnit as ArrowTimeUnit};
use std::sync::Arc;
use crate::error::{QlaroError, QlaroErrorCode};
use crate::schema::{
    fields_view_from, fields_violation_from, schema_violation_from, second_timestamp_debug, type_view, type_violation,
    unsupported_message, validate_canonical_schema, ArrowField, ArrowSchema, ArrowType, FieldView,
    SchemaView, TimeUnit, TypeView,
};

verus! {

#[verifier::external_type_specification]
#[verifier::external_body]
pub struct ExSchema(arrow_schema::Schema);

#[verifier::external_type_specification]
#[verifier::external_body]
pub struct ExField(arrow_schema::Field);

#[verifier::external_type_specification]
#[verifier::external_body]
pub struct ExDataType(arrow_schema::DataType);

// ------------------------------------------------------------ conversions of schemas

/// The model of an Arrow timestamp type.
#[verifier::external_body]
fn timestamp_model(dt: &DataType) -> ArrowType {
    let zone = |tz: &Option<Arc<str>>| tz.as_ref().map(|z| z.to_string());
    match dt {
        DataType::Timestamp(ArrowTimeUnit::Second, tz) => ArrowType::Timestamp(TimeUnit::Second, zone(tz)),
        DataType::Timestamp(ArrowTimeUnit::Millisecond, tz) => ArrowType::Timestamp(TimeUnit::Millisecond, zone(tz)),
        DataType::Timestamp(ArrowTimeUnit::Microsecond, tz) => ArrowType::Timestamp(TimeUnit::Microsecond, zone(tz)),
        DataType::Timestamp(ArrowTimeUnit::Nanosecond, tz) => ArrowType::Timestamp(TimeUnit::Nanosecond, zone(tz)),
        other => ArrowType::Other(format!("{:?}", other)),
    }
}

/// The model of an Arrow integer type (any other type is carried as `Other`).
#[verifier::external_body]
fn int_type_model(dt: &DataType) -> ArrowType {
    match dt {
        DataType::Int8 => ArrowType::Int8,
        DataType::Int16 => ArrowType::Int16,
        DataType::Int32 => ArrowType::Int32,
        DataType::Int64 => ArrowType::Int64,
        DataType::UInt8 => ArrowType::UInt8,
        DataType::UInt16 => ArrowType::UInt16,
        DataType::UInt32 => ArrowType::UInt32,
        DataType::UInt64 => ArrowType::UInt64,
        other => ArrowType::Other(format!("{:?}", other)),
    }
}

/// The model of an Arrow leaf type.
#[verifier::external_body]
fn leaf_type_model(dt: &DataType) -> ArrowType {
    match dt {
        DataType::Boolean => ArrowType::Boolean,
        DataType::Float32 => ArrowType::Float32,
        DataType::Float64 => ArrowType::Float64,
        DataType::Utf8 => ArrowType::Utf8,
        DataType::LargeUtf8 => ArrowType::LargeUtf8,
        DataType::Date32 => ArrowType::Date32,
        DataType::Timestamp(..) => timestamp_model(dt),
        other => int_type_model(other),
    }
}

/// The model of an Arrow data type.
#[verifier::external_body]
fn type_model(dt: &DataType) -> ArrowType {
    match dt {
        DataType::List(inner) => ArrowType::List(Box::new(field_model(inner))),
        DataType::Struct(fields) => ArrowType::Struct(fields.iter().map(|f| field_model(f)).collect()),
        other => leaf_type_model(other),
    }
}

/// The model of an Arrow field.
#[verifier::external_body]
fn field_model(f: &Field) -> ArrowField {
    ArrowField { name: f.name().clone(), data_type: type_model(f.data_type()), nullable: f.is_nullable() }
}

/// The model of an Arrow schema.
#[verifier::external_body]
fn schema_model(s: &Schema) -> ArrowSchema {
    ArrowSchema { fields: s.fields().iter().map(|f| field_model(f)).collect() }
}

// ------------------------------------------------------------ the canonical contract over values

/// The first contract violation in a type value, depth first.
pub open spec fn type_view_violation(t: TypeView) -> Option<Seq<char>>
    decreases t,
{
    match t {
        TypeView::Timestamp(TimeUnit::Second, tz) => Some(unsupported_message(second_timestamp_debug(tz))),
        TypeView::List(inner) => type_view_violation(inner.data_type),
        TypeView::Struct(fields) => field_views_violation_from(fields, 0),
        TypeView::Other(debug) => Some(unsupported_message(debug)),
        _ => None,
    }
}

/// The first violation among the member values `fields[i..]`.
pub open spec fn field_views_violation_from(fields: Seq<FieldView>, i: int) -> Option<Seq<char>>
    decreases fields, fields.len() - i,
{
    if i < 0 || i >= fields.len() {
        None
    } else {
        match type_view_violation(fields[i].data_type) {
            Some(m) => Some(m),
            None => field_views_violation_from(fields, i + 1),
        }
    }
}

/// The first field of `fields[i..]` whose type breaks the contract, with the field-level
/// message.
pub open spec fn schema_view_violation_from(fields: Seq<FieldView>, i: int) -> Option<Seq<char>>
    decreases fields.len() - i,
{
    if i < 0 || i >= fields.len() {
        None
    } else {
        match type_view_violation(fields[i].data_type) {
            Some(m) => Some("Field '"@ + fields[i].name + "': "@ + m),
            None => schema_view_violation_from(fields, i + 1),
        }
    }
}

/// The header check accepts every primitive type of the canonical vocabulary: no type
/// value among booleans, integers of every width, floats, strings, dates and milli-, micro-
/// or nanosecond timestamps is a violation.
pub proof fn law_canonical_primitive_values_accepted(t: TypeView)
    requires
        t is Boolean || t is Int8 || t is Int16 || t is Int32 || t is Int64 || t is UInt8 || t is UInt16
            || t is UInt32 || t is UInt64 || t is Float32 || t is Float64 || t is Utf8 || t is LargeUtf8
            || t is Date32 || (t matches TypeView::Timestamp(u, _) && u != TimeUnit::Second),
    ensures
        type_view_violation(t) is None,
{
}

proof fn lemma_fields_view_index(fs: Seq<ArrowField>, i: int, j: int)
    requires
        0 <= i <= fs.len(),
    ensures
        fields_view_from(fs, i).len() == fs.len() - i,
        i <= j < fs.len() ==> fields_view_from(fs, i)[j - i] == (FieldView {
            name: fs[j].name@,
            data_type: type_view(fs[j].data_type),
            nullable: fs[j].nullable,
        }),
    decreases fs.len() - i,
{
    if i < fs.len() {
        lemma_fields_view_index(fs, i + 1, j);
    }
}

proof fn lemma_type_view_violation(t: ArrowType)
    ensures
        type_view_violation(type_view(t)) == type_violation(t),
    decreases t,
{
    match t {
        ArrowType::List(inner) => lemma_type_view_violation(inner.data_type),
        ArrowType::Struct(fields) => lemma_fields_view_violation(fields@, 0),
        _ => {},
    }
}

proof fn lemma_fields_view_violation(fs: Seq<ArrowField>, i: int)
    requires
        0 <= i <= fs.len(),
    ensures
        field_views_violation_from(fields_view_from(fs, 0), i) == fields_violation_from(fs, i),
    decreases fs, fs.len() - i,
{
    lemma_fields_view_index(fs, 0, i);
    if i < fs.len() {
        lemma_type_view_violation(fs[i].data_type);
        lemma_fields_view_violation(fs, i + 1);
    }
}

proof fn lemma_schema_view_violation(fs: Seq<ArrowField>, i: int)
    requires
        0 <= i <= fs.len(),
    ensures
        schema_view_violation_from(fields_view_from(fs, 0), i) == schema_violation_from(fs, i),
    decreases fs.len() - i,
{
    lemma_fields_view_index(fs, 0, i);
    if i < fs.len() {
        lemma_type_view_violation(fs[i].data_type);
        lemma_schema_view_violation(fs, i + 1);
    }
}

// ------------------------------------------------------------ decoding

/// What `arrow_ipc::reader::StreamReader::try_new` reads from the start of a byte buffer:
/// the schema of the stream's header, or the reader's error text.
pub uninterp spec fn ipc_stream_header(bytes: Seq<u8>) -> Result<SchemaView, Seq<char>>;

/// Opens an Arrow IPC stream held in memory with `arrow_ipc::reader::StreamReader::try_new`
/// and gives the header's schema as the library's model, or the reader's error text. The
/// header is read with error returns throughout (a verified flatbuffer and the fallible
/// schema conversion), so the call returns on every input; the outcome depends on the
/// bytes alone. Batches are not read here.
#[verifier::external_body]
fn ipc_stream_schema(bytes: &[u8]) -> (r: Result<ArrowSchema, String>)
    ensures
        match r {
            Ok(s) => ipc_stream_header(bytes@) == Ok::<SchemaView, Seq<char>>(s@),
            Err(e) => ipc_stream_header(bytes@) == Err::<SchemaView, Seq<char>>(e@),
        },
{
    match StreamReader::try_new(std::io::Cursor::new(bytes), None) {
        Ok(reader) => Ok(schema_model(&reader.schema())),
        Err(e) => Err(e.to_string()),
    }
}

/// Checks the header of an Arrow IPC stream buffer as deserialization does before it
/// reads any batch: a header that cannot be read is an `Arrow` error, and a schema that
/// breaks the canonical contract is refused; otherwise the schema.
pub fn check_ipc_stream_header(bytes: &[u8]) -> (r: Result<ArrowSchema, QlaroError>)
    ensures
        match ipc_stream_header(bytes@) {
            Err(e) => r matches Err(QlaroError::Arrow(m)) && m@ == e,
            Ok(s) => match schema_view_violation_from(s.fields, 0) {
                Some(m) => r matches Err(QlaroError::Core(QlaroErrorCode::UnsupportedDataType(x))) && x@ == m,
                None => r matches Ok(schema) && schema@ == s,
            },
        },
{
    match ipc_stream_schema(bytes) {
        Err(e) => Err(QlaroError::Arrow(e)),
        Ok(schema) => {
            proof {
                lemma_schema_view_violation(schema.fields@, 0);
            }
            match validate_canonical_schema(&schema) {
                Err(e) => Err(e),
                Ok(()) => Ok(schema),
            }
        },
    }
}

} // verus!
