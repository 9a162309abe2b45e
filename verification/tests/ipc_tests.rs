use arrow_array::{ArrayRef, BinaryArray, Int32Array, RecordBatch, StringArray};
use arrow_ipc::writer::StreamWriter;
use arrow_schema::{DataType, Field, Schema, TimeUnit};
use qlaro::error::{QlaroError, QlaroErrorCode};
use qlaro::ipc::check_ipc_stream_header;
use qlaro::schema::{ArrowField, ArrowSchema, ArrowType};
use std::sync::Arc;

fn encode(schema: &Arc<Schema>, batches: &[RecordBatch]) -> Vec<u8> {
    let mut buffer = Vec::new();
    {
        let mut writer = StreamWriter::try_new(&mut buffer, schema).unwrap();
        for b in batches {
            writer.write(b).unwrap();
        }
        writer.finish().unwrap();
    }
    buffer
}

fn users() -> (Arc<Schema>, RecordBatch) {
    let schema = Arc::new(Schema::new(vec![
        Field::new("id", DataType::Int32, false),
        Field::new("country", DataType::Utf8, true),
    ]));
    let ids = Arc::new(Int32Array::from(vec![1, 2, 3, 4])) as ArrayRef;
    let countries = Arc::new(StringArray::from(vec![Some("US"), None, Some("DE"), Some("JP")])) as ArrayRef;
    let batch = RecordBatch::try_new(schema.clone(), vec![ids, countries]).unwrap();
    (schema, batch)
}

#[test]
fn stream_header_is_accepted_with_its_schema() {
    let (schema, batch) = users();
    let bytes = encode(&schema, &[batch.clone(), batch]);
    let model = check_ipc_stream_header(&bytes).unwrap();
    assert_eq!(
        model,
        ArrowSchema {
            fields: vec![
                ArrowField { name: "id".to_string(), data_type: ArrowType::Int32, nullable: false },
                ArrowField { name: "country".to_string(), data_type: ArrowType::Utf8, nullable: true },
            ]
        }
    );
}

#[test]
fn unreadable_header_is_an_arrow_error() {
    assert!(matches!(check_ipc_stream_header(b"not an arrow stream"), Err(QlaroError::Arrow(_))));
}

#[test]
fn non_canonical_schema_is_refused_before_batches() {
    let schema = Arc::new(Schema::new(vec![Field::new("blob", DataType::Binary, true)]));
    let blobs = Arc::new(BinaryArray::from(vec![Some(&b"ab"[..]), None])) as ArrayRef;
    let batch = RecordBatch::try_new(schema.clone(), vec![blobs]).unwrap();
    let bytes = encode(&schema, &[batch]);
    match check_ipc_stream_header(&bytes) {
        Err(QlaroError::Core(QlaroErrorCode::UnsupportedDataType(m))) => assert_eq!(
            m,
            "Field 'blob': Binary is not a supported canonical Arrow data type in Qlaro"
        ),
        other => panic!("unexpected {:?}", other),
    }
    // the schema is checked first, also when a batch is damaged
    let cut = &bytes[..bytes.len() - 24];
    assert!(matches!(
        check_ipc_stream_header(cut),
        Err(QlaroError::Core(QlaroErrorCode::UnsupportedDataType(_)))
    ));
}

#[test]
fn second_resolution_timestamps_are_refused() {
    let schema = Arc::new(Schema::new(vec![Field::new(
        "t",
        DataType::Timestamp(TimeUnit::Second, Some("UTC".into())),
        true,
    )]));
    let bytes = encode(&schema, &[]);
    match check_ipc_stream_header(&bytes) {
        Err(QlaroError::Core(QlaroErrorCode::UnsupportedDataType(m))) => assert_eq!(
            m,
            "Field 't': Timestamp(Second, Some(\"UTC\")) is not a supported canonical Arrow data type in Qlaro"
        ),
        other => panic!("unexpected {:?}", other),
    }
}

#[test]
fn damaged_batch_does_not_affect_the_header_check() {
    let (schema, batch) = users();
    let bytes = encode(&schema, &[batch]);
    let cut = &bytes[..bytes.len() - 24];
    assert!(check_ipc_stream_header(cut).is_ok());
}
