use qlaro::error::{QlaroError, QlaroErrorCode};
use qlaro::schema::{
    validate_canonical_datatype, validate_canonical_schema, ArrowField, ArrowSchema, ArrowType,
    TimeUnit,
};

fn field(name: &str, data_type: ArrowType) -> ArrowField {
    ArrowField { name: name.to_string(), data_type, nullable: true }
}

#[test]
fn test_canonical_schema_validation_success() {
    let schema = ArrowSchema {
        fields: vec![
            ArrowField { name: "id".to_string(), data_type: ArrowType::Int32, nullable: false },
            field("name", ArrowType::Utf8),
            field("ts", ArrowType::Timestamp(TimeUnit::Microsecond, None)),
        ],
    };
    assert!(validate_canonical_schema(&schema).is_ok());
}

#[test]
fn unsupported_leaf_type_is_reported_with_field_name() {
    let schema = ArrowSchema {
        fields: vec![field("ok", ArrowType::Int8), field("blob", ArrowType::Other("Binary".to_string()))],
    };
    match validate_canonical_schema(&schema) {
        Err(QlaroError::Core(QlaroErrorCode::UnsupportedDataType(m))) => assert_eq!(
            m,
            "Field 'blob': Binary is not a supported canonical Arrow data type in Qlaro"
        ),
        other => panic!("unexpected {:?}", other),
    }
}

#[test]
fn nested_types_are_checked_depth_first() {
    let inner = ArrowType::Struct(vec![
        field("a", ArrowType::Float64),
        field("b", ArrowType::Other("Date64".to_string())),
        field("c", ArrowType::Other("Decimal128(10, 2)".to_string())),
    ]);
    let list = ArrowType::List(Box::new(field("item", inner)));
    assert_eq!(
        validate_canonical_datatype(&list),
        Err("Date64 is not a supported canonical Arrow data type in Qlaro".to_string())
    );
    let good = ArrowType::List(Box::new(field(
        "item",
        ArrowType::Struct(vec![field("x", ArrowType::LargeUtf8), field("y", ArrowType::Timestamp(TimeUnit::Nanosecond, Some("UTC".to_string())))]),
    )));
    assert_eq!(validate_canonical_datatype(&good), Ok(()));
}

#[test]
fn first_offending_field_wins() {
    let schema = ArrowSchema {
        fields: vec![
            field("x", ArrowType::Other("Time32(Second)".to_string())),
            field("y", ArrowType::Other("Binary".to_string())),
        ],
    };
    match validate_canonical_schema(&schema) {
        Err(QlaroError::Core(QlaroErrorCode::UnsupportedDataType(m))) => assert!(m.starts_with("Field 'x': Time32(Second)")),
        other => panic!("unexpected {:?}", other),
    }
    assert!(validate_canonical_schema(&ArrowSchema { fields: vec![] }).is_ok());
}

#[test]
fn error_texts() {
    let e = QlaroError::Core(QlaroErrorCode::DatasetNotFound("sales".to_string()));
    assert_eq!(e.describe(), "Core Error: Dataset not found: sales");
    assert_eq!(QlaroError::Io("boom".to_string()).describe(), "IO Error: boom");
    assert_eq!(QlaroError::Arrow("bad".to_string()).describe(), "Arrow Error: bad");
    assert_eq!(QlaroError::Serialization("x".to_string()).describe(), "Serialization Error: x");
    assert_eq!(QlaroErrorCode::SchemaMismatch("s".to_string()).describe(), "Schema mismatch: s");
    assert_eq!(QlaroErrorCode::UnsupportedDataType("t".to_string()).describe(), "Unsupported Arrow data type: t");
    assert_eq!(QlaroErrorCode::InvalidFormat("f".to_string()).describe(), "Invalid dataset format: f");
    assert_eq!(QlaroErrorCode::CorruptedBatch("c".to_string()).describe(), "Corrupted record batch: c");
    assert_eq!(QlaroErrorCode::UnentitledCapability("u".to_string()).describe(), "Unentitled capability: u");
    assert_eq!(QlaroErrorCode::Internal("i".to_string()).describe(), "Internal engine error: i");
    assert_eq!(QlaroErrorCode::Cancelled("k".to_string()).describe(), "Operation cancelled: k");
    assert_eq!(QlaroErrorCode::ResourceLimitExceeded("r".to_string()).describe(), "Resource limit exceeded: r");
    let converted: QlaroError = QlaroErrorCode::Internal("z".to_string()).into();
    assert!(matches!(converted, QlaroError::Core(QlaroErrorCode::Internal(ref s)) if s == "z"));
}

#[test]
fn second_resolution_timestamps_are_not_canonical() {
    assert_eq!(
        validate_canonical_datatype(&ArrowType::Timestamp(TimeUnit::Second, None)),
        Err("Timestamp(Second, None) is not a supported canonical Arrow data type in Qlaro".to_string())
    );
    assert_eq!(
        validate_canonical_datatype(&ArrowType::Timestamp(TimeUnit::Second, Some("Europe/Berlin".to_string()))),
        Err("Timestamp(Second, Some(\"Europe/Berlin\")) is not a supported canonical Arrow data type in Qlaro".to_string())
    );
    assert!(validate_canonical_datatype(&ArrowType::Timestamp(TimeUnit::Millisecond, None)).is_ok());
}
