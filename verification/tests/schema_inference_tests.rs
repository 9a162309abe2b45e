use qlaro::error::{QlaroError, QlaroErrorCode};
use qlaro::schema::{ArrowType, TimeUnit};
use qlaro::schema_inference::{
    classify_cell, collect_sample_lines, parse_csv_line, CellEvidence, InferredType,
    SchemaInferenceEngine,
};

#[test]
fn test_csv_schema_inference_primitives() {
    let csv_data = "id,name,active,balance,registered_at,birth_date\n\
                    1,Alice,true,1250.50,2026-01-15T08:30:00Z,1990-05-12\n\
                    2,Bob,false,300.00,2026-02-20T14:15:00Z,1985-11-23\n\
                    3,Charlie,true,,2026-03-01 10:00:00,1995-07-04";

    let engine = SchemaInferenceEngine::default();
    let schema = engine.infer_schema(csv_data).unwrap();

    assert_eq!(schema.fields.len(), 6);
    assert_eq!(schema.fields[0].name, "id");
    assert!(matches!(schema.fields[0].data_type, ArrowType::Int64));

    assert_eq!(schema.fields[1].name, "name");
    assert!(matches!(schema.fields[1].data_type, ArrowType::Utf8));

    assert_eq!(schema.fields[2].name, "active");
    assert!(matches!(schema.fields[2].data_type, ArrowType::Boolean));

    assert_eq!(schema.fields[3].name, "balance");
    assert!(matches!(schema.fields[3].data_type, ArrowType::Float64));

    assert_eq!(schema.fields[4].name, "registered_at");
    assert!(matches!(
        schema.fields[4].data_type,
        ArrowType::Timestamp(TimeUnit::Microsecond, None)
    ));

    assert_eq!(schema.fields[5].name, "birth_date");
    assert!(matches!(schema.fields[5].data_type, ArrowType::Date32));
}

#[test]
fn test_csv_schema_type_promotion_and_fallback() {
    let csv_data = "score,mixed\n\
                    100,true\n\
                    200.75,not_a_bool\n\
                    300,false";

    let engine = SchemaInferenceEngine::default();
    let schema = engine.infer_schema(csv_data).unwrap();

    assert_eq!(schema.fields[0].name, "score");
    assert!(matches!(schema.fields[0].data_type, ArrowType::Float64));

    assert_eq!(schema.fields[1].name, "mixed");
    assert!(matches!(schema.fields[1].data_type, ArrowType::Utf8));
}

#[test]
fn test_csv_empty_input_fails() {
    let engine = SchemaInferenceEngine::default();
    let res = engine.infer_schema("");
    assert!(res.is_err());
}

#[test]
fn empty_input_error_is_invalid_format() {
    let engine = SchemaInferenceEngine::default();
    match engine.infer_schema("  \n\t\n") {
        Err(QlaroError::Core(QlaroErrorCode::InvalidFormat(m))) => {
            assert_eq!(m, "Cannot infer schema from empty input stream")
        }
        other => panic!("unexpected {:?}", other),
    }
}

#[test]
fn headerless_input_gets_generated_names() {
    let engine = SchemaInferenceEngine::new(10, b';', false);
    let schema = engine.infer_schema("1;x;2024-01-02\n2;y;2024-01-03 10:00:00\n").unwrap();
    assert_eq!(schema.fields.len(), 3);
    assert_eq!(schema.fields[0].name, "column_1");
    assert_eq!(schema.fields[1].name, "column_2");
    assert_eq!(schema.fields[2].name, "column_3");
    assert!(matches!(schema.fields[0].data_type, ArrowType::Int64));
    assert!(matches!(schema.fields[1].data_type, ArrowType::Utf8));
    assert!(matches!(
        schema.fields[2].data_type,
        ArrowType::Timestamp(TimeUnit::Microsecond, None)
    ));
    assert!(schema.fields.iter().all(|f| f.nullable));
}

#[test]
fn sample_limit_bounds_rows_read() {
    // only the header and the first data row are sampled
    let engine = SchemaInferenceEngine::new(2, b',', true);
    let schema = engine.infer_schema("a\n1\nhello\n").unwrap();
    assert!(matches!(schema.fields[0].data_type, ArrowType::Int64));
    let engine = SchemaInferenceEngine::new(3, b',', true);
    let schema = engine.infer_schema("a\n1\nhello\n").unwrap();
    assert!(matches!(schema.fields[0].data_type, ArrowType::Utf8));
}

#[test]
fn null_tokens_and_short_rows_do_not_change_types() {
    let engine = SchemaInferenceEngine::default();
    let schema = engine.infer_schema("a,b\n1,NULL\nNA\n3,N/A\n").unwrap();
    assert!(matches!(schema.fields[0].data_type, ArrowType::Int64));
    // a column of nulls only is text
    assert!(matches!(schema.fields[1].data_type, ArrowType::Utf8));
}

#[test]
fn sample_lines_are_trimmed_and_blank_lines_skipped() {
    let lines = collect_sample_lines("  a \n\n\r\n b\r\n c", 10);
    assert_eq!(lines, vec!["a".to_string(), "b".to_string(), "c".to_string()]);
    let lines = collect_sample_lines("a\nb\nc\n", 2);
    assert_eq!(lines, vec!["a".to_string(), "b".to_string()]);
}

#[test]
fn csv_line_quotes_and_trimming() {
    assert_eq!(parse_csv_line(" a , b ,c", ','), vec!["a", "b", "c"]);
    assert_eq!(parse_csv_line("\"x, y\",z", ','), vec!["x, y", "z"]);
    assert_eq!(parse_csv_line("", ','), vec![""]);
    assert_eq!(parse_csv_line("a,,b,", ','), vec!["a", "", "b", ""]);
    assert_eq!(parse_csv_line("a\tb", '\t'), vec!["a", "b"]);
}

#[test]
fn merge_laws_on_values() {
    let all = [
        InferredType::Null,
        InferredType::Boolean,
        InferredType::Int64,
        InferredType::Float64,
        InferredType::Date32,
        InferredType::TimestampMicros,
        InferredType::Utf8,
    ];
    for a in all {
        assert_eq!(InferredType::Null.merge(a), a);
        assert_eq!(a.merge(a), a);
        assert_eq!(InferredType::Utf8.merge(a), InferredType::Utf8);
        for b in all {
            assert_eq!(a.merge(b), b.merge(a));
            for c in all {
                assert_eq!(a.merge(b).merge(c), a.merge(b.merge(c)));
            }
        }
    }
    assert_eq!(InferredType::Int64.merge(InferredType::Float64), InferredType::Float64);
    assert_eq!(InferredType::Date32.merge(InferredType::TimestampMicros), InferredType::TimestampMicros);
    assert_eq!(InferredType::Boolean.merge(InferredType::Int64), InferredType::Utf8);
    assert_eq!(InferredType::Date32.merge(InferredType::Int64), InferredType::Utf8);
}

#[test]
fn cell_classification() {
    let engine = SchemaInferenceEngine::default();
    assert_eq!(engine.infer_cell_type(""), InferredType::Null);
    assert_eq!(engine.infer_cell_type("NaN"), InferredType::Null);
    assert_eq!(engine.infer_cell_type("TRUE"), InferredType::Boolean);
    assert_eq!(engine.infer_cell_type("False"), InferredType::Boolean);
    assert_eq!(engine.infer_cell_type("-42"), InferredType::Int64);
    assert_eq!(engine.infer_cell_type("+7"), InferredType::Int64);
    assert_eq!(engine.infer_cell_type("9223372036854775807"), InferredType::Int64);
    assert_eq!(engine.infer_cell_type("9223372036854775808"), InferredType::Float64);
    assert_eq!(engine.infer_cell_type("-9223372036854775808"), InferredType::Int64);
    assert_eq!(engine.infer_cell_type("1.5e3"), InferredType::Float64);
    assert_eq!(engine.infer_cell_type(".5"), InferredType::Float64);
    assert_eq!(engine.infer_cell_type("5."), InferredType::Float64);
    assert_eq!(engine.infer_cell_type("-inf"), InferredType::Float64);
    assert_eq!(engine.infer_cell_type("Infinity"), InferredType::Float64);
    assert_eq!(engine.infer_cell_type("1e"), InferredType::Utf8);
    assert_eq!(engine.infer_cell_type("."), InferredType::Utf8);
    assert_eq!(engine.infer_cell_type("2024-02-29"), InferredType::Date32);
    assert_eq!(engine.infer_cell_type("2023-02-29"), InferredType::Utf8);
    assert_eq!(engine.infer_cell_type("2024-02-29T23:59:59"), InferredType::TimestampMicros);
    assert_eq!(engine.infer_cell_type("2024-02-29T23:59:59+02:00"), InferredType::TimestampMicros);
    assert_eq!(engine.infer_cell_type("hello"), InferredType::Utf8);
}

#[test]
fn classification_precedence() {
    let none = CellEvidence {
        is_null_token: false,
        is_bool_word: false,
        int_syntax: false,
        decimal_syntax: false,
        date_syntax: false,
        timestamp_syntax: false,
    };
    assert_eq!(classify_cell(none), InferredType::Utf8);
    assert_eq!(classify_cell(CellEvidence { timestamp_syntax: true, ..none }), InferredType::TimestampMicros);
    assert_eq!(classify_cell(CellEvidence { date_syntax: true, timestamp_syntax: true, ..none }), InferredType::Date32);
    assert_eq!(classify_cell(CellEvidence { int_syntax: true, decimal_syntax: true, ..none }), InferredType::Int64);
    assert_eq!(classify_cell(CellEvidence { is_null_token: true, int_syntax: true, ..none }), InferredType::Null);
    assert_eq!(classify_cell(CellEvidence { is_bool_word: true, decimal_syntax: true, ..none }), InferredType::Boolean);
}

#[test]
fn inferred_types_map_to_arrow_types() {
    assert!(matches!(InferredType::Null.to_arrow_datatype(), ArrowType::Utf8));
    assert!(matches!(InferredType::Boolean.to_arrow_datatype(), ArrowType::Boolean));
    assert!(matches!(InferredType::Date32.to_arrow_datatype(), ArrowType::Date32));
}

#[test]
fn default_engine_settings() {
    let e = SchemaInferenceEngine::default();
    assert_eq!(e.max_sample_rows, 1000);
    assert_eq!(e.delimiter, b',');
    assert!(e.has_header);
    assert_eq!(e.null_values, vec!["", "null", "NULL", "None", "NA", "N/A", "nan", "NaN"]);
    let n = SchemaInferenceEngine::new(5, b'|', false);
    assert_eq!(n.max_sample_rows, 5);
    assert_eq!(n.delimiter, b'|');
    assert!(!n.has_header);
    assert_eq!(n.null_values, e.null_values);
}

#[test]
fn quote_free_lines_split_like_str_split() {
    for line in ["a, b ,c", "", ",,", " x ;y", "one"] {
        for d in [',', ';'] {
            let expected: Vec<String> = line.split(d).map(|s| s.trim().to_string()).collect();
            assert_eq!(parse_csv_line(line, d), expected);
        }
    }
}

#[test]
fn integer_syntax_boundaries() {
    let engine = SchemaInferenceEngine::default();
    assert_eq!(engine.infer_cell_type("9223372036854775807"), InferredType::Int64);
    assert_eq!(engine.infer_cell_type("-9223372036854775808"), InferredType::Int64);
    assert_eq!(engine.infer_cell_type("+42"), InferredType::Int64);
    assert_eq!(engine.infer_cell_type("007"), InferredType::Int64);
    // out of range for i64, but still a decimal number
    assert_eq!(engine.infer_cell_type("9223372036854775808"), InferredType::Float64);
    assert_eq!(engine.infer_cell_type("-9223372036854775809"), InferredType::Float64);
    assert_eq!(engine.infer_cell_type("-"), InferredType::Utf8);
    assert_eq!(engine.infer_cell_type("1_000"), InferredType::Utf8);
}
