use qlaro::profiler::{
    extract_min_max, update_max, update_min, CanonicalScalar, ColumnStats, ColumnValues,
    DatasetProfiler, RuleCheck,
};

fn stats(name: &str, nulls: u64, total: u64) -> ColumnStats {
    ColumnStats {
        name: name.to_string(),
        data_type: "Int64".to_string(),
        total_count: total,
        null_count: nulls,
        min_value: None,
        max_value: None,
    }
}

#[test]
fn min_and_max_of_integer_and_text_columns() {
    let ids = ColumnValues::Int64(vec![Some(10), Some(20), Some(30), Some(40)]);
    assert_eq!(
        extract_min_max(&ids),
        (Some(CanonicalScalar::Int64(10)), Some(CanonicalScalar::Int64(40)))
    );
    let countries = ColumnValues::Utf8(vec![Some("US".into()), Some("DE".into()), None, Some("CA".into())]);
    assert_eq!(
        extract_min_max(&countries),
        (Some(CanonicalScalar::Utf8("CA".into())), Some(CanonicalScalar::Utf8("US".into())))
    );
    assert_eq!(countries.null_count(), 1);
    let small = ColumnValues::Int8(vec![None, Some(-128), Some(127), None]);
    assert_eq!(
        extract_min_max(&small),
        (Some(CanonicalScalar::Int8(-128)), Some(CanonicalScalar::Int8(127)))
    );
    let unsigned = ColumnValues::UInt64(vec![Some(u64::MAX), Some(3)]);
    assert_eq!(
        extract_min_max(&unsigned),
        (Some(CanonicalScalar::UInt64(3)), Some(CanonicalScalar::UInt64(u64::MAX)))
    );
    let text_order = ColumnValues::Utf8(vec![Some("b".into()), Some("ab".into()), Some("é".into()), Some("".into())]);
    assert_eq!(
        extract_min_max(&text_order),
        (Some(CanonicalScalar::Utf8("".into())), Some(CanonicalScalar::Utf8("é".into())))
    );
}

#[test]
fn empty_or_all_null_columns_have_no_extremes() {
    assert_eq!(extract_min_max(&ColumnValues::Int32(vec![])), (None, None));
    assert_eq!(extract_min_max(&ColumnValues::Int16(vec![None, None])), (None, None));
    assert_eq!(extract_min_max(&ColumnValues::Utf8(vec![None])), (None, None));
    let opaque = ColumnValues::Opaque { len: 4, null_count: 1 };
    assert_eq!(extract_min_max(&opaque), (None, None));
    assert_eq!(opaque.null_count(), 1);
}

#[test]
fn combining_batches() {
    assert_eq!(
        update_min(Some(CanonicalScalar::Int64(5)), Some(CanonicalScalar::Int64(3))),
        Some(CanonicalScalar::Int64(3))
    );
    assert_eq!(
        update_max(Some(CanonicalScalar::Int32(5)), Some(CanonicalScalar::Int32(3))),
        Some(CanonicalScalar::Int32(5))
    );
    assert_eq!(
        update_min(Some(CanonicalScalar::Utf8("m".into())), Some(CanonicalScalar::Utf8("a".into()))),
        Some(CanonicalScalar::Utf8("a".into()))
    );
    assert_eq!(update_min(None, Some(CanonicalScalar::Int8(1))), Some(CanonicalScalar::Int8(1)));
    assert_eq!(update_max(Some(CanonicalScalar::Int8(1)), None), Some(CanonicalScalar::Int8(1)));
    assert_eq!(
        update_min(Some(CanonicalScalar::Int8(9)), Some(CanonicalScalar::Int8(1))),
        Some(CanonicalScalar::Int8(1))
    );
    assert_eq!(
        update_max(Some(CanonicalScalar::UInt64(9)), Some(CanonicalScalar::UInt64(u64::MAX))),
        Some(CanonicalScalar::UInt64(u64::MAX))
    );
    // values of different types: the value already held is kept
    assert_eq!(
        update_min(Some(CanonicalScalar::Int8(9)), Some(CanonicalScalar::Int16(1))),
        Some(CanonicalScalar::Int8(9))
    );
}

#[test]
fn profiling_a_column_over_batches() {
    let batches = vec![
        ColumnValues::Int64(vec![Some(10), None]),
        ColumnValues::Int64(vec![Some(-5), Some(40), None]),
    ];
    let s = DatasetProfiler::profile_column("user_id", "Int64", &batches, 5);
    assert_eq!(s.name, "user_id");
    assert_eq!(s.data_type, "Int64");
    assert_eq!(s.total_count, 5);
    assert_eq!(s.null_count, 2);
    assert_eq!(s.min_value, Some(CanonicalScalar::Int64(-5)));
    assert_eq!(s.max_value, Some(CanonicalScalar::Int64(40)));
}

#[test]
fn quality_rules_without_floats() {
    let v = DatasetProfiler::check_min_row_count(4, 5).unwrap();
    assert_eq!(v.rule_description, "Minimum row count requirement of 5");
    assert!(v.details.contains("expected at least 5"));
    assert_eq!(v.details, "Dataset contains 4 rows, expected at least 5");
    assert!(v.column.is_none());
    assert!(DatasetProfiler::check_min_row_count(5, 5).is_none());

    let cols = vec![stats("country", 1, 4), stats("empty", 3, 3), stats("none", 0, 0)];
    assert!(DatasetProfiler::check_non_empty_column(&cols, "country").is_none());
    assert!(DatasetProfiler::check_non_empty_column(&cols, "none").is_none());
    assert!(DatasetProfiler::check_non_empty_column(&cols, "missing").is_none());
    let e = DatasetProfiler::check_non_empty_column(&cols, "empty").unwrap();
    assert_eq!(e.rule_description, "Non-empty column requirement for 'empty'");
    assert_eq!(e.column.as_deref(), Some("empty"));
    assert_eq!(e.details, "Column 'empty' is 100% null");
}

#[test]
fn later_column_of_same_name_is_used() {
    let cols = vec![stats("dup", 2, 2), stats("dup", 0, 2)];
    assert_eq!(DatasetProfiler::find_column(&cols, "dup"), Some(1));
    assert!(DatasetProfiler::check_non_empty_column(&cols, "dup").is_none());
    assert_eq!(DatasetProfiler::find_column(&cols, "x"), None);
}

#[test]
fn null_threshold_message() {
    let v = DatasetProfiler::null_threshold_violation("score", "15.0", "25.00");
    assert_eq!(v.rule_description, "Max null threshold of 15.0% for column 'score'");
    assert_eq!(v.details, "Column 'score' has 25.00% nulls, exceeding limit of 15.0%");
    assert!(v.details.contains("exceeding limit of 15.0%"));
    assert_eq!(v.column.as_deref(), Some("score"));
}

#[test]
fn int32_and_text_extremes_span_batches() {
    let ints = vec![
        ColumnValues::Int32(vec![Some(7), None, Some(3)]),
        ColumnValues::Int32(vec![None]),
        ColumnValues::Int32(vec![Some(-2), Some(11)]),
    ];
    let s = DatasetProfiler::profile_column("n", "Int32", &ints, 6);
    assert_eq!(s.null_count, 2);
    assert_eq!(s.min_value, Some(CanonicalScalar::Int32(-2)));
    assert_eq!(s.max_value, Some(CanonicalScalar::Int32(11)));

    let texts = vec![
        ColumnValues::Utf8(vec![Some("US".to_string()), Some("DE".to_string())]),
        ColumnValues::Utf8(vec![None, Some("CA".to_string()), Some("ZA".to_string())]),
    ];
    let t = DatasetProfiler::profile_column("country", "Utf8", &texts, 5);
    assert_eq!(t.null_count, 1);
    assert_eq!(t.min_value, Some(CanonicalScalar::Utf8("CA".to_string())));
    assert_eq!(t.max_value, Some(CanonicalScalar::Utf8("ZA".to_string())));
}

#[test]
fn narrow_integer_extremes_span_batches() {
    let bytes = vec![
        ColumnValues::Int8(vec![None]),
        ColumnValues::Int8(vec![Some(5), Some(9)]),
        ColumnValues::Int8(vec![Some(-100)]),
    ];
    let s = DatasetProfiler::profile_column("b", "Int8", &bytes, 4);
    assert_eq!(s.min_value, Some(CanonicalScalar::Int8(-100)));
    assert_eq!(s.max_value, Some(CanonicalScalar::Int8(9)));
    let words = vec![ColumnValues::UInt16(vec![Some(5)]), ColumnValues::UInt16(vec![Some(1), Some(700)])];
    let w = DatasetProfiler::profile_column("w", "UInt16", &words, 3);
    assert_eq!(w.min_value, Some(CanonicalScalar::UInt16(1)));
    assert_eq!(w.max_value, Some(CanonicalScalar::UInt16(700)));
}

#[test]
fn profiling_a_dataset_without_float_columns() {
    let names = vec!["user_id".to_string(), "country".to_string()];
    let types = vec!["Int64".to_string(), "Utf8".to_string()];
    let columns = vec![
        vec![ColumnValues::Int64(vec![Some(10), Some(20), Some(30), Some(40)])],
        vec![ColumnValues::Utf8(vec![
            Some("US".to_string()),
            Some("DE".to_string()),
            None,
            Some("CA".to_string()),
        ])],
    ];
    let summary = DatasetProfiler::profile_columns(&names, &types, &columns, &vec![4]);
    assert_eq!(summary.row_count, 4);
    assert_eq!(summary.column_count, 2);
    let user = &summary.columns[0];
    assert_eq!(user.name, "user_id");
    assert_eq!(user.null_count, 0);
    assert_eq!(user.min_value, Some(CanonicalScalar::Int64(10)));
    assert_eq!(user.max_value, Some(CanonicalScalar::Int64(40)));
    let country = &summary.columns[1];
    assert_eq!(country.null_count, 1);
    assert_eq!(country.total_count, 4);
    assert!(DatasetProfiler::check_non_empty_column(&summary.columns, "country").is_none());
    let v = DatasetProfiler::check_min_row_count(summary.row_count, 5).unwrap();
    assert!(v.details.contains("expected at least 5"));
}

#[test]
fn rules_are_checked_in_order() {
    let cols = vec![stats("user_id", 0, 4), stats("score", 1, 4), stats("country", 1, 4)];
    let rules = vec![
        RuleCheck::MinRowCount(5),
        RuleCheck::MaxNullPercentage {
            column: "score".to_string(),
            limit_text: "15.0".to_string(),
            exceeded: Some("25.00".to_string()),
        },
        RuleCheck::NonEmptyColumn("country".to_string()),
    ];
    let violations = DatasetProfiler::evaluate_rules(4, &cols, &rules);
    assert_eq!(violations.len(), 2);
    assert!(violations[0].details.contains("expected at least 5"));
    assert!(violations[1].details.contains("exceeding limit of 15.0%"));
    assert_eq!(violations[1].column.as_deref(), Some("score"));
    let none = DatasetProfiler::evaluate_rules(
        4,
        &cols,
        &vec![RuleCheck::MaxNullPercentage {
            column: "score".to_string(),
            limit_text: "50.0".to_string(),
            exceeded: None,
        }],
    );
    assert!(none.is_empty());
}
