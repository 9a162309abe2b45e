use qlaro::error::{QlaroError, QlaroErrorCode};
use qlaro::format::{
    format_to_inspect, require_inspectable, storage_format_from_extension,
    storage_format_from_probe, BatchScan, ScanSource, ScanStep,
};
use qlaro::ingest::{
    zero_row_diagnostics, DatasetRegistration, IngestAction, IngestEvent, IngestMachine,
    IngestPhase, INGESTION_PIPELINE_VERSION,
};
use qlaro::types::{DatasetId, IngestionOptions, IngestionSource, StorageFormat};

fn source(name: &str, path: &str, hint: Option<StorageFormat>) -> IngestionSource {
    IngestionSource { name: name.to_string(), source_path: path.to_string(), format_hint: hint }
}

#[test]
fn extension_detection() {
    assert_eq!(storage_format_from_extension("/data/x.parquet"), Some(StorageFormat::Parquet));
    assert_eq!(storage_format_from_extension("x.PQ"), Some(StorageFormat::Parquet));
    assert_eq!(storage_format_from_extension("a/b.Feather"), Some(StorageFormat::ArrowIpc));
    assert_eq!(storage_format_from_extension("b.ipc"), Some(StorageFormat::ArrowIpc));
    assert_eq!(storage_format_from_extension("b.arrow"), Some(StorageFormat::ArrowIpc));
    assert_eq!(storage_format_from_extension("t.TSV"), Some(StorageFormat::Csv));
    assert_eq!(storage_format_from_extension("t.csv"), Some(StorageFormat::Csv));
    assert_eq!(storage_format_from_extension("noext"), None);
    assert_eq!(storage_format_from_extension(".csv"), None);
    assert_eq!(storage_format_from_extension("x.json"), None);
}

#[test]
fn magic_detection() {
    assert_eq!(storage_format_from_probe("f", Ok(Some(b"PAR1".to_vec()))).unwrap(), StorageFormat::Parquet);
    assert_eq!(storage_format_from_probe("f", Ok(Some(b"PAR1\x00\x15".to_vec()))).unwrap(), StorageFormat::Parquet);
    assert_eq!(storage_format_from_probe("f", Ok(Some(b"ARROW1".to_vec()))).unwrap(), StorageFormat::ArrowIpc);
    match storage_format_from_probe("/tmp/f.bin", Ok(Some(b"ABCDEF".to_vec()))) {
        Err(QlaroError::Core(QlaroErrorCode::InvalidFormat(m))) => {
            assert_eq!(m, "Unable to determine storage format for /tmp/f.bin")
        }
        other => panic!("unexpected {:?}", other),
    }
    assert!(matches!(
        storage_format_from_probe("/tmp/dir", Ok(None)),
        Err(QlaroError::Core(QlaroErrorCode::InvalidFormat(m))) if m == "Unable to determine storage format for /tmp/dir"
    ));
    for short in [&b"ARRO"[..], &b"ARR1"[..], &b"PAR"[..], &b""[..]] {
        assert!(matches!(
            storage_format_from_probe("f", Ok(Some(short.to_vec()))),
            Err(QlaroError::Core(QlaroErrorCode::InvalidFormat(_)))
        ));
    }
    assert!(matches!(storage_format_from_probe("f", Err("denied".to_string())), Err(QlaroError::Io(m)) if m == "denied"));
    assert!(require_inspectable(StorageFormat::Parquet).is_ok());
    assert!(matches!(
        require_inspectable(StorageFormat::Csv),
        Err(QlaroError::Core(QlaroErrorCode::InvalidFormat(m))) if m == "CSV format requires schema inference engine "
    ));
}

#[test]
fn format_to_inspect_prefers_the_hint() {
    assert_eq!(
        format_to_inspect(Some(StorageFormat::ArrowIpc), None).unwrap(),
        StorageFormat::ArrowIpc
    );
    assert_eq!(
        format_to_inspect(None, Some(Ok(StorageFormat::Parquet))).unwrap(),
        StorageFormat::Parquet
    );
    assert!(matches!(
        format_to_inspect(None, Some(Err(QlaroError::Io("gone".to_string())))),
        Err(QlaroError::Io(m)) if m == "gone"
    ));
    assert!(matches!(
        format_to_inspect(Some(StorageFormat::Csv), None),
        Err(QlaroError::Core(QlaroErrorCode::InvalidFormat(_)))
    ));
}

#[test]
fn batch_scan_stops_at_sample_limit() {
    assert_eq!(BatchScan::parquet_batch_size(None), 1024);
    assert_eq!(BatchScan::parquet_batch_size(Some(7)), 7);
    let mut scan = BatchScan::begin(ScanSource::Parquet, Some(5), false).unwrap();
    assert!(matches!(scan.on_batch(false, Ok(3)), ScanStep::Continue));
    assert!(matches!(scan.on_batch(false, Ok(3)), ScanStep::Stop));
    assert_eq!(scan.total_rows, 6);
    assert_eq!(scan.batches, 2);
    let mut unbounded = BatchScan::begin(ScanSource::IpcFile, None, false).unwrap();
    assert!(matches!(unbounded.on_batch(false, Ok(1000)), ScanStep::Continue));
}

#[test]
fn batch_scan_cancellation_and_corruption() {
    match BatchScan::begin(ScanSource::IpcStream, None, true) {
        Err(QlaroError::Core(QlaroErrorCode::Cancelled(m))) => {
            assert_eq!(m, "Inspection cancelled before reading Arrow IPC file")
        }
        other => panic!("unexpected {:?}", other),
    }
    let mut scan = BatchScan::begin(ScanSource::IpcStream, None, false).unwrap();
    match scan.on_batch(true, Ok(1)) {
        ScanStep::Abort(QlaroError::Core(QlaroErrorCode::Cancelled(m))) => {
            assert_eq!(m, "Arrow IPC stream inspection cancelled during batch processing")
        }
        other => panic!("unexpected {:?}", other),
    }
    match scan.on_batch(false, Err("bad footer".to_string())) {
        ScanStep::Abort(QlaroError::Core(QlaroErrorCode::CorruptedBatch(m))) => assert_eq!(m, "bad footer"),
        other => panic!("unexpected {:?}", other),
    }
    assert_eq!(scan.total_rows, 0);
}

fn run_to_register(m: &mut IngestMachine, size: u64, rows: u64) -> IngestAction {
    assert!(matches!(m.step(IngestEvent::Started { cancelled: false }), IngestAction::ProbeSource));
    assert!(matches!(m.step(IngestEvent::SourceProbed { exists: true }), IngestAction::ReadSize));
    assert!(matches!(m.step(IngestEvent::SizeRead(Ok(size))), IngestAction::Fingerprint));
    match m.step(IngestEvent::Fingerprinted(Ok("fp".to_string()))) {
        IngestAction::Inspect { format_hint, sample_limit } => {
            assert_eq!(format_hint, Some(StorageFormat::Parquet));
            assert_eq!(sample_limit, Some(100));
        }
        other => panic!("unexpected {:?}", other),
    }
    assert!(matches!(
        m.step(IngestEvent::Inspected { outcome: Ok((StorageFormat::Parquet, rows)), cancelled: false }),
        IngestAction::SerializeSchema
    ));
    m.step(IngestEvent::SchemaSerialized(Ok("{}".to_string())))
}

#[test]
fn ingestion_success_path() {
    let opts = IngestionOptions { strict_schema: true, max_bytes: Some(1000), sample_limit: Some(100) };
    let mut m = IngestMachine::new(source("transactions", "/d/t.parquet", Some(StorageFormat::Parquet)), opts);
    match run_to_register(&mut m, 1000, 4) {
        IngestAction::Register { name, path, format, schema_json, fingerprint, row_count, byte_size } => {
            assert_eq!(name, "transactions");
            assert_eq!(path, "/d/t.parquet");
            assert_eq!(format, StorageFormat::Parquet);
            assert_eq!(schema_json, "{}");
            assert_eq!(fingerprint, "fp");
            assert_eq!(row_count, 4);
            assert_eq!(byte_size, 1000);
        }
        other => panic!("unexpected {:?}", other),
    }
    assert!(matches!(m.step(IngestEvent::Registered(Ok((DatasetId(9), "v1".to_string())))), IngestAction::ReadClock));
    match m.step(IngestEvent::ClockRead(1234)) {
        IngestAction::Finish(s) => {
            assert_eq!(s.dataset_id, DatasetId(9));
            assert_eq!(s.version_id, "v1");
            assert_eq!(s.name, "transactions");
            assert_eq!(s.row_count, 4);
            assert_eq!(s.byte_size, 1000);
            assert_eq!(s.source_fingerprint.0, "fp");
            assert_eq!(s.lineage.pipeline_version, INGESTION_PIPELINE_VERSION);
            assert_eq!(s.lineage.ingested_at, 1234);
            assert_eq!(s.lineage.source_path, "/d/t.parquet");
            assert!(s.diagnostics.is_empty());
        }
        other => panic!("unexpected {:?}", other),
    }
    assert_eq!(m.phase, IngestPhase::Done);
}

#[test]
fn ingestion_zero_rows_gets_diagnostic() {
    let opts = IngestionOptions { strict_schema: true, max_bytes: None, sample_limit: Some(100) };
    let mut m = IngestMachine::new(source("z", "/z.parquet", Some(StorageFormat::Parquet)), opts);
    assert!(matches!(run_to_register(&mut m, 5, 0), IngestAction::Register { .. }));
    m.step(IngestEvent::Registered(Ok((DatasetId(1), "v".to_string()))));
    match m.step(IngestEvent::ClockRead(0)) {
        IngestAction::Finish(s) => {
            assert_eq!(s.diagnostics.len(), 1);
            assert_eq!(s.diagnostics[0].message, "Dataset schema registered successfully, but source contains 0 records");
        }
        other => panic!("unexpected {:?}", other),
    }
    let d = zero_row_diagnostics(0);
    assert!(matches!(&d[0].code, QlaroErrorCode::CorruptedBatch(c) if c == "Zero rows ingested"));
    assert_eq!(d[0].suggested_action.as_deref(), Some("Verify that source file has valid records"));
    assert!(zero_row_diagnostics(3).is_empty());
}

#[test]
fn ingestion_cancelled_before_start() {
    let mut m = IngestMachine::new(source("c", "/c.parquet", None), IngestionOptions::default());
    match m.step(IngestEvent::Started { cancelled: true }) {
        IngestAction::Fail(QlaroError::Core(QlaroErrorCode::Cancelled(msg))) => {
            assert!(msg.contains("cancelled"));
            assert_eq!(msg, "Ingestion cancelled before starting pipeline");
        }
        other => panic!("unexpected {:?}", other),
    }
    assert_eq!(m.phase, IngestPhase::Done);
}

#[test]
fn ingestion_cancelled_before_registration() {
    let mut m = IngestMachine::new(source("c", "/c.parquet", None), IngestionOptions::default());
    m.step(IngestEvent::Started { cancelled: false });
    m.step(IngestEvent::SourceProbed { exists: true });
    m.step(IngestEvent::SizeRead(Ok(10)));
    m.step(IngestEvent::Fingerprinted(Ok("f".to_string())));
    match m.step(IngestEvent::Inspected { outcome: Ok((StorageFormat::Parquet, 4)), cancelled: true }) {
        IngestAction::Fail(QlaroError::Core(QlaroErrorCode::Cancelled(msg))) => {
            assert_eq!(msg, "Ingestion cancelled before catalog registration")
        }
        other => panic!("unexpected {:?}", other),
    }
}

#[test]
fn ingestion_size_checks() {
    let opts = IngestionOptions { strict_schema: true, max_bytes: Some(10), sample_limit: None };
    let mut m = IngestMachine::new(source("oversized", "/o.parquet", None), opts);
    m.step(IngestEvent::Started { cancelled: false });
    m.step(IngestEvent::SourceProbed { exists: true });
    match m.step(IngestEvent::SizeRead(Ok(2048))) {
        IngestAction::Fail(QlaroError::Core(QlaroErrorCode::ResourceLimitExceeded(msg))) => {
            assert!(msg.contains("exceeds configured limit"));
            assert_eq!(msg, "File size 2048 bytes exceeds configured limit of 10 bytes");
        }
        other => panic!("unexpected {:?}", other),
    }
    let mut e = IngestMachine::new(source("empty", "/e.parquet", None), IngestionOptions::default());
    e.step(IngestEvent::Started { cancelled: false });
    e.step(IngestEvent::SourceProbed { exists: true });
    assert!(matches!(
        e.step(IngestEvent::SizeRead(Ok(0))),
        IngestAction::Fail(QlaroError::Core(QlaroErrorCode::InvalidFormat(m))) if m == "Cannot ingest empty (0-byte) source file"
    ));
    let mut r = IngestMachine::new(source("r", "/r.parquet", None), IngestionOptions::default());
    r.step(IngestEvent::Started { cancelled: false });
    r.step(IngestEvent::SourceProbed { exists: true });
    assert!(matches!(r.step(IngestEvent::SizeRead(Err("eacces".to_string()))), IngestAction::Fail(QlaroError::Io(m)) if m == "eacces"));
}

#[test]
fn ingestion_missing_source_and_failures_pass_through() {
    let mut m = IngestMachine::new(source("m", "/missing.parquet", None), IngestionOptions::default());
    m.step(IngestEvent::Started { cancelled: false });
    assert!(matches!(
        m.step(IngestEvent::SourceProbed { exists: false }),
        IngestAction::Fail(QlaroError::Io(msg)) if msg == "Source file not found: /missing.parquet"
    ));
    let mut c = IngestMachine::new(source("c", "/c.parquet", None), IngestionOptions::default());
    c.step(IngestEvent::Started { cancelled: false });
    c.step(IngestEvent::SourceProbed { exists: true });
    c.step(IngestEvent::SizeRead(Ok(42)));
    c.step(IngestEvent::Fingerprinted(Ok("f".to_string())));
    assert!(matches!(
        c.step(IngestEvent::Inspected {
            outcome: Err(QlaroError::Core(QlaroErrorCode::CorruptedBatch("no footer".to_string()))),
            cancelled: false
        }),
        IngestAction::Fail(QlaroError::Core(QlaroErrorCode::CorruptedBatch(_)))
    ));
    let mut s = IngestMachine::new(source("s", "/s.parquet", None), IngestionOptions::default());
    s.step(IngestEvent::Started { cancelled: false });
    s.step(IngestEvent::SourceProbed { exists: true });
    s.step(IngestEvent::SizeRead(Ok(42)));
    s.step(IngestEvent::Fingerprinted(Ok("f".to_string())));
    s.step(IngestEvent::Inspected { outcome: Ok((StorageFormat::ArrowIpc, 1)), cancelled: false });
    assert!(matches!(
        s.step(IngestEvent::SchemaSerialized(Err("json".to_string()))),
        IngestAction::Fail(QlaroError::Serialization(m)) if m == "json"
    ));
}

#[test]
fn out_of_order_events_fail() {
    let mut m = IngestMachine::new(source("x", "/x", None), IngestionOptions::default());
    assert!(matches!(
        m.step(IngestEvent::ClockRead(1)),
        IngestAction::Fail(QlaroError::Core(QlaroErrorCode::Internal(_)))
    ));
    assert!(matches!(
        m.step(IngestEvent::Started { cancelled: false }),
        IngestAction::Fail(QlaroError::Core(QlaroErrorCode::Internal(_)))
    ));
}

#[test]
fn registration_from_parts() {
    let r = DatasetRegistration::new(
        "test_users".to_string(),
        "/tmp/u.parquet".to_string(),
        StorageFormat::Parquet,
        "abcd".to_string(),
        99,
        DatasetId(5),
        10,
        11,
    );
    assert_eq!(r.metadata.name, "test_users");
    assert_eq!(r.metadata.format, StorageFormat::Parquet);
    assert_eq!(r.metadata.row_count, 0);
    assert_eq!(r.metadata.byte_size, 99);
    assert_eq!(r.source_path, "/tmp/u.parquet");
}

#[test]
fn ipc_reader_choice() {
    let mut scan = BatchScan::begin(ScanSource::IpcFile, Some(3), false).unwrap();
    assert_eq!(scan.choose_ipc_reader(true), ScanSource::IpcFile);
    assert_eq!(scan.choose_ipc_reader(false), ScanSource::IpcStream);
    assert_eq!(scan.source, ScanSource::IpcStream);
    assert!(matches!(
        BatchScan::ipc_unreadable("bad".to_string()),
        QlaroError::Core(QlaroErrorCode::CorruptedBatch(m)) if m == "bad"
    ));
}
