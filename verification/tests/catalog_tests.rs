use qlaro::catalog::InMemoryCatalogStore;
use qlaro::error::{QlaroError, QlaroErrorCode};
use qlaro::hashing::compute_dataset_version_id;
use qlaro::types::{DatasetId, StorageFormat};

#[test]
fn test_catalog_store_lifecycle() {
    let mut store = InMemoryCatalogStore::new();
    let path = "/tmp/synthetic_sales.parquet";

    let rec = store.register_dataset_now(
        "sales",
        path,
        StorageFormat::Parquet,
        r#"{"fields":[]}"#,
        "abc123sha256",
        1000,
        50000,
    );

    assert_eq!(rec.metadata.name, "sales");
    assert_eq!(rec.versions.len(), 1);

    let retrieved = store.get_dataset_by_name("sales").unwrap();
    assert_eq!(retrieved.metadata.id, rec.metadata.id);

    let list = store.list_datasets();
    assert_eq!(list.len(), 1);

    let removed = store.remove_dataset(&rec.metadata.id).unwrap();
    assert_eq!(removed.metadata.name, "sales");
    assert!(store.get_dataset(&rec.metadata.id).is_err());
}

#[test]
fn reregistering_keeps_identity_and_appends_version() {
    let mut store = InMemoryCatalogStore::new();
    let first = store.register_dataset("orders", "/a.parquet", StorageFormat::Parquet, "s1", "f1", 1, 10, DatasetId(7), 100);
    let second = store.register_dataset("orders", "/b.arrow", StorageFormat::ArrowIpc, "s2", "f2", 2, 20, DatasetId(8), 200);
    assert_eq!(first.metadata.id, DatasetId(7));
    assert_eq!(second.metadata.id, DatasetId(7));
    assert_eq!(second.versions.len(), 2);
    assert_eq!(second.versions[0].schema_json, "s1");
    assert_eq!(second.versions[1].schema_json, "s2");
    assert_eq!(second.current_version_id, second.versions[1].version_id);
    assert_eq!(second.source_path, "/b.arrow");
    assert_eq!(second.metadata.format, StorageFormat::ArrowIpc);
    assert_eq!(second.metadata.row_count, 2);
    assert_eq!(second.metadata.created_at, 200);
    let got = store.get_dataset(&DatasetId(7)).unwrap();
    assert_eq!(got.versions.len(), 2);
    assert!(store.get_dataset(&DatasetId(8)).is_err());
    assert_eq!(store.list_datasets().len(), 1);
}

#[test]
fn version_identity_is_hash_of_fingerprint_and_schema() {
    let mut store = InMemoryCatalogStore::new();
    let rec = store.register_dataset("x", "/x", StorageFormat::Csv, "schema", "fp", 0, 1, DatasetId(1), 5);
    assert_eq!(rec.current_version_id, compute_dataset_version_id("fp", b"schema"));
    assert_eq!(rec.current_version_id.len(), 64);
    // same inputs elsewhere give the same identity
    let mut other = InMemoryCatalogStore::new();
    let rec2 = other.register_dataset("y", "/y", StorageFormat::Csv, "schema", "fp", 3, 4, DatasetId(2), 6);
    assert_eq!(rec.current_version_id, rec2.current_version_id);
    assert_eq!(rec.versions[0].dataset_id, DatasetId(1));
    assert!(rec.versions[0].parent_version_id.is_none());
}

#[test]
fn lookups_of_unknown_datasets_fail() {
    let mut store = InMemoryCatalogStore::new();
    match store.get_dataset_by_name("nope") {
        Err(QlaroError::Core(QlaroErrorCode::DatasetNotFound(m))) => assert_eq!(m, "nope"),
        other => panic!("unexpected {:?}", other.map(|r| r.metadata.name)),
    }
    let id = DatasetId(0x0123456789abcdef0011223344556677);
    match store.get_dataset(&id) {
        Err(QlaroError::Core(QlaroErrorCode::DatasetNotFound(m))) => {
            assert_eq!(m, "01234567-89ab-cdef-0011-223344556677")
        }
        other => panic!("unexpected {:?}", other.map(|r| r.metadata.name)),
    }
    assert!(store.remove_dataset(&id).is_err());
}

#[test]
fn remove_drops_name_and_keeps_others() {
    let mut store = InMemoryCatalogStore::new();
    store.register_dataset("a", "/a", StorageFormat::Parquet, "s", "f", 1, 1, DatasetId(1), 1);
    store.register_dataset("b", "/b", StorageFormat::Parquet, "s", "f", 1, 1, DatasetId(2), 1);
    let removed = store.remove_dataset(&DatasetId(1)).unwrap();
    assert_eq!(removed.metadata.name, "a");
    assert!(store.get_dataset_by_name("a").is_err());
    assert_eq!(store.get_dataset_by_name("b").unwrap().metadata.id, DatasetId(2));
    assert_eq!(store.list_datasets().len(), 1);
    // registering "a" again creates a fresh dataset
    let again = store.register_dataset("a", "/a", StorageFormat::Parquet, "s", "f", 1, 1, DatasetId(3), 2);
    assert_eq!(again.metadata.id, DatasetId(3));
    assert_eq!(again.versions.len(), 1);
}

#[test]
fn default_catalog_is_empty() {
    let store = InMemoryCatalogStore::default();
    assert!(store.list_datasets().is_empty());
    assert!(store.get_dataset_by_name("anything").is_err());
}
