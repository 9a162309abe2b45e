use qlaro::cancel::CancellationToken;
use qlaro::hashing::{compute_bytes_fingerprint, compute_chunks_fingerprint, compute_dataset_version_id, sha256_hex};
use qlaro::recognizers::decimal_number_syntax;
use qlaro::text::{hex_text, text_less, trim_text, u64_text};
use qlaro::types::{DatasetId, IngestionOptions};

#[test]
fn sha256_known_digests() {
    assert_eq!(
        sha256_hex(b"abc"),
        "ba7816bf8f01cfea414140de5dae2223b00361a396177a9cb410ff61f20015ad"
    );
    assert_eq!(
        compute_bytes_fingerprint(b""),
        "e3b0c44298fc1c149afbf4c8996fb92427ae41e4649b934ca495991b7852b855"
    );
}

#[test]
fn chunked_fingerprint_equals_whole() {
    let whole = compute_bytes_fingerprint(b"hello world");
    let chunks = vec![b"hello".to_vec(), b" ".to_vec(), vec![], b"world".to_vec()];
    assert_eq!(compute_chunks_fingerprint(&chunks), whole);
    assert_ne!(compute_chunks_fingerprint(&vec![b"world".to_vec(), b"hello ".to_vec()]), whole);
}

#[test]
fn version_id_combines_fingerprint_and_schema() {
    assert_eq!(compute_dataset_version_id("ab", b"c"), sha256_hex(b"abc"));
    assert_ne!(compute_dataset_version_id("ab", b"c"), compute_dataset_version_id("a", b"bd"));
}

#[test]
fn uuid_text_and_random_ids() {
    assert_eq!(DatasetId(0).to_text(), "00000000-0000-0000-0000-000000000000");
    assert_eq!(
        DatasetId(u128::MAX).to_text(),
        "ffffffff-ffff-ffff-ffff-ffffffffffff"
    );
    let a = DatasetId::new_v4();
    let b = DatasetId::new_v4();
    assert_ne!(a, b);
    let t = a.to_text();
    assert_eq!(t.len(), 36);
    assert_eq!(&t[14..15], "4");
    assert!(["8", "9", "a", "b"].contains(&&t[19..20]));
    assert_eq!((a.0 >> 76) & 15, 4);
    assert_eq!((b.0 >> 62) & 3, 2);
}

#[test]
fn text_helpers() {
    assert_eq!(trim_text("\u{3000} a b \t\n"), "a b");
    assert_eq!(trim_text("   "), "");
    assert_eq!(u64_text(0), "0");
    assert_eq!(u64_text(18446744073709551615), "18446744073709551615");
    assert_eq!(hex_text(&[0x00, 0xab, 0x10]), "00ab10");
    assert!(text_less("abc", "abd"));
    assert!(text_less("ab", "abc"));
    assert!(!text_less("abc", "abc"));
    assert!(text_less("Z", "a"));
    assert!(text_less("z", "é"));
}

#[test]
fn decimal_syntax_cases() {
    for ok in ["1", "-1", "+1.5", "1e10", "1E-3", ".5", "5.", "inf", "-Infinity", "NaN", "0.0e+0"] {
        assert!(decimal_number_syntax(ok), "{}", ok);
        assert!(ok.parse::<f64>().is_ok(), "{}", ok);
    }
    for bad in ["", ".", "e5", "1e", "1.2.3", " 1", "1 ", "--1", "infinit", "0x10", "1_000"] {
        assert!(!decimal_number_syntax(bad), "{}", bad);
        assert!(bad.parse::<f64>().is_err(), "{}", bad);
    }
}

#[test]
fn cancellation_token() {
    let t = CancellationToken::new();
    assert!(!t.is_cancelled());
    let c = t.clone();
    c.cancel();
    assert!(t.is_cancelled());
    assert!(!CancellationToken::default().is_cancelled());
}

#[test]
fn default_ingestion_options() {
    let o = IngestionOptions::default();
    assert!(o.strict_schema);
    assert!(o.max_bytes.is_none());
    assert!(o.sample_limit.is_none());
}
