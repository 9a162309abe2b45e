//! Core value types of the catalog: identities, fingerprints, metadata, formats and the
//! descriptions of an ingestion request.

use vstd::prelude::*;
use crate::text::{hex_char, hex_digit, push_char, string_from_chars};

verus! {

/// A dataset identity: a UUID held as its 128-bit value.
#[derive(Debug, Clone, Copy, PartialEq, Eq, Hash, Structural)]
pub struct DatasetId(pub u128);

/// Hex digit `k` (0 = most significant) of a 128-bit value.
pub open spec fn nibble_char(v: u128, k: int) -> char {
    hex_char(((v >> ((124 - 4 * k) as u128)) & 15u128) as nat)
}

/// The 32 hex digits of a 128-bit value, most significant first.
pub open spec fn hex_digits_u128(v: u128) -> Seq<char> {
    Seq::new(32, |k: int| nibble_char(v, k))
}

/// The hyphenated lower-case text of a UUID (8-4-4-4-12 hex digits), as `Uuid` prints.
pub open spec fn uuid_text(v: u128) -> Seq<char> {
    let d = hex_digits_u128(v);
    d.subrange(0, 8) + seq!['-'] + d.subrange(8, 12) + seq!['-'] + d.subrange(12, 16) + seq!['-']
        + d.subrange(16, 20) + seq!['-'] + d.subrange(20, 32)
}

/// The version nibble of a UUID's 128-bit value (bits 76 to 79).
pub open spec fn uuid_version(v: u128) -> u128 {
    (v >> 76u128) & 15u128
}

/// The two variant bits of a UUID's 128-bit value (bits 62 and 63).
pub open spec fn uuid_variant(v: u128) -> u128 {
    (v >> 62u128) & 3u128
}

/// A fresh random version-4 UUID (`uuid::Uuid::new_v4`), as its 128-bit value. The crate
/// masks random bits and sets the version nibble to 4 and the variant bits to `10`; the
/// other 122 bits are random, and nothing is claimed of them.
#[verifier::external_body]
fn random_uuid_v4() -> (r: u128)
    ensures
        uuid_version(r) == 4,
        uuid_variant(r) == 2,
{
    uuid::Uuid::new_v4().as_u128()
}

impl DatasetId {
    /// A new random identity: a version-4 UUID of the RFC 4122 variant, whose text has
    /// `4` as its fifteenth character.
    pub fn new_v4() -> (r: DatasetId)
        ensures
            uuid_version(r.0) == 4,
            uuid_variant(r.0) == 2,
            uuid_text(r.0)[14] == '4',
    {
        let v = random_uuid_v4();
        proof {
            let d = hex_digits_u128(v);
            assert(uuid_text(v)[14] == d[12]);
            assert(d[12] == nibble_char(v, 12));
            assert((124 - 4 * 12) as u128 == 76u128);
            assert(nibble_char(v, 12) == hex_char(4));
        }
        DatasetId(v)
    }

    /// The identity's hyphenated text (what `Display` prints).
    pub fn to_text(&self) -> (r: String)
        ensures
            r@ == uuid_text(self.0),
    {
        let v = self.0;
        let mut d: Vec<char> = Vec::new();
        let mut k: u32 = 0;
        while k < 32
            invariant
                k <= 32,
                d@ == Seq::new(k as nat, |j: int| nibble_char(v, j)),
            decreases 32 - k,
        {
            let shift: u32 = 124 - 4 * k;
            let nib: u128 = (v >> shift) & 15u128;
            assert(nib < 16) by (bit_vector)
                requires
                    nib == (v >> shift) & 15u128,
            ;
            let c = hex_digit(nib as u8);
            assert(c == nibble_char(v, k as int));
            d.push(c);
            assert(d@ =~= Seq::new((k + 1) as nat, |j: int| nibble_char(v, j)));
            k = k + 1;
        }
        assert(d@ =~= hex_digits_u128(v));
        let mut r = string_from_chars(&d, 0, 8);
        push_char(&mut r, '-');
        let p2 = string_from_chars(&d, 8, 12);
        r.append(&p2);
        push_char(&mut r, '-');
        let p3 = string_from_chars(&d, 12, 16);
        r.append(&p3);
        push_char(&mut r, '-');
        let p4 = string_from_chars(&d, 16, 20);
        r.append(&p4);
        push_char(&mut r, '-');
        let p5 = string_from_chars(&d, 20, 32);
        r.append(&p5);
        r
    }
}

/// A content fingerprint: the hex SHA-256 digest of the content.
#[derive(Debug, Clone, PartialEq, Eq, Hash)]
pub struct DatasetFingerprint(pub String);

/// On-disk storage format of a dataset.
#[derive(Debug, Clone, Copy, PartialEq, Eq, Structural)]
pub enum StorageFormat {
    Parquet,
    ArrowIpc,
    Csv,
}

/// Descriptive metadata of a registered dataset. Times are microseconds since the Unix
/// epoch (UTC).
#[derive(Debug, Clone)]
pub struct DatasetMetadata {
    pub id: DatasetId,
    pub name: String,
    pub fingerprint: DatasetFingerprint,
    pub format: StorageFormat,
    pub row_count: u64,
    pub byte_size: u64,
    pub created_at: i64,
    pub updated_at: i64,
}

/// Where a dataset to ingest comes from.
#[derive(Debug, Clone)]
pub struct IngestionSource {
    pub name: String,
    pub source_path: String,
    pub format_hint: Option<StorageFormat>,
}

/// Limits and switches of one ingestion.
#[derive(Debug, Clone)]
pub struct IngestionOptions {
    pub strict_schema: bool,
    pub max_bytes: Option<u64>,
    pub sample_limit: Option<usize>,
}

impl Default for IngestionOptions {
    fn default() -> (r: IngestionOptions)
        ensures
            r.strict_schema,
            r.max_bytes is None,
            r.sample_limit is None,
    {
        IngestionOptions { strict_schema: true, max_bytes: None, sample_limit: None }
    }
}

/// Where an ingested dataset came from and when. `ingested_at` is microseconds since the
/// Unix epoch (UTC).
#[derive(Debug, Clone)]
pub struct IngestionLineage {
    pub source_path: String,
    pub source_fingerprint: DatasetFingerprint,
    pub ingested_at: i64,
    pub pipeline_version: String,
}

/// The view of dataset metadata: strings by their characters.
pub struct MetadataView {
    pub id: u128,
    pub name: Seq<char>,
    pub fingerprint: Seq<char>,
    pub format: StorageFormat,
    pub row_count: u64,
    pub byte_size: u64,
    pub created_at: i64,
    pub updated_at: i64,
}

impl View for DatasetMetadata {
    type V = MetadataView;

    open spec fn view(&self) -> MetadataView {
        MetadataView {
            id: self.id.0,
            name: self.name@,
            fingerprint: self.fingerprint.0@,
            format: self.format,
            row_count: self.row_count,
            byte_size: self.byte_size,
            created_at: self.created_at,
            updated_at: self.updated_at,
        }
    }
}

impl DatasetMetadata {
    /// A copy with equal contents.
    pub fn duplicate(&self) -> (r: DatasetMetadata)
        ensures
            r@ == self@,
    {
        DatasetMetadata {
            id: self.id,
            name: self.name.clone(),
            fingerprint: DatasetFingerprint(self.fingerprint.0.clone()),
            format: self.format,
            row_count: self.row_count,
            byte_size: self.byte_size,
            created_at: self.created_at,
            updated_at: self.updated_at,
        }
    }
}

/// The current time, in microseconds since the Unix epoch (`chrono::Utc::now`).
#[verifier::external_body]
pub(crate) fn utc_now_micros() -> i64 {
    chrono::Utc::now().timestamp_micros()
}

} // verus!
