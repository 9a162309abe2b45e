//! The in-memory catalog: datasets keyed by identity, a name index, and the schema
//! version history of every dataset.

use vstd::prelude::*;
use crate::error::{QlaroError, QlaroErrorCode};
use crate::hashing::{compute_dataset_version_id, version_id_of};
use crate::text::same_text;
use std::collections::HashMap;
use vstd::std_specs::iter::IteratorSpec;
use crate::types::{
    uuid_text, uuid_variant, uuid_version, utc_now_micros, DatasetFingerprint, DatasetId, DatasetMetadata, MetadataView,
    StorageFormat,
};

verus! {

/// One registered schema of a dataset. `created_at` is microseconds since the Unix epoch.
#[derive(Debug, Clone)]
pub struct DatasetSchemaVersion {
    pub version_id: String,
    pub dataset_id: DatasetId,
    pub schema_json: String,
    pub created_at: i64,
    pub parent_version_id: Option<String>,
}

/// A dataset as the catalog holds it.
#[derive(Debug, Clone)]
pub struct DatasetRecord {
    pub metadata: DatasetMetadata,
    pub source_path: String,
    pub current_version_id: String,
    pub versions: Vec<DatasetSchemaVersion>,
}

pub struct VersionView {
    pub version_id: Seq<char>,
    pub dataset_id: u128,
    pub schema_json: Seq<char>,
    pub created_at: i64,
    pub parent_version_id: Option<Seq<char>>,
}

pub struct RecordView {
    pub metadata: MetadataView,
    pub source_path: Seq<char>,
    pub current_version_id: Seq<char>,
    pub versions: Seq<VersionView>,
}

/// The catalog's abstract state: the name index and the datasets by identity.
pub struct CatalogView {
    pub names: Map<Seq<char>, u128>,
    pub datasets: Map<u128, RecordView>,
}

impl View for DatasetSchemaVersion {
    type V = VersionView;

    open spec fn view(&self) -> VersionView {
        VersionView {
            version_id: self.version_id@,
            dataset_id: self.dataset_id.0,
            schema_json: self.schema_json@,
            created_at: self.created_at,
            parent_version_id: match self.parent_version_id {
                Some(p) => Some(p@),
                None => None,
            },
        }
    }
}

/// The views of a sequence of versions.
pub open spec fn version_views(v: Seq<DatasetSchemaVersion>) -> Seq<VersionView> {
    v.map_values(|x: DatasetSchemaVersion| x@)
}

impl View for DatasetRecord {
    type V = RecordView;

    open spec fn view(&self) -> RecordView {
        RecordView {
            metadata: self.metadata@,
            source_path: self.source_path@,
            current_version_id: self.current_version_id@,
            versions: version_views(self.versions@),
        }
    }
}

impl DatasetSchemaVersion {
    /// A copy with equal contents.
    pub fn duplicate(&self) -> (r: DatasetSchemaVersion)
        ensures
            r@ == self@,
    {
        DatasetSchemaVersion {
            version_id: self.version_id.clone(),
            dataset_id: self.dataset_id,
            schema_json: self.schema_json.clone(),
            created_at: self.created_at,
            parent_version_id: match &self.parent_version_id {
                Some(p) => Some(p.clone()),
                None => None,
            },
        }
    }
}

impl DatasetRecord {
    /// A copy with equal contents.
    pub fn duplicate(&self) -> (r: DatasetRecord)
        ensures
            r@ == self@,
    {
        let mut versions: Vec<DatasetSchemaVersion> = Vec::new();
        let mut i: usize = 0;
        while i < self.versions.len()
            invariant
                i <= self.versions@.len(),
                version_views(versions@) == version_views(self.versions@).take(i as int),
            decreases self.versions@.len() - i,
        {
            let ghost prev = versions@;
            versions.push(self.versions[i].duplicate());
            assert(version_views(versions@) =~= version_views(prev).push(self.versions@[i as int]@));
            assert(version_views(self.versions@).take(i + 1) =~= version_views(self.versions@).take(i as int).push(
                self.versions@[i as int]@,
            ));
            i = i + 1;
        }
        assert(version_views(self.versions@).take(i as int) =~= version_views(self.versions@));
        DatasetRecord {
            metadata: self.metadata.duplicate(),
            source_path: self.source_path.clone(),
            current_version_id: self.current_version_id.clone(),
            versions,
        }
    }
}

/// The catalog state after registering a dataset: an unknown name gets the fresh identity
/// `fresh`, a known name keeps its identity; a dataset already held under that identity
/// has its metadata, path and current version replaced and the new version appended,
/// otherwise a record with this one version is created. Returns the new state and record.
pub open spec fn register_spec(
    s: CatalogView,
    name: Seq<char>,
    path: Seq<char>,
    format: StorageFormat,
    schema_json: Seq<char>,
    fingerprint: Seq<char>,
    row_count: u64,
    byte_size: u64,
    fresh: u128,
    now: i64,
) -> (CatalogView, RecordView) {
    let id = if s.names.contains_key(name) { s.names[name] } else { fresh };
    let version_id = version_id_of(fingerprint, vstd::utf8::encode_utf8(schema_json));
    let version = VersionView {
        version_id,
        dataset_id: id,
        schema_json,
        created_at: now,
        parent_version_id: None,
    };
    let metadata = MetadataView {
        id,
        name,
        fingerprint,
        format,
        row_count,
        byte_size,
        created_at: now,
        updated_at: now,
    };
    let versions = if s.datasets.contains_key(id) {
        s.datasets[id].versions.push(version)
    } else {
        seq![version]
    };
    let rec = RecordView { metadata, source_path: path, current_version_id: version_id, versions };
    (CatalogView { names: s.names.insert(name, id), datasets: s.datasets.insert(id, rec) }, rec)
}

/// The catalog state after removing the dataset with identity `id` (which must be held):
/// the record goes, and so does the index entry for the record's name.
pub open spec fn remove_spec(s: CatalogView, id: u128) -> CatalogView {
    CatalogView {
        names: s.names.remove(s.datasets[id].metadata.name),
        datasets: s.datasets.remove(id),
    }
}

/// Right after a registration, the dataset is found under its identity and under its
/// name, and what is found is the record the registration returned.
pub proof fn law_register_then_lookup(
    s: CatalogView,
    name: Seq<char>,
    path: Seq<char>,
    format: StorageFormat,
    schema_json: Seq<char>,
    fingerprint: Seq<char>,
    row_count: u64,
    byte_size: u64,
    fresh: u128,
    now: i64,
)
    ensures
        ({
            let (s2, rec) = register_spec(s, name, path, format, schema_json, fingerprint, row_count, byte_size, fresh, now);
            &&& s2.datasets.get(rec.metadata.id) == Some(rec)
            &&& s2.names.get(name) == Some(rec.metadata.id)
            &&& rec.metadata.name == name
            &&& rec.current_version_id == rec.versions.last().version_id
            &&& rec.versions.last().schema_json == schema_json
        }),
{
}

/// Whatever the catalog held before, a registration returns, and files under its
/// identity, a record carrying exactly the details it was given: the name, path,
/// fingerprint, format, row count and byte size, the registration time, and as its current
/// version one recording the given schema under the version identity of the fingerprint
/// and schema.
pub proof fn law_registration_records_given_details(
    s: CatalogView,
    name: Seq<char>,
    path: Seq<char>,
    format: StorageFormat,
    schema_json: Seq<char>,
    fingerprint: Seq<char>,
    row_count: u64,
    byte_size: u64,
    fresh: u128,
    now: i64,
)
    ensures
        ({
            let (s2, rec) = register_spec(s, name, path, format, schema_json, fingerprint, row_count, byte_size, fresh, now);
            &&& rec.metadata.name == name
            &&& rec.metadata.format == format
            &&& rec.metadata.fingerprint == fingerprint
            &&& rec.metadata.row_count == row_count
            &&& rec.metadata.byte_size == byte_size
            &&& rec.metadata.created_at == now && rec.metadata.updated_at == now
            &&& rec.source_path == path
            &&& rec.versions.len() > 0
            &&& rec.versions.last().schema_json == schema_json
            &&& rec.versions.last().created_at == now
            &&& rec.current_version_id == version_id_of(fingerprint, vstd::utf8::encode_utf8(schema_json))
            &&& rec.versions.last().version_id == rec.current_version_id
            &&& s2.datasets.contains_key(rec.metadata.id) && s2.datasets[rec.metadata.id] == rec
            &&& s2.names.contains_key(name) && s2.names[name] == rec.metadata.id
        }),
{
}

/// Registering again under a known name keeps the dataset's identity and appends exactly
/// one schema version to its history, leaving the earlier versions as they were.
pub proof fn law_reregister_keeps_identity(
    s: CatalogView,
    name: Seq<char>,
    path: Seq<char>,
    format: StorageFormat,
    schema_json: Seq<char>,
    fingerprint: Seq<char>,
    row_count: u64,
    byte_size: u64,
    fresh: u128,
    now: i64,
)
    requires
        s.names.contains_key(name),
        s.datasets.contains_key(s.names[name]),
    ensures
        ({
            let (s2, rec) = register_spec(s, name, path, format, schema_json, fingerprint, row_count, byte_size, fresh, now);
            &&& rec.metadata.id == s.names[name]
            &&& rec.versions.len() == s.datasets[s.names[name]].versions.len() + 1
            &&& rec.versions.drop_last() == s.datasets[s.names[name]].versions
        }),
{
    let (s2, rec) = register_spec(s, name, path, format, schema_json, fingerprint, row_count, byte_size, fresh, now);
    assert(rec.versions.drop_last() =~= s.datasets[s.names[name]].versions);
}

/// A first registration of a name creates a dataset with a single version.
pub proof fn law_first_registration_single_version(
    s: CatalogView,
    name: Seq<char>,
    path: Seq<char>,
    format: StorageFormat,
    schema_json: Seq<char>,
    fingerprint: Seq<char>,
    row_count: u64,
    byte_size: u64,
    fresh: u128,
    now: i64,
)
    requires
        !s.names.contains_key(name),
        !s.datasets.contains_key(fresh),
    ensures
        ({
            let (s2, rec) = register_spec(s, name, path, format, schema_json, fingerprint, row_count, byte_size, fresh, now);
            &&& rec.metadata.id == fresh
            &&& rec.versions.len() == 1
            &&& s2.datasets.dom() == s.datasets.dom().insert(fresh)
        }),
{
}

/// A registration changes no other dataset and no other name.
pub proof fn law_register_frames_others(
    s: CatalogView,
    name: Seq<char>,
    path: Seq<char>,
    format: StorageFormat,
    schema_json: Seq<char>,
    fingerprint: Seq<char>,
    row_count: u64,
    byte_size: u64,
    fresh: u128,
    now: i64,
    other_id: u128,
    other_name: Seq<char>,
)
    ensures
        ({
            let (s2, rec) = register_spec(s, name, path, format, schema_json, fingerprint, row_count, byte_size, fresh, now);
            &&& other_id != rec.metadata.id ==> s2.datasets.get(other_id) == s.datasets.get(other_id)
            &&& other_name != name ==> s2.names.get(other_name) == s.names.get(other_name)
        }),
{
}

/// The version identity depends only on the fingerprint and the schema: two registrations
/// with the same fingerprint and schema get the same version identity, whatever else differs.
pub proof fn law_version_identity_deterministic(
    s: CatalogView,
    t: CatalogView,
    name: Seq<char>,
    other_name: Seq<char>,
    path: Seq<char>,
    other_path: Seq<char>,
    format: StorageFormat,
    schema_json: Seq<char>,
    fingerprint: Seq<char>,
    row_count: u64,
    byte_size: u64,
    fresh: u128,
    other_fresh: u128,
    now: i64,
    later: i64,
)
    ensures
        register_spec(s, name, path, format, schema_json, fingerprint, row_count, byte_size, fresh, now).1.current_version_id
            == register_spec(t, other_name, other_path, format, schema_json, fingerprint, row_count, byte_size, other_fresh, later).1.current_version_id,
{
}

/// After removing a dataset it is no longer found, neither by identity nor by its name,
/// and every other dataset is still there.
pub proof fn law_remove_then_lookup(s: CatalogView, id: u128, other_id: u128)
    requires
        s.datasets.contains_key(id),
    ensures
        !remove_spec(s, id).datasets.contains_key(id),
        !remove_spec(s, id).names.contains_key(s.datasets[id].metadata.name),
        other_id != id ==> remove_spec(s, id).datasets.get(other_id) == s.datasets.get(other_id),
{
}

/// A record as the catalog files it under identity `id`: it carries that identity, its
/// history is not empty, its last version is the current one, and every version names
/// the dataset.
pub open spec fn record_filed(r: RecordView, id: u128) -> bool {
    &&& r.metadata.id == id
    &&& r.versions.len() > 0
    &&& r.current_version_id == r.versions.last().version_id
    &&& forall|k: int| 0 <= k < r.versions.len() ==> (#[trigger] r.versions[k]).dataset_id == id
}

/// A consistent catalog: every record is filed under its own identity, every name entry
/// leads to a record of that name, and every record's name leads back to it.
pub open spec fn consistent(s: CatalogView) -> bool {
    &&& forall|id: u128| #[trigger] s.datasets.contains_key(id) ==> record_filed(s.datasets[id], id)
    &&& forall|n: Seq<char>| #[trigger] s.names.contains_key(n) ==> s.datasets.contains_key(s.names[n])
        && s.datasets[s.names[n]].metadata.name == n
    &&& forall|id: u128| #[trigger] s.datasets.contains_key(id) ==> s.names.contains_key(s.datasets[id].metadata.name)
        && s.names[s.datasets[id].metadata.name] == id
}

/// The empty catalog is consistent.
pub proof fn law_empty_catalog_consistent()
    ensures
        consistent(CatalogView { names: Map::empty(), datasets: Map::empty() }),
{
}

/// A registration keeps the catalog consistent, provided the fresh identity is not
/// already held.
pub proof fn law_register_keeps_consistent(
    s: CatalogView,
    name: Seq<char>,
    path: Seq<char>,
    format: StorageFormat,
    schema_json: Seq<char>,
    fingerprint: Seq<char>,
    row_count: u64,
    byte_size: u64,
    fresh: u128,
    now: i64,
)
    requires
        consistent(s),
        !s.datasets.contains_key(fresh),
    ensures
        consistent(register_spec(s, name, path, format, schema_json, fingerprint, row_count, byte_size, fresh, now).0),
{
    let (s2, rec) = register_spec(s, name, path, format, schema_json, fingerprint, row_count, byte_size, fresh, now);
    let id = rec.metadata.id;
    assert(record_filed(rec, id)) by {
        if s.datasets.contains_key(id) {
            let old_versions = s.datasets[id].versions;
            assert(record_filed(s.datasets[id], id));
            assert forall|k: int| 0 <= k < rec.versions.len() implies (#[trigger] rec.versions[k]).dataset_id == id by {
                if k < old_versions.len() {
                    assert(rec.versions[k] == old_versions[k]);
                }
            }
        }
    }
    assert forall|i: u128| #[trigger] s2.datasets.contains_key(i) implies record_filed(s2.datasets[i], i) by {
        if i != id {
            assert(s.datasets.contains_key(i));
        }
    }
    assert forall|n: Seq<char>| #[trigger] s2.names.contains_key(n) implies s2.datasets.contains_key(s2.names[n])
        && s2.datasets[s2.names[n]].metadata.name == n by {
        if n != name {
            assert(s.names.contains_key(n));
            let j = s.names[n];
            assert(s.datasets.contains_key(j));
            if j == id {
                // `id` was already the identity of another name: only a known name can have
                // it, and a known name is `name` itself.
                assert(s.names.contains_key(name) && s.names[name] == id);
                assert(s.datasets[id].metadata.name == name);
                assert(false);
            }
        }
    }
    assert forall|i: u128| #[trigger] s2.datasets.contains_key(i) implies s2.names.contains_key(s2.datasets[i].metadata.name)
        && s2.names[s2.datasets[i].metadata.name] == i by {
        if i != id {
            assert(s.datasets.contains_key(i));
            let n = s.datasets[i].metadata.name;
            assert(s.names.contains_key(n) && s.names[n] == i);
            if n == name {
                assert(s.names.contains_key(name));
                assert(s.names[name] == id);
                assert(false);
            }
        }
    }
}

/// A removal keeps the catalog consistent.
pub proof fn law_remove_keeps_consistent(s: CatalogView, id: u128)
    requires
        consistent(s),
        s.datasets.contains_key(id),
    ensures
        consistent(remove_spec(s, id)),
{
    let s2 = remove_spec(s, id);
    let gone = s.datasets[id].metadata.name;
    assert forall|n: Seq<char>| #[trigger] s2.names.contains_key(n) implies s2.datasets.contains_key(s2.names[n])
        && s2.datasets[s2.names[n]].metadata.name == n by {
        assert(s.names.contains_key(n));
        if s.names[n] == id {
            assert(s.datasets[id].metadata.name == n);
        }
    }
    assert forall|i: u128| #[trigger] s2.datasets.contains_key(i) implies s2.names.contains_key(s2.datasets[i].metadata.name)
        && s2.names[s2.datasets[i].metadata.name] == i by {
        assert(s.datasets.contains_key(i));
        let n = s.datasets[i].metadata.name;
        assert(s.names.contains_key(n) && s.names[n] == i);
        if n == gone {
            assert(s.names[gone] == id);
        }
    }
}

/// In a consistent catalog, registering again under a known name keeps the identity of
/// the dataset found under that name, replaces its details and appends exactly one
/// version, and the number of datasets does not change.
pub proof fn law_reregister_in_consistent_catalog(
    s: CatalogView,
    name: Seq<char>,
    path: Seq<char>,
    format: StorageFormat,
    schema_json: Seq<char>,
    fingerprint: Seq<char>,
    row_count: u64,
    byte_size: u64,
    fresh: u128,
    now: i64,
)
    requires
        consistent(s),
        s.names.contains_key(name),
    ensures
        ({
            let old = s.datasets[s.names[name]];
            let (s2, rec) = register_spec(s, name, path, format, schema_json, fingerprint, row_count, byte_size, fresh, now);
            &&& rec.metadata.id == old.metadata.id
            &&& rec.versions == old.versions.push(rec.versions.last())
            &&& rec.current_version_id == rec.versions.last().version_id
            &&& rec.versions.last().schema_json == schema_json
            &&& rec.metadata.name == name && rec.metadata.fingerprint == fingerprint
            &&& rec.metadata.format == format && rec.metadata.row_count == row_count
            &&& rec.metadata.byte_size == byte_size && rec.source_path == path
            &&& s2.datasets.dom() == s.datasets.dom()
            &&& s2.datasets.get(rec.metadata.id) == Some(rec)
        }),
{
    let id = s.names[name];
    assert(s.datasets.contains_key(id));
    assert(record_filed(s.datasets[id], id));
    let (s2, rec) = register_spec(s, name, path, format, schema_json, fingerprint, row_count, byte_size, fresh, now);
    assert(s2.datasets.dom() =~= s.datasets.dom());
}

/// One operation on the catalog, as the store's `register_dataset` and `remove_dataset`
/// perform it.
pub enum CatalogOp {
    Register {
        name: Seq<char>,
        path: Seq<char>,
        format: StorageFormat,
        schema_json: Seq<char>,
        fingerprint: Seq<char>,
        row_count: u64,
        byte_size: u64,
        fresh: u128,
        now: i64,
    },
    Remove(u128),
}

/// The state after one operation; removing an identity that is not held changes nothing.
pub open spec fn apply_op(s: CatalogView, op: CatalogOp) -> CatalogView {
    match op {
        CatalogOp::Register { name, path, format, schema_json, fingerprint, row_count, byte_size, fresh, now } =>
            register_spec(s, name, path, format, schema_json, fingerprint, row_count, byte_size, fresh, now).0,
        CatalogOp::Remove(id) => if s.datasets.contains_key(id) {
            remove_spec(s, id)
        } else {
            s
        },
    }
}

/// The state after a sequence of operations.
pub open spec fn apply_ops(s: CatalogView, ops: Seq<CatalogOp>) -> CatalogView
    decreases ops.len(),
{
    if ops.len() == 0 {
        s
    } else {
        apply_op(apply_ops(s, ops.drop_last()), ops.last())
    }
}

/// Every registration in `ops` uses a fresh identity that is not held when it runs.
pub open spec fn fresh_identities(s: CatalogView, ops: Seq<CatalogOp>) -> bool
    decreases ops.len(),
{
    if ops.len() == 0 {
        true
    } else {
        &&& fresh_identities(s, ops.drop_last())
        &&& ops.last() matches CatalogOp::Register { fresh, .. } ==> !apply_ops(s, ops.drop_last()).datasets.contains_key(fresh)
    }
}

/// The record that the latest operation concerning `id` left: the record a registration
/// under `id` returned, nothing after a removal of `id`, and otherwise what `s` held.
pub open spec fn latest_record(s: CatalogView, ops: Seq<CatalogOp>, id: u128) -> Option<RecordView>
    decreases ops.len(),
{
    if ops.len() == 0 {
        s.datasets.get(id)
    } else {
        let prev = apply_ops(s, ops.drop_last());
        match ops.last() {
            CatalogOp::Register { name, path, format, schema_json, fingerprint, row_count, byte_size, fresh, now } => {
                let rec = register_spec(prev, name, path, format, schema_json, fingerprint, row_count, byte_size, fresh, now).1;
                if rec.metadata.id == id {
                    Some(rec)
                } else {
                    latest_record(s, ops.drop_last(), id)
                }
            },
            CatalogOp::Remove(r) => if r == id {
                None
            } else {
                latest_record(s, ops.drop_last(), id)
            },
        }
    }
}

/// Any sequence of registrations (with identities not already held) and removals keeps a
/// consistent catalog consistent.
pub proof fn law_operations_keep_consistent(s: CatalogView, ops: Seq<CatalogOp>)
    requires
        consistent(s),
        fresh_identities(s, ops),
    ensures
        consistent(apply_ops(s, ops)),
    decreases ops.len(),
{
    if ops.len() > 0 {
        law_operations_keep_consistent(s, ops.drop_last());
        let prev = apply_ops(s, ops.drop_last());
        match ops.last() {
            CatalogOp::Register { name, path, format, schema_json, fingerprint, row_count, byte_size, fresh, now } => {
                law_register_keeps_consistent(prev, name, path, format, schema_json, fingerprint, row_count, byte_size, fresh, now);
            },
            CatalogOp::Remove(id) => {
                if prev.datasets.contains_key(id) {
                    law_remove_keeps_consistent(prev, id);
                }
            },
        }
    }
}

/// After any sequence of operations, looking up an identity gives the record that the
/// latest registration under it returned, unless a removal came later (then nothing),
/// or what the catalog held before when no operation concerned it.
pub proof fn law_lookup_gives_latest_registration(s: CatalogView, ops: Seq<CatalogOp>, id: u128)
    ensures
        apply_ops(s, ops).datasets.get(id) == latest_record(s, ops, id),
    decreases ops.len(),
{
    if ops.len() > 0 {
        law_lookup_gives_latest_registration(s, ops.drop_last(), id);
        let prev = apply_ops(s, ops.drop_last());
        match ops.last() {
            CatalogOp::Register { name, path, format, schema_json, fingerprint, row_count, byte_size, fresh, now } => {
                law_register_then_lookup(prev, name, path, format, schema_json, fingerprint, row_count, byte_size, fresh, now);
                law_register_frames_others(
                    prev, name, path, format, schema_json, fingerprint, row_count, byte_size, fresh, now, id, name,
                );
            },
            CatalogOp::Remove(r) => {
                if prev.datasets.contains_key(r) {
                    law_remove_then_lookup(prev, r, id);
                }
            },
        }
    }
}

/// A store of dataset records in memory: the records in a hash map keyed by identity, and
/// the name index as a list of entries (vstd's hash-map specifications give text keys no
/// key model, so a map keyed by names would prove nothing).
pub struct InMemoryCatalogStore {
    datasets: HashMap<u128, DatasetRecord>,
    name_index: Vec<(String, DatasetId)>,
}

/// Index of the name entry for `k`.
pub open spec fn name_slot(n: Seq<(String, DatasetId)>, k: Seq<char>) -> int {
    choose|i: int| 0 <= i < n.len() && n[i].0@ == k
}

pub open spec fn names_unique(n: Seq<(String, DatasetId)>) -> bool {
    forall|i: int, j: int| 0 <= i < n.len() && 0 <= j < n.len() && i != j ==> n[i].0@ != n[j].0@
}

pub open spec fn names_map(n: Seq<(String, DatasetId)>) -> Map<Seq<char>, u128> {
    Map::new(
        |k: Seq<char>| exists|i: int| 0 <= i < n.len() && n[i].0@ == k,
        |k: Seq<char>| n[name_slot(n, k)].1.0,
    )
}

/// The records of the store by identity, as values.
pub open spec fn records_map(d: Map<u128, DatasetRecord>) -> Map<u128, RecordView> {
    d.map_values(|r: DatasetRecord| r@)
}

/// Every record is held under its own identity.
pub open spec fn filed_under_keys(d: Map<u128, DatasetRecord>) -> bool {
    forall|k: u128| #[trigger] d.contains_key(k) ==> d[k].metadata.id.0 == k
}

proof fn lemma_name_slot(n: Seq<(String, DatasetId)>, i: int)
    requires
        names_unique(n),
        0 <= i < n.len(),
    ensures
        name_slot(n, n[i].0@) == i,
{
    let k = n[i].0@;
    assert(exists|j: int| 0 <= j < n.len() && n[j].0@ == k);
}

proof fn lemma_names_push(n: Seq<(String, DatasetId)>, e: (String, DatasetId))
    requires
        names_unique(n),
        forall|i: int| 0 <= i < n.len() ==> n[i].0@ != e.0@,
    ensures
        names_unique(n.push(e)),
        names_map(n.push(e)) =~= names_map(n).insert(e.0@, e.1.0),
{
    let m = n.push(e);
    assert forall|k: Seq<char>| #[trigger] names_map(m).contains_key(k) == names_map(n).insert(e.0@, e.1.0).contains_key(k) by {
        if exists|i: int| 0 <= i < n.len() && n[i].0@ == k {
            let i = choose|i: int| 0 <= i < n.len() && n[i].0@ == k;
            assert(m[i].0@ == k);
        }
        if k == e.0@ {
            assert(m[n.len() as int].0@ == k);
        }
        if exists|i: int| 0 <= i < m.len() && m[i].0@ == k {
            let i = choose|i: int| 0 <= i < m.len() && m[i].0@ == k;
            if i < n.len() {
                assert(n[i].0@ == k);
            }
        }
    }
    assert forall|k: Seq<char>| #[trigger] names_map(m).contains_key(k) implies names_map(m)[k] == names_map(n).insert(e.0@, e.1.0)[k] by {
        if k == e.0@ {
            lemma_name_slot(m, n.len() as int);
        } else {
            let i = choose|i: int| 0 <= i < m.len() && m[i].0@ == k;
            assert(i < n.len());
            lemma_name_slot(m, i);
            lemma_name_slot(n, i);
        }
    }
}

proof fn lemma_names_remove(n: Seq<(String, DatasetId)>, i: int)
    requires
        names_unique(n),
        0 <= i < n.len(),
    ensures
        names_unique(n.remove(i)),
        names_map(n.remove(i)) =~= names_map(n).remove(n[i].0@),
{
    let m = n.remove(i);
    let key = n[i].0@;
    assert forall|a: int, b: int| 0 <= a < m.len() && 0 <= b < m.len() && a != b implies m[a].0@ != m[b].0@ by {
        let a2 = if a < i { a } else { a + 1 };
        let b2 = if b < i { b } else { b + 1 };
        assert(m[a] == n[a2]);
        assert(m[b] == n[b2]);
    }
    assert forall|k: Seq<char>| #[trigger] names_map(m).contains_key(k) == names_map(n).remove(key).contains_key(k) by {
        if exists|a: int| 0 <= a < m.len() && m[a].0@ == k {
            let a = choose|a: int| 0 <= a < m.len() && m[a].0@ == k;
            let a2 = if a < i { a } else { a + 1 };
            assert(m[a] == n[a2]);
            assert(a2 != i);
        }
        if k != key && exists|a: int| 0 <= a < n.len() && n[a].0@ == k {
            let a = choose|a: int| 0 <= a < n.len() && n[a].0@ == k;
            assert(a != i);
            let a1 = if a < i { a } else { a - 1 };
            assert(m[a1] == n[a]);
        }
    }
    assert forall|k: Seq<char>| #[trigger] names_map(m).contains_key(k) implies names_map(m)[k] == names_map(n).remove(key)[k] by {
        let a = choose|a: int| 0 <= a < m.len() && m[a].0@ == k;
        let a2 = if a < i { a } else { a + 1 };
        assert(m[a] == n[a2]);
        lemma_name_slot(m, a);
        lemma_name_slot(n, a2);
    }
}

impl View for InMemoryCatalogStore {
    type V = CatalogView;

    closed spec fn view(&self) -> CatalogView {
        CatalogView { names: names_map(self.name_index@), datasets: records_map(self.datasets@) }
    }
}

impl Default for InMemoryCatalogStore {
    /// An empty catalog, as `new` makes.
    fn default() -> (r: Self)
        ensures
            r.wf(),
            consistent(r@),
            r@.names =~= Map::<Seq<char>, u128>::empty(),
            r@.datasets =~= Map::<u128, RecordView>::empty(),
    {
        InMemoryCatalogStore::new()
    }
}

impl InMemoryCatalogStore {
    /// The store's invariant: one entry per name, and every record held under its own
    /// identity.
    pub closed spec fn wf(&self) -> bool {
        &&& names_unique(self.name_index@)
        &&& filed_under_keys(self.datasets@)
    }

    /// An empty catalog.
    pub fn new() -> (r: Self)
        ensures
            r.wf(),
            consistent(r@),
            r@.names =~= Map::<Seq<char>, u128>::empty(),
            r@.datasets =~= Map::<u128, RecordView>::empty(),
    {
        let r = InMemoryCatalogStore { datasets: HashMap::new(), name_index: Vec::new() };
        assert(r@.datasets =~= Map::<u128, RecordView>::empty());
        r
    }

    fn find_name(&self, name: &str) -> (r: Option<usize>)
        requires
            self.wf(),
        ensures
            match r {
                Some(i) => i < self.name_index@.len() && self.name_index@[i as int].0@ == name@,
                None => !self@.names.contains_key(name@),
            },
    {
        let mut i: usize = 0;
        while i < self.name_index.len()
            invariant
                i <= self.name_index@.len(),
                forall|j: int| 0 <= j < i ==> self.name_index@[j].0@ != name@,
            decreases self.name_index@.len() - i,
        {
            if same_text(&self.name_index[i].0, name) {
                return Some(i);
            }
            i = i + 1;
        }
        None
    }

    /// The record of a dataset by identity; `DatasetNotFound(<identity text>)` otherwise.
    pub fn get_dataset(&self, id: &DatasetId) -> (r: Result<DatasetRecord, QlaroError>)
        requires
            self.wf(),
        ensures
            match self@.datasets.get(id.0) {
                Some(rv) => r matches Ok(rec) && rec@ == rv,
                None => r matches Err(QlaroError::Core(QlaroErrorCode::DatasetNotFound(m))) && m@ == uuid_text(id.0),
            },
    {
        broadcast use vstd::std_specs::hash::group_hash_axioms;
        match self.datasets.get(&id.0) {
            Some(rec) => Ok(rec.duplicate()),
            None => Err(QlaroError::Core(QlaroErrorCode::DatasetNotFound(id.to_text()))),
        }
    }

    /// The record of the dataset registered under `name`; `DatasetNotFound(<name>)` when
    /// the name is unknown.
    pub fn get_dataset_by_name(&self, name: &str) -> (r: Result<DatasetRecord, QlaroError>)
        requires
            self.wf(),
        ensures
            !self@.names.contains_key(name@) ==> (r matches Err(QlaroError::Core(QlaroErrorCode::DatasetNotFound(m)))
                && m@ == name@),
            self@.names.contains_key(name@) ==> match self@.datasets.get(self@.names[name@]) {
                Some(rv) => r matches Ok(rec) && rec@ == rv,
                None => r matches Err(QlaroError::Core(QlaroErrorCode::DatasetNotFound(m))) && m@ == uuid_text(
                    self@.names[name@],
                ),
            },
    {
        match self.find_name(name) {
            None => Err(QlaroError::Core(QlaroErrorCode::DatasetNotFound(name.to_owned()))),
            Some(i) => {
                proof {
                    lemma_name_slot(self.name_index@, i as int);
                }
                let id = self.name_index[i].1;
                self.get_dataset(&id)
            },
        }
    }

    /// Every record, each once, in no particular order.
    pub fn list_datasets(&self) -> (r: Vec<DatasetRecord>)
        requires
            self.wf(),
        ensures
            forall|i: int|
                0 <= i < r@.len() ==> self@.datasets.contains_key((#[trigger] r@[i]).metadata.id.0)
                    && self@.datasets[r@[i].metadata.id.0] == r@[i]@,
            forall|k: u128| #[trigger] self@.datasets.contains_key(k) ==> exists|i: int| 0 <= i < r@.len() && r@[i].metadata.id.0 == k,
            forall|i: int, j: int|
                0 <= i < r@.len() && 0 <= j < r@.len() && i != j ==> r@[i].metadata.id.0 != r@[j].metadata.id.0,
    {
        broadcast use vstd::std_specs::hash::group_hash_axioms;
        let mut out: Vec<DatasetRecord> = Vec::new();
        let keys = self.datasets.keys();
        let ghost ks: Seq<u128> = keys.remaining().unref();
        assert(ks.to_set() == self.datasets@.dom());
        assert(ks.no_duplicates());
        for k in it: keys
            invariant
                self.wf(),
                ks == it.seq().unref(),
                ks.to_set() == self.datasets@.dom(),
                ks.no_duplicates(),
                out@.len() == it.index(),
                forall|j: int| 0 <= j < out@.len() ==> (#[trigger] out@[j])@ == self@.datasets[ks[j]]
                    && out@[j].metadata.id.0 == ks[j],
        {
            let ghost j = it.index();
            assert(ks[j] == *k);
            assert(ks.to_set().contains(*k));
            let rec = self.datasets.get(k).unwrap();
            out.push(rec.duplicate());
        }
        proof {
            assert forall|j: int| 0 <= j < out@.len() implies self@.datasets.contains_key((#[trigger] out@[j]).metadata.id.0)
                && self@.datasets[out@[j].metadata.id.0] == out@[j]@ by {
                assert(ks.to_set().contains(ks[j]));
            }
            assert forall|k: u128| #[trigger] self@.datasets.contains_key(k) implies exists|j: int| 0 <= j < out@.len() && out@[j].metadata.id.0 == k by {
                assert(ks.to_set().contains(k));
                let j = choose|j: int| 0 <= j < ks.len() && ks[j] == k;
                assert(out@[j].metadata.id.0 == k);
            }
        }
        out
    }
}

impl InMemoryCatalogStore {
    /// Registers a dataset (or a new version of a known one) with `fresh_id` as the identity
    /// for an unknown name and `now` as the time; returns the resulting record.
    pub fn register_dataset(
        &mut self,
        name: &str,
        path: &str,
        format: StorageFormat,
        schema_json: &str,
        fingerprint: &str,
        row_count: u64,
        byte_size: u64,
        fresh_id: DatasetId,
        now: i64,
    ) -> (r: DatasetRecord)
        requires
            old(self).wf(),
        ensures
            final(self).wf(),
            consistent(old(self)@) && !old(self)@.datasets.contains_key(fresh_id.0) ==> consistent(final(self)@),
            (final(self)@, r@) == register_spec(
                old(self)@,
                name@,
                path@,
                format,
                schema_json@,
                fingerprint@,
                row_count,
                byte_size,
                fresh_id.0,
                now,
            ),
    {
        let ghost s0 = self@;
        let dataset_id = match self.find_name(name) {
            Some(i) => {
                proof {
                    lemma_name_slot(self.name_index@, i as int);
                }
                self.name_index[i].1
            },
            None => {
                let entry = (name.to_owned(), fresh_id);
                proof {
                    lemma_names_push(self.name_index@, entry);
                }
                self.name_index.push(entry);
                fresh_id
            },
        };
        assert(self@.names =~= s0.names.insert(name@, dataset_id.0));
        assert(self@.datasets == s0.datasets);
        let version_id = compute_dataset_version_id(fingerprint, schema_json.as_bytes());
        let new_version = DatasetSchemaVersion {
            version_id: version_id.clone(),
            dataset_id,
            schema_json: schema_json.to_owned(),
            created_at: now,
            parent_version_id: None,
        };
        let metadata = DatasetMetadata {
            id: dataset_id,
            name: name.to_owned(),
            fingerprint: DatasetFingerprint(fingerprint.to_owned()),
            format,
            row_count,
            byte_size,
            created_at: now,
            updated_at: now,
        };
        broadcast use vstd::std_specs::hash::group_hash_axioms;
        let ghost d0 = self.datasets@;
        let result = match self.datasets.remove(&dataset_id.0) {
            Some(mut rec) => {
                let ghost old_versions = rec.versions@;
                assert(rec@ == s0.datasets[dataset_id.0]);
                rec.metadata = metadata;
                rec.source_path = path.to_owned();
                rec.current_version_id = version_id;
                rec.versions.push(new_version);
                assert(version_views(rec.versions@) =~= version_views(old_versions).push(new_version@));
                let out = rec.duplicate();
                self.datasets.insert(dataset_id.0, rec);
                assert(records_map(self.datasets@) =~= records_map(d0).insert(dataset_id.0, rec@));
                out
            },
            None => {
                let mut versions: Vec<DatasetSchemaVersion> = Vec::new();
                versions.push(new_version);
                assert(version_views(versions@) =~= seq![new_version@]);
                let rec = DatasetRecord {
                    metadata,
                    source_path: path.to_owned(),
                    current_version_id: version_id,
                    versions,
                };
                let out = rec.duplicate();
                self.datasets.insert(dataset_id.0, rec);
                assert(records_map(self.datasets@) =~= records_map(d0).insert(dataset_id.0, rec@));
                out
            },
        };
        proof {
            if consistent(s0) && !s0.datasets.contains_key(fresh_id.0) {
                law_register_keeps_consistent(
                    s0, name@, path@, format, schema_json@, fingerprint@, row_count, byte_size, fresh_id.0, now,
                );
            }
        }
        result
    }

    /// Registers a dataset with a new random version-4 identity (used only for an unknown name) and
    /// the current time.
    pub fn register_dataset_now(
        &mut self,
        name: &str,
        path: &str,
        format: StorageFormat,
        schema_json: &str,
        fingerprint: &str,
        row_count: u64,
        byte_size: u64,
    ) -> (r: DatasetRecord)
        requires
            old(self).wf(),
        ensures
            final(self).wf(),
            exists|fresh: u128, now: i64|
                uuid_version(fresh) == 4 && uuid_variant(fresh) == 2 && (consistent(old(self)@)
                    && !old(self)@.datasets.contains_key(fresh) ==> consistent(final(self)@)) && (final(self)@, r@) == register_spec(
                    old(self)@,
                    name@,
                    path@,
                    format,
                    schema_json@,
                    fingerprint@,
                    row_count,
                    byte_size,
                    fresh,
                    now,
                ),
    {
        let fresh = DatasetId::new_v4();
        let now = utc_now_micros();
        self.register_dataset(name, path, format, schema_json, fingerprint, row_count, byte_size, fresh, now)
    }

    /// Removes a dataset by identity, with its name entry; `DatasetNotFound(<identity
    /// text>)` when no dataset has that identity.
    pub fn remove_dataset(&mut self, id: &DatasetId) -> (r: Result<DatasetRecord, QlaroError>)
        requires
            old(self).wf(),
        ensures
            final(self).wf(),
            consistent(old(self)@) ==> consistent(final(self)@),
            !old(self)@.datasets.contains_key(id.0) ==> {
                &&& r matches Err(QlaroError::Core(QlaroErrorCode::DatasetNotFound(m))) && m@ == uuid_text(id.0)
                &&& final(self)@ == old(self)@
            },
            old(self)@.datasets.contains_key(id.0) ==> (r matches Ok(rec) && {
                &&& rec@ == old(self)@.datasets[id.0]
                &&& final(self)@ == remove_spec(old(self)@, id.0)
            }),
    {
        broadcast use vstd::std_specs::hash::group_hash_axioms;
        let ghost s0 = self@;
        let ghost d0 = self.datasets@;
        match self.datasets.remove(&id.0) {
            None => {
                assert(self.datasets@ =~= d0);
                assert(self@.datasets =~= s0.datasets);
                Err(QlaroError::Core(QlaroErrorCode::DatasetNotFound(id.to_text())))
            },
            Some(record) => {
                assert(records_map(self.datasets@) =~= records_map(d0).remove(id.0));
                assert(record@ == s0.datasets[id.0]);
                match self.find_name(&record.metadata.name) {
                    Some(i) => {
                        proof {
                            lemma_names_remove(self.name_index@, i as int);
                        }
                        let _ = self.name_index.remove(i);
                    },
                    None => {
                        assert(self@.names =~= s0.names.remove(record@.metadata.name));
                    },
                }
                assert(self@ == remove_spec(s0, id.0));
                proof {
                    if consistent(s0) {
                        law_remove_keeps_consistent(s0, id.0);
                    }
                }
                Ok(record)
            },
        }
    }
}

} // verus!
