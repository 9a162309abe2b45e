//! The ingestion protocol: the decisions of ingesting one source file, as a state machine
//! that is told what happened and answers with the next thing to do.

use vstd::prelude::*;
use crate::error::{DiagnosticDetail, QlaroError, QlaroErrorCode};
use crate::text::{concat2, decimal, u64_text};
use crate::types::{
    DatasetFingerprint, DatasetId, DatasetMetadata, IngestionLineage, IngestionOptions,
    IngestionSource, StorageFormat,
};

verus! {

/// The version tag recorded in the lineage of every ingestion.
pub const INGESTION_PIPELINE_VERSION: &'static str = "qlaro-ingestion-v1";

/// What happened since the last action.
#[derive(Debug)]
pub enum IngestEvent {
    /// The ingestion starts; whether cancellation was already requested.
    Started { cancelled: bool },
    /// Whether the source path exists.
    SourceProbed { exists: bool },
    /// The source file's size, or the text of the failure to read it.
    SizeRead(Result<u64, String>),
    /// The source content's fingerprint, or the failure to compute it.
    Fingerprinted(Result<String, QlaroError>),
    /// The inspected format and row count, or the failure; and whether cancellation has
    /// been requested by now.
    Inspected { outcome: Result<(StorageFormat, u64), QlaroError>, cancelled: bool },
    /// The schema serialized as JSON, or the serializer's error text.
    SchemaSerialized(Result<String, String>),
    /// The registered identity and version, or the catalog's error.
    Registered(Result<(DatasetId, String), QlaroError>),
    /// The current time, microseconds since the Unix epoch.
    ClockRead(i64),
}

/// What the ingestion is and where its source came from, once it has succeeded.
#[derive(Debug)]
pub struct IngestionSummary {
    pub dataset_id: DatasetId,
    pub version_id: String,
    pub name: String,
    pub format: StorageFormat,
    pub row_count: u64,
    pub byte_size: u64,
    pub source_fingerprint: DatasetFingerprint,
    pub lineage: IngestionLineage,
    pub diagnostics: Vec<DiagnosticDetail>,
}

/// The next thing to do.
#[derive(Debug)]
pub enum IngestAction {
    /// Check whether the source path exists.
    ProbeSource,
    /// Read the source file's size.
    ReadSize,
    /// Compute the fingerprint of the source content.
    Fingerprint,
    /// Inspect the file for its format, schema and row count.
    Inspect { format_hint: Option<StorageFormat>, sample_limit: Option<usize> },
    /// Serialize the inspected schema to JSON.
    SerializeSchema,
    /// Register the dataset in the catalog.
    Register {
        name: String,
        path: String,
        format: StorageFormat,
        schema_json: String,
        fingerprint: String,
        row_count: u64,
        byte_size: u64,
    },
    /// Read the clock.
    ReadClock,
    /// The ingestion succeeded.
    Finish(IngestionSummary),
    /// The ingestion failed.
    Fail(QlaroError),
}

/// Where the protocol stands.
#[derive(Debug, Clone, Copy, PartialEq, Eq, Structural)]
pub enum IngestPhase {
    AwaitStart,
    AwaitProbe,
    AwaitSize,
    AwaitFingerprint,
    AwaitInspection,
    AwaitSchema,
    AwaitRegistration,
    AwaitClock,
    Done,
}

/// One ingestion in progress.
#[derive(Debug)]
pub struct IngestMachine {
    pub phase: IngestPhase,
    pub source: IngestionSource,
    pub options: IngestionOptions,
    pub byte_size: u64,
    pub fingerprint: String,
    pub format: StorageFormat,
    pub row_count: u64,
    pub dataset_id: DatasetId,
    pub version_id: String,
}

/// The message for a file over the configured size limit.
pub open spec fn size_limit_text(size: u64, limit: u64) -> Seq<char> {
    "File size "@ + decimal(size as nat) + " bytes exceeds configured limit of "@ + decimal(limit as nat) + " bytes"@
}

/// The position of a phase in the protocol; `Done` comes last.
pub open spec fn phase_rank(p: IngestPhase) -> nat {
    match p {
        IngestPhase::AwaitStart => 0,
        IngestPhase::AwaitProbe => 1,
        IngestPhase::AwaitSize => 2,
        IngestPhase::AwaitFingerprint => 3,
        IngestPhase::AwaitInspection => 4,
        IngestPhase::AwaitSchema => 5,
        IngestPhase::AwaitRegistration => 6,
        IngestPhase::AwaitClock => 7,
        IngestPhase::Done => 8,
    }
}

/// What every step of the protocol obeys, from the phase before it, the event, the action
/// taken and the phase after it.
pub open spec fn step_obeys(before: IngestPhase, e: IngestEvent, a: IngestAction, after: IngestPhase) -> bool {
    &&& phase_rank(after) >= phase_rank(before)
    &&& (a is Fail || a is Finish) ==> after == IngestPhase::Done
    &&& a is Register ==> before == IngestPhase::AwaitSchema && after == IngestPhase::AwaitRegistration
    &&& (before == IngestPhase::AwaitRegistration && e matches IngestEvent::Registered(Ok(_))) ==> a is ReadClock
        && after == IngestPhase::AwaitClock
    &&& (before == IngestPhase::AwaitClock && e is ClockRead) ==> a is Finish
}

/// A failed ingestion registered nothing. Take a run of the protocol from its start: the
/// phases it went through, the events it was given and the actions it took, each step as
/// `IngestMachine::step` makes it, every event the one its phase waits for, and every
/// registration answered as successful. If the run ends in failure, it never asked the
/// catalog to register.
pub proof fn law_failed_run_registers_nothing(
    phases: Seq<IngestPhase>,
    events: Seq<IngestEvent>,
    actions: Seq<IngestAction>,
)
    requires
        actions.len() > 0,
        events.len() == actions.len(),
        phases.len() == actions.len() + 1,
        forall|k: int| 0 <= k < actions.len() ==> step_obeys(phases[k], events[k], #[trigger] actions[k], phases[k + 1]),
        forall|k: int| 0 <= k < events.len() ==> event_fits(phases[k], #[trigger] events[k]),
        forall|k: int| 0 <= k < events.len() ==> (#[trigger] events[k] matches IngestEvent::Registered(res) ==> res is Ok),
        actions.last() is Fail,
    ensures
        forall|k: int| 0 <= k < actions.len() ==> !(#[trigger] actions[k] is Register),
{
    let n = actions.len() as int;
    assert forall|k: int| 0 <= k < n implies !(#[trigger] actions[k] is Register) by {
        if actions[k] is Register {
            assert(actions[n - 1] is Fail);
            assert(k != n - 1);
            assert(phases[k + 1] == IngestPhase::AwaitRegistration);
            assert(event_fits(phases[k + 1], events[k + 1]));
            assert(events[k + 1] is Registered);
            assert(actions[k + 1] is ReadClock);
            assert(k + 1 != n - 1);
            assert(phases[k + 2] == IngestPhase::AwaitClock);
            assert(event_fits(phases[k + 2], events[k + 2]));
            assert(actions[k + 2] is Finish);
            assert(phases[k + 3] == IngestPhase::Done);
            assert(k + 2 != n - 1);
            assert(event_fits(phases[k + 3], events[k + 3]));
        }
    }
}

/// Whether the event is the one the phase waits for.
pub open spec fn event_fits(phase: IngestPhase, e: IngestEvent) -> bool {
    match phase {
        IngestPhase::AwaitStart => e is Started,
        IngestPhase::AwaitProbe => e is SourceProbed,
        IngestPhase::AwaitSize => e is SizeRead,
        IngestPhase::AwaitFingerprint => e is Fingerprinted,
        IngestPhase::AwaitInspection => e is Inspected,
        IngestPhase::AwaitSchema => e is SchemaSerialized,
        IngestPhase::AwaitRegistration => e is Registered,
        IngestPhase::AwaitClock => e is ClockRead,
        IngestPhase::Done => false,
    }
}

/// The diagnostics of a successful ingestion of `row_count` rows: none, or, when the
/// source holds no records, one warning.
pub open spec fn diagnostics_for(row_count: u64, d: Seq<DiagnosticDetail>) -> bool {
    &&& row_count != 0 ==> d.len() == 0
    &&& row_count == 0 ==> {
        &&& d.len() == 1
        &&& d[0].code matches QlaroErrorCode::CorruptedBatch(c) && c@ == "Zero rows ingested"@
        &&& d[0].message@ == "Dataset schema registered successfully, but source contains 0 records"@
        &&& d[0].suggested_action matches Some(a) && a@ == "Verify that source file has valid records"@
    }
}

/// The diagnostics attached to a successful ingestion of `row_count` rows.
pub fn zero_row_diagnostics(row_count: u64) -> (r: Vec<DiagnosticDetail>)
    ensures
        diagnostics_for(row_count, r@),
{
    let mut d: Vec<DiagnosticDetail> = Vec::new();
    if row_count == 0 {
        d.push(DiagnosticDetail {
            code: QlaroErrorCode::CorruptedBatch("Zero rows ingested".to_owned()),
            message: "Dataset schema registered successfully, but source contains 0 records".to_owned(),
            suggested_action: Some("Verify that source file has valid records".to_owned()),
        });
    }
    d
}

impl IngestMachine {
    /// A new ingestion of `source` with `options`, waiting to start.
    pub fn new(source: IngestionSource, options: IngestionOptions) -> (r: Self)
        ensures
            r.phase == IngestPhase::AwaitStart,
            r.source == source,
            r.options == options,
    {
        IngestMachine {
            phase: IngestPhase::AwaitStart,
            source,
            options,
            byte_size: 0,
            fingerprint: String::new(),
            format: StorageFormat::Parquet,
            row_count: 0,
            dataset_id: DatasetId(0),
            version_id: String::new(),
        }
    }

    /// Takes in what happened and answers with the next action. An event that is not the
    /// one the phase waits for fails the ingestion with an internal error.
    pub fn step(&mut self, event: IngestEvent) -> (r: IngestAction)
        ensures
            final(self).source == old(self).source,
            final(self).options == old(self).options,
            r is Fail || r is Finish ==> final(self).phase == IngestPhase::Done,
            // The protocol only moves forward, and the catalog is asked to register only on
            // the step from the serialized schema: so once an ingestion has failed, no
            // registration follows, and a failure before that step registered nothing.
            phase_rank(final(self).phase) >= phase_rank(old(self).phase),
            step_obeys(old(self).phase, event, r, final(self).phase),
            r is Register <==> (old(self).phase == IngestPhase::AwaitSchema && event matches IngestEvent::SchemaSerialized(
                Ok(_),
            )),
            !event_fits(old(self).phase, event) ==> (r matches IngestAction::Fail(QlaroError::Core(QlaroErrorCode::Internal(m)))
                && m@ == "ingestion step out of order"@),
            event_fits(old(self).phase, event) ==> match event {
                IngestEvent::Started { cancelled } => if cancelled {
                    r matches IngestAction::Fail(QlaroError::Core(QlaroErrorCode::Cancelled(m)))
                        && m@ == "Ingestion cancelled before starting pipeline"@
                } else {
                    r is ProbeSource && final(self).phase == IngestPhase::AwaitProbe
                },
                IngestEvent::SourceProbed { exists } => if !exists {
                    r matches IngestAction::Fail(QlaroError::Io(m))
                        && m@ == "Source file not found: "@ + old(self).source.source_path@
                } else {
                    r is ReadSize && final(self).phase == IngestPhase::AwaitSize
                },
                IngestEvent::SizeRead(res) => match res {
                    Err(e) => r == IngestAction::Fail(QlaroError::Io(e)),
                    Ok(size) => if size == 0 {
                        r matches IngestAction::Fail(QlaroError::Core(QlaroErrorCode::InvalidFormat(m)))
                            && m@ == "Cannot ingest empty (0-byte) source file"@
                    } else if old(self).options.max_bytes is Some && size > old(self).options.max_bytes->0 {
                        r matches IngestAction::Fail(QlaroError::Core(QlaroErrorCode::ResourceLimitExceeded(m)))
                            && m@ == size_limit_text(size, old(self).options.max_bytes->0)
                    } else {
                        r is Fingerprint && final(self).phase == IngestPhase::AwaitFingerprint
                            && final(self).byte_size == size
                    },
                },
                IngestEvent::Fingerprinted(res) => match res {
                    Err(e) => r == IngestAction::Fail(e),
                    Ok(f) => {
                        &&& r == IngestAction::Inspect {
                            format_hint: old(self).source.format_hint,
                            sample_limit: old(self).options.sample_limit,
                        }
                        &&& final(self).phase == IngestPhase::AwaitInspection
                        &&& final(self).fingerprint == f
                        &&& final(self).byte_size == old(self).byte_size
                    },
                },
                IngestEvent::Inspected { outcome, cancelled } => match outcome {
                    Err(e) => r == IngestAction::Fail(e),
                    Ok((format, rows)) => if cancelled {
                        r matches IngestAction::Fail(QlaroError::Core(QlaroErrorCode::Cancelled(m)))
                            && m@ == "Ingestion cancelled before catalog registration"@
                    } else {
                        &&& r is SerializeSchema
                        &&& final(self).phase == IngestPhase::AwaitSchema
                        &&& final(self).format == format
                        &&& final(self).row_count == rows
                        &&& final(self).byte_size == old(self).byte_size
                        &&& final(self).fingerprint == old(self).fingerprint
                    },
                },
                IngestEvent::SchemaSerialized(res) => match res {
                    Err(e) => r == IngestAction::Fail(QlaroError::Serialization(e)),
                    Ok(json) => {
                        &&& r matches IngestAction::Register { name, path, format, schema_json, fingerprint, row_count, byte_size }
                            && name@ == old(self).source.name@ && path@ == old(self).source.source_path@
                            && format == old(self).format && schema_json == json
                            && fingerprint@ == old(self).fingerprint@ && row_count == old(self).row_count
                            && byte_size == old(self).byte_size
                        &&& final(self).phase == IngestPhase::AwaitRegistration
                        &&& final(self).format == old(self).format
                        &&& final(self).row_count == old(self).row_count
                        &&& final(self).byte_size == old(self).byte_size
                        &&& final(self).fingerprint == old(self).fingerprint
                    },
                },
                IngestEvent::Registered(res) => match res {
                    Err(e) => r == IngestAction::Fail(e),
                    Ok((id, version)) => {
                        &&& r is ReadClock
                        &&& final(self).phase == IngestPhase::AwaitClock
                        &&& final(self).dataset_id == id
                        &&& final(self).version_id == version
                        &&& final(self).format == old(self).format
                        &&& final(self).row_count == old(self).row_count
                        &&& final(self).byte_size == old(self).byte_size
                        &&& final(self).fingerprint == old(self).fingerprint
                    },
                },
                IngestEvent::ClockRead(now) => r matches IngestAction::Finish(s) && {
                    &&& s.dataset_id == old(self).dataset_id
                    &&& s.version_id@ == old(self).version_id@
                    &&& s.name@ == old(self).source.name@
                    &&& s.format == old(self).format
                    &&& s.row_count == old(self).row_count
                    &&& s.byte_size == old(self).byte_size
                    &&& s.source_fingerprint.0@ == old(self).fingerprint@
                    &&& s.lineage.source_path@ == old(self).source.source_path@
                    &&& s.lineage.source_fingerprint.0@ == old(self).fingerprint@
                    &&& s.lineage.ingested_at == now
                    &&& s.lineage.pipeline_version@ == "qlaro-ingestion-v1"@
                    &&& diagnostics_for(old(self).row_count, s.diagnostics@)
                },
            },
    {
        let phase = self.phase;
        match (phase, event) {
            (IngestPhase::AwaitStart, IngestEvent::Started { cancelled }) => {
                if cancelled {
                    self.phase = IngestPhase::Done;
                    IngestAction::Fail(QlaroError::Core(QlaroErrorCode::Cancelled(
                        "Ingestion cancelled before starting pipeline".to_owned(),
                    )))
                } else {
                    self.phase = IngestPhase::AwaitProbe;
                    IngestAction::ProbeSource
                }
            },
            (IngestPhase::AwaitProbe, IngestEvent::SourceProbed { exists }) => {
                if !exists {
                    self.phase = IngestPhase::Done;
                    IngestAction::Fail(QlaroError::Io(concat2("Source file not found: ", &self.source.source_path)))
                } else {
                    self.phase = IngestPhase::AwaitSize;
                    IngestAction::ReadSize
                }
            },
            (IngestPhase::AwaitSize, IngestEvent::SizeRead(res)) => match res {
                Err(e) => {
                    self.phase = IngestPhase::Done;
                    IngestAction::Fail(QlaroError::Io(e))
                },
                Ok(size) => {
                    if size == 0 {
                        self.phase = IngestPhase::Done;
                        return IngestAction::Fail(QlaroError::Core(QlaroErrorCode::InvalidFormat(
                            "Cannot ingest empty (0-byte) source file".to_owned(),
                        )));
                    }
                    if let Some(max_bytes) = self.options.max_bytes {
                        if size > max_bytes {
                            self.phase = IngestPhase::Done;
                            let a = u64_text(size);
                            let b = u64_text(max_bytes);
                            let t1 = concat2("File size ", &a);
                            let t2 = concat2(&t1, " bytes exceeds configured limit of ");
                            let t3 = concat2(&t2, &b);
                            let t4 = concat2(&t3, " bytes");
                            return IngestAction::Fail(QlaroError::Core(QlaroErrorCode::ResourceLimitExceeded(t4)));
                        }
                    }
                    self.byte_size = size;
                    self.phase = IngestPhase::AwaitFingerprint;
                    IngestAction::Fingerprint
                },
            },
            (IngestPhase::AwaitFingerprint, IngestEvent::Fingerprinted(res)) => match res {
                Err(e) => {
                    self.phase = IngestPhase::Done;
                    IngestAction::Fail(e)
                },
                Ok(f) => {
                    self.fingerprint = f;
                    self.phase = IngestPhase::AwaitInspection;
                    IngestAction::Inspect {
                        format_hint: self.source.format_hint,
                        sample_limit: self.options.sample_limit,
                    }
                },
            },
            (IngestPhase::AwaitInspection, IngestEvent::Inspected { outcome, cancelled }) => match outcome {
                Err(e) => {
                    self.phase = IngestPhase::Done;
                    IngestAction::Fail(e)
                },
                Ok((format, rows)) => {
                    if cancelled {
                        self.phase = IngestPhase::Done;
                        IngestAction::Fail(QlaroError::Core(QlaroErrorCode::Cancelled(
                            "Ingestion cancelled before catalog registration".to_owned(),
                        )))
                    } else {
                        self.format = format;
                        self.row_count = rows;
                        self.phase = IngestPhase::AwaitSchema;
                        IngestAction::SerializeSchema
                    }
                },
            },
            (IngestPhase::AwaitSchema, IngestEvent::SchemaSerialized(res)) => match res {
                Err(e) => {
                    self.phase = IngestPhase::Done;
                    IngestAction::Fail(QlaroError::Serialization(e))
                },
                Ok(json) => {
                    self.phase = IngestPhase::AwaitRegistration;
                    IngestAction::Register {
                        name: self.source.name.clone(),
                        path: self.source.source_path.clone(),
                        format: self.format,
                        schema_json: json,
                        fingerprint: self.fingerprint.clone(),
                        row_count: self.row_count,
                        byte_size: self.byte_size,
                    }
                },
            },
            (IngestPhase::AwaitRegistration, IngestEvent::Registered(res)) => match res {
                Err(e) => {
                    self.phase = IngestPhase::Done;
                    IngestAction::Fail(e)
                },
                Ok((id, version)) => {
                    self.dataset_id = id;
                    self.version_id = version;
                    self.phase = IngestPhase::AwaitClock;
                    IngestAction::ReadClock
                },
            },
            (IngestPhase::AwaitClock, IngestEvent::ClockRead(now)) => {
                self.phase = IngestPhase::Done;
                let fingerprint = DatasetFingerprint(self.fingerprint.clone());
                let lineage = IngestionLineage {
                    source_path: self.source.source_path.clone(),
                    source_fingerprint: DatasetFingerprint(self.fingerprint.clone()),
                    ingested_at: now,
                    pipeline_version: INGESTION_PIPELINE_VERSION.to_owned(),
                };
                IngestAction::Finish(IngestionSummary {
                    dataset_id: self.dataset_id,
                    version_id: self.version_id.clone(),
                    name: self.source.name.clone(),
                    format: self.format,
                    row_count: self.row_count,
                    byte_size: self.byte_size,
                    source_fingerprint: fingerprint,
                    lineage,
                    diagnostics: zero_row_diagnostics(self.row_count),
                })
            },
            (_, _) => {
                self.phase = IngestPhase::Done;
                IngestAction::Fail(QlaroError::Core(QlaroErrorCode::Internal("ingestion step out of order".to_owned())))
            },
        }
    }
}

/// The metadata of a dataset file registered directly from disk: its name, format,
/// content fingerprint and size; rows are counted later, by profiling.
#[derive(Debug, Clone)]
pub struct DatasetRegistration {
    pub metadata: DatasetMetadata,
    pub source_path: String,
}

impl DatasetRegistration {
    /// Assembles a registration from what was read of the file, a fresh identity and the
    /// creation and update times.
    pub fn new(
        name: String,
        source_path: String,
        format: StorageFormat,
        fingerprint: String,
        byte_size: u64,
        id: DatasetId,
        created_at: i64,
        updated_at: i64,
    ) -> (r: Self)
        ensures
            r.metadata.id == id,
            r.metadata.name == name,
            r.metadata.fingerprint.0 == fingerprint,
            r.metadata.format == format,
            r.metadata.row_count == 0,
            r.metadata.byte_size == byte_size,
            r.metadata.created_at == created_at,
            r.metadata.updated_at == updated_at,
            r.source_path == source_path,
    {
        DatasetRegistration {
            metadata: DatasetMetadata {
                id,
                name,
                fingerprint: DatasetFingerprint(fingerprint),
                format,
                row_count: 0,
                byte_size,
                created_at,
                updated_at,
            },
            source_path,
        }
    }
}

} // verus!
