//! Storage-format detection and the sampling protocol for reading record batches from a
//! dataset file.

use vstd::prelude::*;
use crate::error::{QlaroError, QlaroErrorCode};
use crate::recognizers::lower_ascii_seq;
use crate::text::{ascii_lower_char, chars_of, concat2};
use crate::types::StorageFormat;

verus! {

/// The extension of a path as `std::path::Path::extension` finds it (the text after the
/// last `.` of the file name, unless the name starts with its only `.`).
pub uninterp spec fn path_extension(p: Seq<char>) -> Option<Seq<char>>;

/// `Path::new(path).extension()`, read back as text (always valid for a `&str` path).
#[verifier::external_body]
fn file_extension(path: &str) -> (r: Option<String>)
    ensures
        match r {
            Some(e) => path_extension(path@) == Some(e@),
            None => path_extension(path@) is None,
        },
{
    match std::path::Path::new(path).extension() {
        Some(e) => match e.to_str() {
            Some(t) => Some(t.to_owned()),
            None => None,
        },
        None => None,
    }
}

/// The format an extension names, compared case-insensitively: `parquet`/`pq`,
/// `arrow`/`feather`/`ipc`, `csv`/`tsv`. (Lower-casing beyond ASCII cannot produce one of
/// these words, so ASCII lower-casing decides the same as `str::to_lowercase`.)
pub open spec fn extension_format(ext: Seq<char>) -> Option<StorageFormat> {
    let l = lower_ascii_seq(ext);
    if l == "parquet"@ || l == "pq"@ {
        Some(StorageFormat::Parquet)
    } else if l == "arrow"@ || l == "feather"@ || l == "ipc"@ {
        Some(StorageFormat::ArrowIpc)
    } else if l == "csv"@ || l == "tsv"@ {
        Some(StorageFormat::Csv)
    } else {
        None
    }
}

/// The format that a path's extension names, if any.
pub open spec fn path_format(p: Seq<char>) -> Option<StorageFormat> {
    match path_extension(p) {
        Some(e) => extension_format(e),
        None => None,
    }
}

proof fn lemma_lower_idempotent(e: Seq<char>)
    ensures
        lower_ascii_seq(lower_ascii_seq(e)) == lower_ascii_seq(e),
{
    assert forall|i: int| 0 <= i < e.len() implies crate::text::ascii_lower(crate::text::ascii_lower(#[trigger] e[i]))
        == crate::text::ascii_lower(e[i]) by {
        let c = e[i];
        if 'A' <= c && c <= 'Z' {
            let l = crate::text::ascii_lower(c);
            assert(l as u32 == (c as u32) + 32);
            assert(!('A' <= l && l <= 'Z'));
        }
    }
    assert(lower_ascii_seq(lower_ascii_seq(e)) =~= lower_ascii_seq(e));
}

/// Extensions are compared without regard to ASCII case: an extension names the same
/// format as its lower-case form.
pub proof fn law_extension_case_insensitive(e: Seq<char>)
    ensures
        extension_format(e) == extension_format(lower_ascii_seq(e)),
{
    lemma_lower_idempotent(e);
}

/// The extensions the detector knows, in lower case: `parquet` and `pq` name Parquet,
/// `arrow`, `feather` and `ipc` name Arrow IPC, `csv` and `tsv` name CSV.
pub proof fn law_known_extensions()
    ensures
        extension_format("parquet"@) == Some(StorageFormat::Parquet),
        extension_format("pq"@) == Some(StorageFormat::Parquet),
        extension_format("arrow"@) == Some(StorageFormat::ArrowIpc),
        extension_format("feather"@) == Some(StorageFormat::ArrowIpc),
        extension_format("ipc"@) == Some(StorageFormat::ArrowIpc),
        extension_format("csv"@) == Some(StorageFormat::Csv),
        extension_format("tsv"@) == Some(StorageFormat::Csv),
{
    reveal_strlit("parquet");
    reveal_strlit("pq");
    reveal_strlit("arrow");
    reveal_strlit("feather");
    reveal_strlit("ipc");
    reveal_strlit("csv");
    reveal_strlit("tsv");
    assert(lower_ascii_seq("parquet"@) =~= "parquet"@);
    assert(lower_ascii_seq("pq"@) =~= "pq"@);
    assert(lower_ascii_seq("arrow"@) =~= "arrow"@);
    assert(lower_ascii_seq("feather"@) =~= "feather"@);
    assert(lower_ascii_seq("ipc"@) =~= "ipc"@);
    assert(lower_ascii_seq("csv"@) =~= "csv"@);
    assert(lower_ascii_seq("tsv"@) =~= "tsv"@);
    assert("feather"@[0] != "parquet"@[0]);
    assert("csv"@[0] != "ipc"@[0]);
    assert("tsv"@[0] != "ipc"@[0]);
    assert("tsv"@[0] != "csv"@[0]);
    assert("ipc"@[0] != "pq"@[0]);
}

/// Only the known extensions name a format: if an extension names one, its lower-case
/// form is one of `parquet`, `pq`, `arrow`, `feather`, `ipc`, `csv`, `tsv`.
pub proof fn law_only_known_extensions(e: Seq<char>)
    ensures
        extension_format(e) is Some ==> {
            let l = lower_ascii_seq(e);
            l == "parquet"@ || l == "pq"@ || l == "arrow"@ || l == "feather"@ || l == "ipc"@ || l == "csv"@ || l == "tsv"@
        },
{
}

/// Any spelling of a known extension, in any mix of ASCII case, names its format: if the
/// lower-case form of `e` is a known extension, `e` names the same format.
pub proof fn law_extension_any_case(e: Seq<char>, known: Seq<char>)
    requires
        lower_ascii_seq(e) == known,
        known == "parquet"@ || known == "pq"@ || known == "arrow"@ || known == "feather"@ || known == "ipc"@
            || known == "csv"@ || known == "tsv"@,
    ensures
        extension_format(e) == extension_format(known),
        extension_format(e) is Some,
{
    law_extension_case_insensitive(e);
    law_known_extensions();
}

fn lower_text(s: &str) -> (r: Vec<char>)
    ensures
        r@ == lower_ascii_seq(s@),
{
    let raw = chars_of(s);
    let mut v: Vec<char> = Vec::new();
    let mut i: usize = 0;
    while i < raw.len()
        invariant
            i <= raw@.len(),
            raw@ == s@,
            v@ == lower_ascii_seq(raw@).take(i as int),
        decreases raw@.len() - i,
    {
        v.push(ascii_lower_char(raw[i]));
        assert(lower_ascii_seq(raw@).take(i + 1) =~= lower_ascii_seq(raw@).take(i as int).push(
            crate::text::ascii_lower(raw@[i as int]),
        ));
        i = i + 1;
    }
    assert(lower_ascii_seq(raw@).take(i as int) =~= lower_ascii_seq(s@));
    v
}

fn is_word(v: &Vec<char>, w: &str) -> (r: bool)
    ensures
        r == (v@ == w@),
{
    let c = chars_of(w);
    crate::text::chars_equal(v, &c)
}

/// The format named by the extension of `path`, if it names one.
pub fn storage_format_from_extension(path: &str) -> (r: Option<StorageFormat>)
    ensures
        r == path_format(path@),
{
    match file_extension(path) {
        None => None,
        Some(ext) => {
            let l = lower_text(&ext);
            if is_word(&l, "parquet") || is_word(&l, "pq") {
                Some(StorageFormat::Parquet)
            } else if is_word(&l, "arrow") || is_word(&l, "feather") || is_word(&l, "ipc") {
                Some(StorageFormat::ArrowIpc)
            } else if is_word(&l, "csv") || is_word(&l, "tsv") {
                Some(StorageFormat::Csv)
            } else {
                None
            }
        },
    }
}

/// The Parquet magic, `PAR1`.
pub open spec fn parquet_magic() -> Seq<u8> {
    seq![0x50u8, 0x41u8, 0x52u8, 0x31u8]
}

/// The Arrow IPC file magic, `ARROW1`.
pub open spec fn arrow_magic() -> Seq<u8> {
    seq![0x41u8, 0x52u8, 0x52u8, 0x4fu8, 0x57u8, 0x31u8]
}

/// The format announced by the first bytes of a file: `PAR1` (Parquet) or `ARROW1`
/// (Arrow IPC file).
pub open spec fn magic_format(m: Seq<u8>) -> Option<StorageFormat> {
    if m.len() >= 4 && m.take(4) == parquet_magic() {
        Some(StorageFormat::Parquet)
    } else if m.len() >= 6 && m.take(6) == arrow_magic() {
        Some(StorageFormat::ArrowIpc)
    } else {
        None
    }
}

/// Decides the format from what was read at the start of the file: `Err(text)` when the
/// file could not be opened, `Ok(None)` when it opened but could not be read, `Ok(Some(bytes))`
/// with its first bytes (at most six; fewer when the file is shorter). A file that cannot
/// be read, or whose content is unknown, is `InvalidFormat`.
pub fn storage_format_from_probe(path: &str, probe: Result<Option<Vec<u8>>, String>) -> (r: Result<StorageFormat, QlaroError>)
    ensures
        match probe {
            Err(e) => r == Err::<StorageFormat, QlaroError>(QlaroError::Io(e)),
            Ok(read) => match (match read {
                Some(head) => magic_format(head@),
                None => None,
            }) {
                Some(f) => r == Ok::<StorageFormat, QlaroError>(f),
                None => r matches Err(QlaroError::Core(QlaroErrorCode::InvalidFormat(m))) && m@
                    == "Unable to determine storage format for "@ + path@,
            },
        },
{
    match probe {
        Err(e) => Err(QlaroError::Io(e)),
        Ok(None) => Err(QlaroError::Core(QlaroErrorCode::InvalidFormat(concat2("Unable to determine storage format for ", path)))),
        Ok(Some(m)) => {
            if m.len() >= 4 && m[0] == 0x50 && m[1] == 0x41 && m[2] == 0x52 && m[3] == 0x31 {
                assert(m@.take(4) =~= parquet_magic());
                return Ok(StorageFormat::Parquet);
            }
            assert(m@.len() >= 4 ==> m@.take(4) != parquet_magic()) by {
                if m@.len() >= 4 && m@.take(4) == parquet_magic() {
                    assert(m@.take(4)[0] == m@[0]);
                    assert(m@.take(4)[1] == m@[1]);
                    assert(m@.take(4)[2] == m@[2]);
                    assert(m@.take(4)[3] == m@[3]);
                }
            }
            if m.len() >= 6 && m[0] == 0x41 && m[1] == 0x52 && m[2] == 0x52 && m[3] == 0x4f && m[4] == 0x57
                && m[5] == 0x31 {
                assert(m@.take(6) =~= arrow_magic());
                return Ok(StorageFormat::ArrowIpc);
            }
            assert(m@.len() >= 6 ==> m@.take(6) != arrow_magic()) by {
                if m@.len() >= 6 && m@.take(6) == arrow_magic() {
                    assert(m@.take(6)[0] == m@[0]);
                    assert(m@.take(6)[1] == m@[1]);
                    assert(m@.take(6)[2] == m@[2]);
                    assert(m@.take(6)[3] == m@[3]);
                    assert(m@.take(6)[4] == m@[4]);
                    assert(m@.take(6)[5] == m@[5]);
                }
            }
            Err(QlaroError::Core(QlaroErrorCode::InvalidFormat(concat2("Unable to determine storage format for ", path))))
        },
    }
}

/// The formats whose files can be inspected for batches; CSV needs schema inference.
pub fn require_inspectable(format: StorageFormat) -> (r: Result<StorageFormat, QlaroError>)
    ensures
        format != StorageFormat::Csv ==> r == Ok::<StorageFormat, QlaroError>(format),
        format == StorageFormat::Csv ==> (r matches Err(QlaroError::Core(QlaroErrorCode::InvalidFormat(m))) && m@
            == "CSV format requires schema inference engine "@),
{
    match format {
        StorageFormat::Csv => Err(QlaroError::Core(QlaroErrorCode::InvalidFormat(
            "CSV format requires schema inference engine ".to_owned(),
        ))),
        _ => Ok(format),
    }
}

/// The format an inspection reads: the caller's hint when there is one, else the result
/// of detecting it (asked for only without a hint); CSV is refused as by
/// `require_inspectable`.
pub fn format_to_inspect(
    format_hint: Option<StorageFormat>,
    detected: Option<Result<StorageFormat, QlaroError>>,
) -> (r: Result<StorageFormat, QlaroError>)
    requires
        format_hint is None ==> detected is Some,
    ensures
        ({
            let chosen = match format_hint {
                Some(f) => Ok::<StorageFormat, QlaroError>(f),
                None => detected->0,
            };
            match chosen {
                Err(e) => r == Err::<StorageFormat, QlaroError>(e),
                Ok(f) => f != StorageFormat::Csv ==> r == Ok::<StorageFormat, QlaroError>(f),
            }
        }),
        r matches Ok(f) ==> f != StorageFormat::Csv,
        (match format_hint {
            Some(f) => f == StorageFormat::Csv,
            None => detected->0 == Ok::<StorageFormat, QlaroError>(StorageFormat::Csv),
        }) ==> (r matches Err(QlaroError::Core(QlaroErrorCode::InvalidFormat(m))) && m@
            == "CSV format requires schema inference engine "@),
{
    let chosen = match format_hint {
        Some(f) => f,
        None => match detected {
            Some(Ok(f)) => f,
            Some(Err(e)) => return Err(e),
            None => return Err(QlaroError::Core(QlaroErrorCode::Internal("no format to inspect".to_owned()))),
        },
    };
    require_inspectable(chosen)
}

/// The reader a batch scan goes through.
#[derive(Debug, Clone, Copy, PartialEq, Eq, Structural)]
pub enum ScanSource {
    Parquet,
    IpcFile,
    IpcStream,
}

/// What a scan does after a batch.
#[derive(Debug)]
pub enum ScanStep {
    /// Read another batch.
    Continue,
    /// The sample is complete; stop reading.
    Stop,
    /// Give up with this error.
    Abort(QlaroError),
}

/// Progress of reading a sample of batches.
#[derive(Debug)]
pub struct BatchScan {
    pub source: ScanSource,
    pub sample_limit: Option<usize>,
    pub total_rows: u64,
    pub batches: usize,
}

/// The message for a cancellation noticed before reading.
pub open spec fn cancelled_before_text(source: ScanSource) -> Seq<char> {
    match source {
        ScanSource::Parquet => "Inspection cancelled before reading Parquet file"@,
        _ => "Inspection cancelled before reading Arrow IPC file"@,
    }
}

/// The message for a cancellation noticed between batches.
pub open spec fn cancelled_during_text(source: ScanSource) -> Seq<char> {
    match source {
        ScanSource::Parquet => "Parquet inspection cancelled during batch processing"@,
        ScanSource::IpcFile => "Arrow IPC inspection cancelled during batch processing"@,
        ScanSource::IpcStream => "Arrow IPC stream inspection cancelled during batch processing"@,
    }
}

impl BatchScan {
    /// Starts a scan, unless cancellation was already requested.
    pub fn begin(source: ScanSource, sample_limit: Option<usize>, cancelled: bool) -> (r: Result<BatchScan, QlaroError>)
        ensures
            cancelled ==> (r matches Err(QlaroError::Core(QlaroErrorCode::Cancelled(m))) && m@
                == cancelled_before_text(source)),
            !cancelled ==> (r matches Ok(s) && s.source == source && s.sample_limit == sample_limit
                && s.total_rows == 0 && s.batches == 0),
    {
        if cancelled {
            let m = match source {
                ScanSource::Parquet => "Inspection cancelled before reading Parquet file".to_owned(),
                _ => "Inspection cancelled before reading Arrow IPC file".to_owned(),
            };
            return Err(QlaroError::Core(QlaroErrorCode::Cancelled(m)));
        }
        Ok(BatchScan { source, sample_limit, total_rows: 0, batches: 0 })
    }

    /// Chooses the Arrow IPC reader after trying to open the data as an IPC file: the file
    /// reader when that worked, otherwise the stream reader (read from the start again).
    pub fn choose_ipc_reader(&mut self, file_opened: bool) -> (r: ScanSource)
        ensures
            r == (if file_opened { ScanSource::IpcFile } else { ScanSource::IpcStream }),
            final(self).source == r,
            final(self).sample_limit == old(self).sample_limit,
            final(self).total_rows == old(self).total_rows,
            final(self).batches == old(self).batches,
    {
        let r = if file_opened { ScanSource::IpcFile } else { ScanSource::IpcStream };
        self.source = r;
        r
    }

    /// The error when neither the IPC file reader nor the stream reader can open the
    /// data: the stream reader's error, as a corrupted batch.
    pub fn ipc_unreadable(stream_error: String) -> (r: QlaroError)
        ensures
            r == QlaroError::Core(QlaroErrorCode::CorruptedBatch(stream_error)),
    {
        QlaroError::Core(QlaroErrorCode::CorruptedBatch(stream_error))
    }

    /// Rows per batch requested from the Parquet reader: the sample limit, or 1024.
    pub fn parquet_batch_size(sample_limit: Option<usize>) -> (r: usize)
        ensures
            r == match sample_limit {
                Some(l) => l,
                None => 1024,
            },
    {
        match sample_limit {
            Some(l) => l,
            None => 1024,
        }
    }

    /// Accounts for one more batch read (`Ok(rows)`) or a read failure (`Err(text)`),
    /// with the cancellation flag as it stands now.
    pub fn on_batch(&mut self, cancelled: bool, batch: Result<usize, String>) -> (r: ScanStep)
        requires
            batch matches Ok(n) ==> old(self).total_rows + n <= u64::MAX,
            old(self).batches < usize::MAX,
        ensures
            final(self).source == old(self).source,
            final(self).sample_limit == old(self).sample_limit,
            cancelled ==> (r matches ScanStep::Abort(QlaroError::Core(QlaroErrorCode::Cancelled(m)))
                && m@ == cancelled_during_text(old(self).source)) && final(self).total_rows == old(self).total_rows
                && final(self).batches == old(self).batches,
            !cancelled ==> match batch {
                Err(e) => r == ScanStep::Abort(QlaroError::Core(QlaroErrorCode::CorruptedBatch(e)))
                    && final(self).total_rows == old(self).total_rows && final(self).batches == old(self).batches,
                Ok(n) => {
                    &&& final(self).total_rows == old(self).total_rows + n
                    &&& final(self).batches == old(self).batches + 1
                    &&& match old(self).sample_limit {
                        Some(l) => if final(self).total_rows >= l { r is Stop } else { r is Continue },
                        None => r is Continue,
                    }
                },
            },
    {
        if cancelled {
            let m = match self.source {
                ScanSource::Parquet => "Parquet inspection cancelled during batch processing".to_owned(),
                ScanSource::IpcFile => "Arrow IPC inspection cancelled during batch processing".to_owned(),
                ScanSource::IpcStream => "Arrow IPC stream inspection cancelled during batch processing".to_owned(),
            };
            return ScanStep::Abort(QlaroError::Core(QlaroErrorCode::Cancelled(m)));
        }
        match batch {
            Err(e) => ScanStep::Abort(QlaroError::Core(QlaroErrorCode::CorruptedBatch(e))),
            Ok(n) => {
                self.total_rows = self.total_rows + n as u64;
                self.batches = self.batches + 1;
                match self.sample_limit {
                    Some(l) => if self.total_rows >= l as u64 {
                        ScanStep::Stop
                    } else {
                        ScanStep::Continue
                    },
                    None => ScanStep::Continue,
                }
            },
        }
    }
}

} // verus!
