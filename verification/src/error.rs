//! Error codes and error values of the engine, with their user-facing texts.

use vstd::prelude::*;
use crate::text::concat2;

verus! {

/// Classified failure of an engine operation; each carries a detail text.
#[derive(Debug, Clone, PartialEq, Eq)]
pub enum QlaroErrorCode {
    SchemaMismatch(String),
    UnsupportedDataType(String),
    InvalidFormat(String),
    CorruptedBatch(String),
    DatasetNotFound(String),
    UnentitledCapability(String),
    Internal(String),
    Cancelled(String),
    ResourceLimitExceeded(String),
}

/// A code together with an explanation and, possibly, a suggested remedy.
#[derive(Debug, Clone, PartialEq, Eq)]
pub struct DiagnosticDetail {
    pub code: QlaroErrorCode,
    pub message: String,
    pub suggested_action: Option<String>,
}

/// Any error the engine reports.
#[derive(Debug)]
pub enum QlaroError {
    Core(QlaroErrorCode),
    Arrow(String),
    Io(String),
    Serialization(String),
}

/// The text that describes an error code.
pub open spec fn code_text(c: QlaroErrorCode) -> Seq<char> {
    match c {
        QlaroErrorCode::SchemaMismatch(s) => "Schema mismatch: "@ + s@,
        QlaroErrorCode::UnsupportedDataType(s) => "Unsupported Arrow data type: "@ + s@,
        QlaroErrorCode::InvalidFormat(s) => "Invalid dataset format: "@ + s@,
        QlaroErrorCode::CorruptedBatch(s) => "Corrupted record batch: "@ + s@,
        QlaroErrorCode::DatasetNotFound(s) => "Dataset not found: "@ + s@,
        QlaroErrorCode::UnentitledCapability(s) => "Unentitled capability: "@ + s@,
        QlaroErrorCode::Internal(s) => "Internal engine error: "@ + s@,
        QlaroErrorCode::Cancelled(s) => "Operation cancelled: "@ + s@,
        QlaroErrorCode::ResourceLimitExceeded(s) => "Resource limit exceeded: "@ + s@,
    }
}

/// The text that describes an error.
pub open spec fn error_text(e: QlaroError) -> Seq<char> {
    match e {
        QlaroError::Core(c) => "Core Error: "@ + code_text(c),
        QlaroError::Arrow(s) => "Arrow Error: "@ + s@,
        QlaroError::Io(s) => "IO Error: "@ + s@,
        QlaroError::Serialization(s) => "Serialization Error: "@ + s@,
    }
}

impl QlaroErrorCode {
    /// The user-facing text of the code (what `Display` prints).
    pub fn describe(&self) -> (r: String)
        ensures
            r@ == code_text(*self),
    {
        match self {
            QlaroErrorCode::SchemaMismatch(s) => concat2("Schema mismatch: ", s),
            QlaroErrorCode::UnsupportedDataType(s) => concat2("Unsupported Arrow data type: ", s),
            QlaroErrorCode::InvalidFormat(s) => concat2("Invalid dataset format: ", s),
            QlaroErrorCode::CorruptedBatch(s) => concat2("Corrupted record batch: ", s),
            QlaroErrorCode::DatasetNotFound(s) => concat2("Dataset not found: ", s),
            QlaroErrorCode::UnentitledCapability(s) => concat2("Unentitled capability: ", s),
            QlaroErrorCode::Internal(s) => concat2("Internal engine error: ", s),
            QlaroErrorCode::Cancelled(s) => concat2("Operation cancelled: ", s),
            QlaroErrorCode::ResourceLimitExceeded(s) => concat2("Resource limit exceeded: ", s),
        }
    }
}

impl QlaroError {
    /// The user-facing text of the error (what `Display` prints).
    pub fn describe(&self) -> (r: String)
        ensures
            r@ == error_text(*self),
    {
        match self {
            QlaroError::Core(c) => {
                let t = c.describe();
                concat2("Core Error: ", &t)
            },
            QlaroError::Arrow(s) => concat2("Arrow Error: ", s),
            QlaroError::Io(s) => concat2("IO Error: ", s),
            QlaroError::Serialization(s) => concat2("Serialization Error: ", s),
        }
    }
}

impl From<QlaroErrorCode> for QlaroError {
    fn from(code: QlaroErrorCode) -> (r: QlaroError) {
        QlaroError::Core(code)
    }
}

impl vstd::std_specs::convert::FromSpecImpl<QlaroErrorCode> for QlaroError {
    open spec fn obeys_from_spec() -> bool {
        true
    }

    open spec fn from_spec(code: QlaroErrorCode) -> QlaroError {
        QlaroError::Core(code)
    }
}

} // verus!
