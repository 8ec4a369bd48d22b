//! The two durable row types and their mathematical views.

use vstd::prelude::*;

use crate::status::ReportStatus;

verus! {

/// One durable report row: the record of one target-vs-baseline
/// comparison request and its outcome.
pub struct ReportRow {
    /// Surrogate identifier assigned on creation, stable for the
    /// report's lifetime.
    pub id: i64,
    /// Creation timestamp.
    pub created_at: i64,
    /// Advances on every state mutation.
    pub updated_at: i64,
    /// Identifier of the log set under analysis.
    pub target: String,
    /// Identifier of the log set compared against.
    pub baseline: String,
    /// Number of anomalies found; meaningful once the report is terminal.
    pub anomaly_count: i64,
    /// Lifecycle state.
    pub status: ReportStatus,
    /// Size in bytes of the report's output artifact; 0 until produced.
    pub bytes_size: i64,
}

/// Mathematical image of a `ReportRow`.
#[verifier::ext_equal]
pub ghost struct ReportRowView {
    pub id: int,
    pub created_at: int,
    pub updated_at: int,
    pub target: Seq<char>,
    pub baseline: Seq<char>,
    pub anomaly_count: int,
    pub status: ReportStatus,
    pub bytes_size: int,
}

impl View for ReportRow {
    type V = ReportRowView;

    open spec fn view(&self) -> ReportRowView {
        ReportRowView {
            id: self.id as int,
            created_at: self.created_at as int,
            updated_at: self.updated_at as int,
            target: self.target@,
            baseline: self.baseline@,
            anomaly_count: self.anomaly_count as int,
            status: self.status,
            bytes_size: self.bytes_size as int,
        }
    }
}

impl Clone for ReportRow {
    fn clone(&self) -> (r: Self)
        ensures
            r@ == self@,
    {
        ReportRow {
            id: self.id,
            created_at: self.created_at,
            updated_at: self.updated_at,
            target: self.target.clone(),
            baseline: self.baseline.clone(),
            anomaly_count: self.anomaly_count,
            status: self.status,
            bytes_size: self.bytes_size,
        }
    }
}

/// One durable model row: a content-addressed cached feature
/// representation of a baseline, reusable across reports.
pub struct ModelRow {
    /// Content hash of the underlying baseline content; the primary key.
    pub content_id: String,
    /// Format version of the engine that produced this cache entry.
    pub version: i64,
    /// Creation timestamp.
    pub created_at: i64,
    /// Size in bytes of the serialized model artifact.
    pub bytes_size: i64,
}

/// Mathematical image of a `ModelRow`.
#[verifier::ext_equal]
pub ghost struct ModelRowView {
    pub content_id: Seq<char>,
    pub version: int,
    pub created_at: int,
    pub bytes_size: int,
}

impl View for ModelRow {
    type V = ModelRowView;

    open spec fn view(&self) -> ModelRowView {
        ModelRowView {
            content_id: self.content_id@,
            version: self.version as int,
            created_at: self.created_at as int,
            bytes_size: self.bytes_size as int,
        }
    }
}

impl Clone for ModelRow {
    fn clone(&self) -> (r: Self)
        ensures
            r@ == self@,
    {
        ModelRow {
            content_id: self.content_id.clone(),
            version: self.version,
            created_at: self.created_at,
            bytes_size: self.bytes_size,
        }
    }
}

} // verus!
