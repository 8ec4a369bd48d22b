//! Lifecycle states of a report, and their durable string encoding.

use vstd::prelude::*;

verus! {

/// Lifecycle state of a report. A report is created `Pending` and moves
/// at most once to a terminal state (`Completed` or `Error`); it never
/// leaves a terminal state.
#[derive(Clone, Copy, Debug, PartialEq, Eq, Structural)]
pub enum ReportStatus {
    Pending,
    Completed,
    Error,
}

impl ReportStatus {
    /// The string under which this status is stored durably.
    pub open spec fn encoding(self) -> Seq<char> {
        match self {
            ReportStatus::Pending => "pending"@,
            ReportStatus::Completed => "completed"@,
            ReportStatus::Error => "error"@,
        }
    }

    /// Whether this is a terminal state: nothing mutates such a report again.
    pub open spec fn is_terminal(self) -> bool {
        self != ReportStatus::Pending
    }

    /// Encode the status for storage.
    pub fn as_str(&self) -> (r: &'static str)
        ensures
            r@ == self.encoding(),
    {
        match self {
            ReportStatus::Pending => "pending",
            ReportStatus::Completed => "completed",
            ReportStatus::Error => "error",
        }
    }
}

/// What a stored status string decodes to: the status whose encoding it
/// is, or nothing for a string no status encodes to.
pub open spec fn spec_parse_status(s: Seq<char>) -> Option<ReportStatus> {
    if s == "pending"@ {
        Some(ReportStatus::Pending)
    } else if s == "completed"@ {
        Some(ReportStatus::Completed)
    } else if s == "error"@ {
        Some(ReportStatus::Error)
    } else {
        None
    }
}

/// Decode a stored status string.
pub fn parse_status(s: &str) -> (r: Option<ReportStatus>)
    ensures
        r == spec_parse_status(s@),
{
    let owned = s.to_owned();
    if owned == "pending".to_owned() {
        Some(ReportStatus::Pending)
    } else if owned == "completed".to_owned() {
        Some(ReportStatus::Completed)
    } else if owned == "error".to_owned() {
        Some(ReportStatus::Error)
    } else {
        None
    }
}

/// The three encodings are pairwise distinct, so decoding inverts
/// encoding: `parse_status` applied to `st.as_str()` gives back `st`.
pub proof fn lemma_status_codec_round_trip(st: ReportStatus)
    ensures
        spec_parse_status(st.encoding()) == Some(st),
{
    reveal_strlit("pending");
    reveal_strlit("completed");
    reveal_strlit("error");
    assert("pending"@.len() == 7);
    assert("completed"@.len() == 9);
    assert("error"@.len() == 5);
}

} // verus!
