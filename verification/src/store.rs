//! The metadata store: report lifecycle, model cache index, and the
//! startup recovery pass that purges interrupted `Pending` reports and
//! garbage-collects model rows of a stale format version.
//!
//! The store is an in-memory value whose every operation is a plain
//! state transition; the caller owning durability mirrors each
//! transition to its backing storage and performs the artifact
//! deletions that recovery asks for.

use vstd::prelude::*;

use crate::rows::{ModelRow, ModelRowView, ReportRow, ReportRowView};
use crate::status::ReportStatus;

verus! {

/// Failure taxonomy of the durable layer. `StorageUnavailable` and
/// `MigrationFailed` abort construction; `QueryFailed` is a
/// per-statement failure surfaced to the immediate caller.
#[derive(Clone, Copy, Debug, PartialEq, Eq, Structural)]
pub enum StoreError {
    StorageUnavailable,
    MigrationFailed,
    QueryFailed,
}

impl StoreError {
    /// A short name for logs and messages.
    pub fn describe(&self) -> (r: &'static str)
        ensures
            r@ == match self {
                StoreError::StorageUnavailable => "storage unavailable"@,
                StoreError::MigrationFailed => "migration failed"@,
                StoreError::QueryFailed => "query failed"@,
            },
    {
        match self {
            StoreError::StorageUnavailable => "storage unavailable",
            StoreError::MigrationFailed => "migration failed",
            StoreError::QueryFailed => "query failed",
        }
    }
}

/// Mathematical image of the whole store.
#[verifier::ext_equal]
pub ghost struct DbView {
    /// Report rows, oldest first, strictly ascending by id.
    pub reports: Seq<ReportRowView>,
    /// Model rows, in insertion order, content ids pairwise distinct.
    pub models: Seq<ModelRowView>,
    /// The id the next created report receives.
    pub next_id: int,
    /// The engine's current model format version.
    pub version: int,
}

/// The views of a sequence of report rows.
pub open spec fn report_views(rows: Seq<ReportRow>) -> Seq<ReportRowView> {
    rows.map_values(|r: ReportRow| r@)
}

/// The views of a sequence of model rows.
pub open spec fn model_views(rows: Seq<ModelRow>) -> Seq<ModelRowView> {
    rows.map_values(|r: ModelRow| r@)
}

/// The views of a sequence of strings.
pub open spec fn string_views(strs: Seq<String>) -> Seq<Seq<char>> {
    strs.map_values(|s: String| s@)
}

/// The first row carrying `id`, searching from the front. Under
/// `DbView::wf` ids are unique, so this is the row with that id.
pub open spec fn row_of(reports: Seq<ReportRowView>, id: int) -> Option<ReportRowView>
    decreases reports.len(),
{
    if reports.len() == 0 {
        None
    } else if reports[0].id == id {
        Some(reports[0])
    } else {
        row_of(reports.drop_first(), id)
    }
}

/// The status of the report carrying `id`, if any.
pub open spec fn status_of(reports: Seq<ReportRowView>, id: int) -> Option<ReportStatus> {
    match row_of(reports, id) {
        Some(r) => Some(r.status),
        None => None,
    }
}

/// Whether a row records a comparison of exactly this pair.
pub open spec fn pair_matches(r: ReportRowView, target: Seq<char>, baseline: Seq<char>) -> bool {
    r.target == target && r.baseline == baseline
}

/// Id and status of the latest row for the pair: the schema does not
/// enforce pair uniqueness, and the latest row is the authoritative one.
pub open spec fn lookup_pair(
    reports: Seq<ReportRowView>,
    target: Seq<char>,
    baseline: Seq<char>,
) -> Option<(int, ReportStatus)>
    decreases reports.len(),
{
    if reports.len() == 0 {
        None
    } else if pair_matches(reports.last(), target, baseline) {
        Some((reports.last().id, reports.last().status))
    } else {
        lookup_pair(reports.drop_last(), target, baseline)
    }
}

/// The report rows that survive recovery: everything not `Pending`,
/// order kept.
pub open spec fn without_pending(reports: Seq<ReportRowView>) -> Seq<ReportRowView>
    decreases reports.len(),
{
    if reports.len() == 0 {
        Seq::empty()
    } else if reports.last().status == ReportStatus::Pending {
        without_pending(reports.drop_last())
    } else {
        without_pending(reports.drop_last()).push(reports.last())
    }
}

/// The model rows that survive garbage collection: exactly those
/// stamped with the current format version, order kept.
pub open spec fn current_models(models: Seq<ModelRowView>, version: int) -> Seq<ModelRowView>
    decreases models.len(),
{
    if models.len() == 0 {
        Seq::empty()
    } else if models.last().version == version {
        current_models(models.drop_last(), version).push(models.last())
    } else {
        current_models(models.drop_last(), version)
    }
}

/// Content ids of the rows garbage collection removes, order kept: the
/// artifact store must be asked to delete each of these once.
pub open spec fn stale_model_ids(models: Seq<ModelRowView>, version: int) -> Seq<Seq<char>>
    decreases models.len(),
{
    if models.len() == 0 {
        Seq::empty()
    } else if models.last().version == version {
        stale_model_ids(models.drop_last(), version)
    } else {
        stale_model_ids(models.drop_last(), version).push(models.last().content_id)
    }
}

/// The id assigned to the next report: one past the greatest id
/// present, and 1 on an empty table.
pub open spec fn next_id_of(reports: Seq<ReportRowView>) -> int
    decreases reports.len(),
{
    if reports.len() == 0 {
        1
    } else {
        let rest = next_id_of(reports.drop_last());
        if reports.last().id + 1 > rest {
            reports.last().id + 1
        } else {
            rest
        }
    }
}

/// Whether some model row carries this content id.
pub open spec fn has_model(models: Seq<ModelRowView>, content_id: Seq<char>) -> bool {
    exists|i: int| 0 <= i < models.len() && models[i].content_id == content_id
}

/// Content ids pairwise distinct: the models table's primary key.
pub open spec fn distinct_cids(models: Seq<ModelRowView>) -> bool {
    forall|i: int, j: int|
        0 <= i < j < models.len() ==> models[i].content_id != models[j].content_id
}

/// The row `initialize_report` creates.
pub open spec fn fresh_report_row(
    id: int,
    target: Seq<char>,
    baseline: Seq<char>,
    now: int,
) -> ReportRowView {
    ReportRowView {
        id,
        created_at: now,
        updated_at: now,
        target,
        baseline,
        anomaly_count: 0,
        status: ReportStatus::Pending,
        bytes_size: 0,
    }
}

/// The row `add_model` creates.
pub open spec fn fresh_model_row(
    content_id: Seq<char>,
    version: int,
    size: int,
    now: int,
) -> ModelRowView {
    ModelRowView { content_id, version, created_at: now, bytes_size: size }
}

/// A row after `update_report` touched it.
pub open spec fn updated_row(
    r: ReportRowView,
    count: int,
    status: ReportStatus,
    size: int,
    now: int,
) -> ReportRowView {
    ReportRowView {
        id: r.id,
        created_at: r.created_at,
        updated_at: now,
        target: r.target,
        baseline: r.baseline,
        anomaly_count: count,
        status,
        bytes_size: size,
    }
}

/// The report table after `update_report`: every row that carries the
/// id and is still `Pending` is rewritten; terminal and foreign rows
/// are untouched.
pub open spec fn applied_update(
    reports: Seq<ReportRowView>,
    id: int,
    count: int,
    status: ReportStatus,
    size: int,
    now: int,
) -> Seq<ReportRowView> {
    reports.map_values(
        |r: ReportRowView|
            if r.id == id && r.status == ReportStatus::Pending {
                updated_row(r, count, status, size, now)
            } else {
                r
            },
    )
}

/// The models table after `deprecate_models`: every version forced to 0.
pub open spec fn deprecated_models(models: Seq<ModelRowView>) -> Seq<ModelRowView> {
    models.map_values(|m: ModelRowView| ModelRowView { version: 0, ..m })
}

impl DbView {
    /// Well-formedness: ids are positive, strictly ascending, and below
    /// the next id to assign; content ids are pairwise distinct.
    pub open spec fn wf(self) -> bool {
        &&& 1 <= self.next_id
        &&& forall|i: int|
            0 <= i < self.reports.len() ==> 1 <= (#[trigger] self.reports[i]).id < self.next_id
        &&& forall|i: int, j: int|
            0 <= i < j < self.reports.len() ==> self.reports[i].id < self.reports[j].id
        &&& distinct_cids(self.models)
    }
}

/// The store. Construction runs recovery; afterwards the report
/// operations and the model cache index are independently usable.
pub struct Db {
    reports: Vec<ReportRow>,
    models: Vec<ModelRow>,
    next_id: i64,
    version: i64,
}

impl View for Db {
    type V = DbView;

    closed spec fn view(&self) -> DbView {
        DbView {
            reports: report_views(self.reports@),
            models: model_views(self.models@),
            next_id: self.next_id as int,
            version: self.version as int,
        }
    }
}

/// Mapping row views distributes over appending a report row.
proof fn lemma_report_views_push(rows: Seq<ReportRow>, x: ReportRow)
    ensures
        report_views(rows.push(x)) == report_views(rows).push(x@),
{
    assert(report_views(rows.push(x)) =~= report_views(rows).push(x@));
}

/// Mapping row views distributes over appending a model row.
proof fn lemma_model_views_push(rows: Seq<ModelRow>, x: ModelRow)
    ensures
        model_views(rows.push(x)) == model_views(rows).push(x@),
{
    assert(model_views(rows.push(x)) =~= model_views(rows).push(x@));
}

/// Mapping string views distributes over appending.
proof fn lemma_string_views_push(strs: Seq<String>, x: String)
    ensures
        string_views(strs.push(x)) == string_views(strs).push(x@),
{
    assert(string_views(strs.push(x)) =~= string_views(strs).push(x@));
}

impl Db {
    /// The engine format version this store was constructed with: the
    /// version every row added by `add_model` is stamped with.
    pub fn model_version(&self) -> (r: i64)
        ensures
            r as int == self@.version,
    {
        self.version
    }

    /// The id the next created report will receive. Lets a caller
    /// check that the id space is not exhausted before asking for a
    /// report.
    pub fn next_report_id(&self) -> (r: i64)
        ensures
            r as int == self@.next_id,
    {
        self.next_id
    }

    /// Create a report row in state `Pending` with zero anomaly count
    /// and zero size, stamped `now`, and return its freshly assigned id.
    /// Deduplication of an existing (target, baseline) pair is the
    /// caller's policy, via `lookup_report` first.
    pub fn initialize_report(&mut self, target: &str, baseline: &str, now: i64) -> (id: i64)
        requires
            old(self)@.wf(),
            old(self)@.next_id < i64::MAX,
        ensures
            final(self)@.wf(),
            id as int == old(self)@.next_id,
            final(self)@.reports == old(self)@.reports.push(
                fresh_report_row(old(self)@.next_id, target@, baseline@, now as int),
            ),
            final(self)@.models == old(self)@.models,
            final(self)@.next_id == old(self)@.next_id + 1,
            final(self)@.version == old(self)@.version,
    {
        let id = self.next_id;
        let row = ReportRow {
            id,
            created_at: now,
            updated_at: now,
            target: target.to_owned(),
            baseline: baseline.to_owned(),
            anomaly_count: 0,
            status: ReportStatus::Pending,
            bytes_size: 0,
        };
        proof {
            lemma_report_views_push(self.reports@, row);
        }
        self.reports.push(row);
        self.next_id = self.next_id + 1;
        id
    }

    /// The status of the report carrying `report_id`, or nothing for an
    /// id that never existed or was already deleted.
    pub fn get_report_status(&self, report_id: i64) -> (r: Option<ReportStatus>)
        ensures
            r == status_of(self@.reports, report_id as int),
    {
        let ghost rv = self@.reports;
        proof {
            assert(rv.skip(0) =~= rv);
        }
        let mut i: usize = 0;
        while i < self.reports.len()
            invariant
                0 <= i <= self.reports.len(),
                rv == self@.reports,
                rv.len() == self.reports.len(),
                status_of(rv, report_id as int) == status_of(
                    rv.skip(i as int),
                    report_id as int,
                ),
            decreases self.reports.len() - i,
        {
            proof {
                assert(rv.skip(i as int)[0] == rv[i as int]);
                assert(rv.skip(i as int).drop_first() =~= rv.skip(i as int + 1));
            }
            if self.reports[i].id == report_id {
                return Some(self.reports[i].status);
            }
            i += 1;
        }
        proof {
            assert(rv.skip(self.reports.len() as int) =~= Seq::<ReportRowView>::empty());
        }
        None
    }

    /// Find the latest row recorded for this (target, baseline) pair:
    /// the dedup hook callers use before launching new work. Nothing is
    /// found only when no row matches the pair.
    pub fn lookup_report(&self, target: &str, baseline: &str) -> (r: Option<(i64, ReportStatus)>)
        ensures
            match r {
                Some((id, st)) => lookup_pair(self@.reports, target@, baseline@) == Some(
                    (id as int, st),
                ),
                None => lookup_pair(self@.reports, target@, baseline@) is None,
            },
    {
        let ghost rv = self@.reports;
        let t = target.to_owned();
        let b = baseline.to_owned();
        let mut i: usize = self.reports.len();
        proof {
            assert(rv.take(i as int) =~= rv);
        }
        while i > 0
            invariant
                i <= self.reports.len(),
                rv == self@.reports,
                rv.len() == self.reports.len(),
                t@ == target@,
                b@ == baseline@,
                lookup_pair(rv, target@, baseline@) == lookup_pair(
                    rv.take(i as int),
                    target@,
                    baseline@,
                ),
            decreases i,
        {
            i -= 1;
            proof {
                assert(rv.take(i as int + 1).last() == rv[i as int]);
                assert(rv.take(i as int + 1).drop_last() =~= rv.take(i as int));
            }
            if self.reports[i].target == t && self.reports[i].baseline == b {
                return Some((self.reports[i].id, self.reports[i].status));
            }
        }
        proof {
            assert(rv.take(0) =~= Seq::<ReportRowView>::empty());
        }
        None
    }

    /// Rewrite the count, status, size and `updated_at` of the report
    /// carrying `report_id`, provided it is still `Pending`: a report
    /// moves at most once out of `Pending` and never leaves a terminal
    /// state. On a terminal or unknown id the store is untouched.
    pub fn update_report(
        &mut self,
        report_id: i64,
        anomaly_count: u64,
        status: &ReportStatus,
        size: u64,
        now: i64,
    )
        requires
            anomaly_count <= i64::MAX as u64,
            size <= i64::MAX as u64,
        ensures
            final(self)@.reports == applied_update(
                old(self)@.reports,
                report_id as int,
                anomaly_count as int,
                *status,
                size as int,
                now as int,
            ),
            final(self)@.models == old(self)@.models,
            final(self)@.next_id == old(self)@.next_id,
            final(self)@.version == old(self)@.version,
            old(self)@.wf() ==> final(self)@.wf(),
    {
        let ghost rv = old(self)@.reports;
        let ghost target_rv = applied_update(
            rv,
            report_id as int,
            anomaly_count as int,
            *status,
            size as int,
            now as int,
        );
        let mut i: usize = 0;
        while i < self.reports.len()
            invariant
                0 <= i <= self.reports.len(),
                anomaly_count <= i64::MAX as u64,
                size <= i64::MAX as u64,
                rv == old(self)@.reports,
                target_rv == applied_update(
                    rv,
                    report_id as int,
                    anomaly_count as int,
                    *status,
                    size as int,
                    now as int,
                ),
                self.reports@.len() == rv.len(),
                self@.models == old(self)@.models,
                self@.next_id == old(self)@.next_id,
                self@.version == old(self)@.version,
                target_rv.len() == rv.len(),
                forall|k: int| 0 <= k < i ==> self@.reports[k] == target_rv[k],
                forall|k: int| i <= k < rv.len() ==> self@.reports[k] == rv[k],
            decreases self.reports.len() - i,
        {
            proof {
                assert(self@.reports[i as int] == rv[i as int]);
            }
            if self.reports[i].id == report_id && self.reports[i].status == ReportStatus::Pending {
                let mut row = self.reports[i].clone();
                row.updated_at = now;
                row.anomaly_count = anomaly_count as i64;
                row.status = *status;
                row.bytes_size = size as i64;
                self.reports[i] = row;
                proof {
                    assert(self@.reports[i as int] == updated_row(
                        rv[i as int],
                        anomaly_count as int,
                        *status,
                        size as int,
                        now as int,
                    ));
                    assert(rv[i as int].id == report_id as int);
                    assert(rv[i as int].status == ReportStatus::Pending);
                    assert(target_rv[i as int] == updated_row(
                        rv[i as int],
                        anomaly_count as int,
                        *status,
                        size as int,
                        now as int,
                    ));
                    assert(target_rv[i as int] == self@.reports[i as int]);
                }
            } else {
                proof {
                    assert(!(rv[i as int].id == report_id as int && rv[i as int].status
                        == ReportStatus::Pending));
                    assert(target_rv[i as int] == rv[i as int]);
                }
            }
            i += 1;
        }
        proof {
            assert(self@.reports =~= target_rv);
            if old(self)@.wf() {
                assert forall|k: int| 0 <= k < target_rv.len() implies (#[trigger] target_rv[k]).id
                    == rv[k].id by {}
            }
        }
    }

    /// The full report listing, newest first by id: the monitoring
    /// surface. Row `i` of the result is row `len - 1 - i` of the store.
    pub fn get_reports(&self) -> (r: Vec<ReportRow>)
        ensures
            r@.len() == self@.reports.len(),
            forall|k: int|
                0 <= k < r@.len() ==> (#[trigger] r@[k])@ == self@.reports[self@.reports.len() - 1
                    - k],
    {
        let ghost rv = self@.reports;
        let mut out: Vec<ReportRow> = Vec::new();
        let mut i: usize = self.reports.len();
        while i > 0
            invariant
                i <= self.reports.len(),
                rv == self@.reports,
                rv.len() == self.reports.len(),
                out@.len() == rv.len() - i,
                forall|k: int| 0 <= k < out@.len() ==> (#[trigger] out@[k])@ == rv[rv.len() - 1 - k],
            decreases i,
        {
            i -= 1;
            out.push(self.reports[i].clone());
        }
        out
    }

    /// The full model listing, in insertion order: the administration
    /// surface.
    pub fn get_models(&self) -> (r: Vec<ModelRow>)
        ensures
            r@.len() == self@.models.len(),
            forall|k: int| 0 <= k < r@.len() ==> (#[trigger] r@[k])@ == self@.models[k],
    {
        let ghost mv = self@.models;
        let mut out: Vec<ModelRow> = Vec::new();
        let mut i: usize = 0;
        while i < self.models.len()
            invariant
                i <= self.models.len(),
                mv == self@.models,
                mv.len() == self.models.len(),
                out@.len() == i,
                forall|k: int| 0 <= k < i ==> (#[trigger] out@[k])@ == mv[k],
            decreases self.models.len() - i,
        {
            out.push(self.models[i].clone());
            i += 1;
        }
        out
    }

    /// Whether a cached model for this baseline content exists: the
    /// check the feature-extraction path uses to skip recomputation.
    /// After construction every row present carries the current format
    /// version, since recovery removed everything stale.
    pub fn lookup_model(&self, content_id: &str) -> (r: bool)
        ensures
            r == has_model(self@.models, content_id@),
    {
        let ghost mv = self@.models;
        let cid = content_id.to_owned();
        let mut i: usize = 0;
        while i < self.models.len()
            invariant
                i <= self.models.len(),
                mv == self@.models,
                mv.len() == self.models.len(),
                cid@ == content_id@,
                forall|k: int| 0 <= k < i ==> (#[trigger] mv[k]).content_id != content_id@,
            decreases self.models.len() - i,
        {
            if self.models[i].content_id == cid {
                proof {
                    assert(mv[i as int].content_id == content_id@);
                    assert(has_model(mv, content_id@));
                }
                return true;
            }
            i += 1;
        }
        false
    }

    /// Record a freshly built model for this baseline content, stamped
    /// with the engine's current format version and `now`. Fails with
    /// `QueryFailed`, leaving the store untouched, exactly when a row
    /// for the content id already exists: the content id is the
    /// table's primary key.
    pub fn add_model(&mut self, content_id: &str, size: u64, now: i64) -> (r: Result<(), StoreError>)
        requires
            size <= i64::MAX as u64,
        ensures
            match r {
                Ok(()) => {
                    &&& !has_model(old(self)@.models, content_id@)
                    &&& final(self)@.models == old(self)@.models.push(
                        fresh_model_row(content_id@, old(self)@.version, size as int, now as int),
                    )
                },
                Err(e) => {
                    &&& e == StoreError::QueryFailed
                    &&& has_model(old(self)@.models, content_id@)
                    &&& final(self)@ == old(self)@
                },
            },
            final(self)@.reports == old(self)@.reports,
            final(self)@.next_id == old(self)@.next_id,
            final(self)@.version == old(self)@.version,
            old(self)@.wf() ==> final(self)@.wf(),
    {
        if self.lookup_model(content_id) {
            return Err(StoreError::QueryFailed);
        }
        let row = ModelRow {
            content_id: content_id.to_owned(),
            version: self.version,
            created_at: now,
            bytes_size: size as i64,
        };
        proof {
            lemma_model_views_push(self.models@, row);
        }
        self.models.push(row);
        proof {
            if old(self)@.wf() {
                assert forall|i: int, j: int|
                    0 <= i < j < self@.models.len() implies self@.models[i].content_id
                    != self@.models[j].content_id by {
                    if j == self@.models.len() - 1 {
                        assert(!has_model(old(self)@.models, content_id@));
                        assert(old(self)@.models[i].content_id != content_id@);
                    }
                }
            }
        }
        Ok(())
    }

    /// Recovery, first phase: delete every `Pending` report. A
    /// `Pending` row found at startup is work interrupted by a crash;
    /// no resumable progress backs it, so it is purged rather than
    /// trusted.
    fn clean_pending(&mut self)
        ensures
            final(self)@.reports == without_pending(old(self)@.reports),
            final(self)@.models == old(self)@.models,
            final(self)@.next_id == old(self)@.next_id,
            final(self)@.version == old(self)@.version,
    {
        let ghost rv = old(self)@.reports;
        let mut kept: Vec<ReportRow> = Vec::new();
        proof {
            assert(rv.take(0) =~= Seq::<ReportRowView>::empty());
        }
        let mut i: usize = 0;
        while i < self.reports.len()
            invariant
                i <= self.reports.len(),
                rv == self@.reports,
                *self == *old(self),
                rv.len() == self.reports.len(),
                report_views(kept@) == without_pending(rv.take(i as int)),
            decreases self.reports.len() - i,
        {
            proof {
                assert(rv.take(i as int + 1).drop_last() =~= rv.take(i as int));
                assert(rv.take(i as int + 1).last() == rv[i as int]);
            }
            if !(self.reports[i].status == ReportStatus::Pending) {
                let row = self.reports[i].clone();
                proof {
                    lemma_report_views_push(kept@, row);
                }
                kept.push(row);
            }
            i += 1;
        }
        proof {
            assert(rv.take(rv.len() as int) =~= rv);
        }
        self.reports = kept;
    }

    /// Recovery, second phase: garbage-collect every model row whose
    /// format version differs from the engine's current one. Such rows
    /// are logically dead even though physically present. The content
    /// ids of the removed rows come back, in table order and each
    /// exactly once: the caller must ask the artifact store to delete
    /// the corresponding on-disk artifact for each of them, best
    /// effort. Metadata removal does not wait on that: the row, not the
    /// filesystem, is the source of truth.
    fn clean_old_models(&mut self) -> (stale: Vec<String>)
        ensures
            final(self)@.models == current_models(old(self)@.models, old(self)@.version),
            string_views(stale@) == stale_model_ids(old(self)@.models, old(self)@.version),
            final(self)@.reports == old(self)@.reports,
            final(self)@.next_id == old(self)@.next_id,
            final(self)@.version == old(self)@.version,
    {
        let ghost mv = old(self)@.models;
        let ghost ver = old(self)@.version;
        let mut kept: Vec<ModelRow> = Vec::new();
        let mut stale: Vec<String> = Vec::new();
        proof {
            assert(mv.take(0) =~= Seq::<ModelRowView>::empty());
        }
        let mut i: usize = 0;
        while i < self.models.len()
            invariant
                i <= self.models.len(),
                mv == self@.models,
                ver == self@.version,
                *self == *old(self),
                mv.len() == self.models.len(),
                model_views(kept@) == current_models(mv.take(i as int), ver),
                string_views(stale@) == stale_model_ids(mv.take(i as int), ver),
            decreases self.models.len() - i,
        {
            proof {
                assert(mv.take(i as int + 1).drop_last() =~= mv.take(i as int));
                assert(mv.take(i as int + 1).last() == mv[i as int]);
            }
            if self.models[i].version == self.version {
                let row = self.models[i].clone();
                proof {
                    lemma_model_views_push(kept@, row);
                }
                kept.push(row);
            } else {
                let cid = self.models[i].content_id.clone();
                proof {
                    lemma_string_views_push(stale@, cid);
                }
                stale.push(cid);
            }
            i += 1;
        }
        proof {
            assert(mv.take(mv.len() as int) =~= mv);
        }
        self.models = kept;
        stale
    }

    /// Run the garbage-collection pass on demand: the administrative
    /// hook for exercising it outside construction. Returns the content
    /// ids whose artifacts the caller must ask the artifact store to
    /// delete, each exactly once.
    pub fn test_clean_old_models(&mut self) -> (stale: Vec<String>)
        ensures
            final(self)@.models == current_models(old(self)@.models, old(self)@.version),
            string_views(stale@) == stale_model_ids(old(self)@.models, old(self)@.version),
            final(self)@.reports == old(self)@.reports,
            final(self)@.next_id == old(self)@.next_id,
            final(self)@.version == old(self)@.version,
            old(self)@.wf() ==> final(self)@.wf(),
    {
        proof {
            if old(self)@.wf() {
                crate::laws::lemma_stale_purged(old(self)@.models, old(self)@.version);
                crate::laws::lemma_gc_keeps_distinct_cids(old(self)@.models, old(self)@.version);
            }
        }
        self.clean_old_models()
    }

    /// Construct the store from the rows found durably at startup,
    /// running recovery before anything is served: `Pending` reports
    /// are purged, stale-version model rows are garbage-collected, and
    /// the next report id is set past every surviving id. The second
    /// component of the result lists the content ids whose on-disk
    /// artifacts the caller must ask the artifact store to delete, each
    /// exactly once.
    ///
    /// The inputs are the two tables as the durable schema keeps them:
    /// report ids positive and strictly ascending, content ids
    /// pairwise distinct.
    pub fn new(reports: Vec<ReportRow>, models: Vec<ModelRow>, version: i64) -> (r: (Db, Vec<
        String,
    >))
        requires
            forall|i: int|
                0 <= i < reports@.len() ==> 1 <= (#[trigger] reports@[i])@.id < i64::MAX,
            forall|i: int, j: int|
                0 <= i < j < reports@.len() ==> reports@[i]@.id < reports@[j]@.id,
            forall|i: int, j: int|
                0 <= i < j < models@.len() ==> models@[i]@.content_id != models@[j]@.content_id,
        ensures
            r.0@.wf(),
            r.0@.reports == without_pending(report_views(reports@)),
            r.0@.models == current_models(model_views(models@), version as int),
            r.0@.next_id == next_id_of(without_pending(report_views(reports@))),
            r.0@.version == version as int,
            string_views(r.1@) == stale_model_ids(model_views(models@), version as int),
    {
        let ghost rv = report_views(reports@);
        let ghost mv = model_views(models@);
        proof {
            assert forall|i: int| 0 <= i < rv.len() implies 1 <= (#[trigger] rv[i]).id
                < i64::MAX by {
                assert(rv[i] == reports@[i]@);
            }
            assert forall|i: int, j: int| 0 <= i < j < rv.len() implies rv[i].id < rv[j].id by {
                assert(rv[i] == reports@[i]@);
                assert(rv[j] == reports@[j]@);
            }
            assert forall|i: int, j: int| 0 <= i < j < mv.len() implies mv[i].content_id
                != mv[j].content_id by {
                assert(mv[i] == models@[i]@);
                assert(mv[j] == models@[j]@);
            }
        }
        let mut db = Db { reports, models, next_id: 1, version };
        db.clean_pending();
        let stale = db.clean_old_models();
        let ghost wv = without_pending(rv);
        proof {
            crate::laws::lemma_pending_purged(rv);
            crate::laws::lemma_without_pending_sorted(rv);
            crate::laws::lemma_next_id_bounds(wv);
            crate::laws::lemma_stale_purged(mv, version as int);
            crate::laws::lemma_gc_keeps_distinct_cids(mv, version as int);
            assert forall|k: int| 0 <= k < wv.len() implies 1 <= (#[trigger] wv[k]).id
                < i64::MAX by {
                assert(wv.contains(wv[k]));
            }
        }
        let mut next: i64 = 1;
        let mut i: usize = 0;
        while i < db.reports.len()
            invariant
                i <= db.reports.len(),
                wv == db@.reports,
                wv == without_pending(rv),
                wv.len() == db.reports.len(),
                forall|k: int| 0 <= k < wv.len() ==> 1 <= (#[trigger] wv[k]).id < i64::MAX,
                1 <= next,
                next as int == next_id_of(wv.take(i as int)),
            decreases db.reports.len() - i,
        {
            proof {
                assert(wv.take(i as int + 1).drop_last() =~= wv.take(i as int));
                assert(wv.take(i as int + 1).last() == wv[i as int]);
            }
            if db.reports[i].id + 1 > next {
                next = db.reports[i].id + 1;
            }
            i += 1;
        }
        proof {
            assert(wv.take(wv.len() as int) =~= wv);
        }
        db.next_id = next;
        proof {
            crate::laws::lemma_next_id_bounds(wv);
        }
        (db, stale)
    }

    /// Force every model row's version to 0, a version no engine uses:
    /// the administrative hook for exercising garbage collection, which
    /// makes every cached model stale.
    pub fn deprecate_models(&mut self)
        ensures
            final(self)@.models == deprecated_models(old(self)@.models),
            final(self)@.reports == old(self)@.reports,
            final(self)@.next_id == old(self)@.next_id,
            final(self)@.version == old(self)@.version,
            old(self)@.wf() ==> final(self)@.wf(),
    {
        let ghost mv = old(self)@.models;
        let ghost target_mv = deprecated_models(mv);
        let mut i: usize = 0;
        while i < self.models.len()
            invariant
                i <= self.models.len(),
                mv == old(self)@.models,
                target_mv == deprecated_models(mv),
                self.models@.len() == mv.len(),
                self@.reports == old(self)@.reports,
                self@.next_id == old(self)@.next_id,
                self@.version == old(self)@.version,
                target_mv.len() == mv.len(),
                forall|k: int| 0 <= k < i ==> self@.models[k] == target_mv[k],
                forall|k: int| i <= k < mv.len() ==> self@.models[k] == mv[k],
            decreases self.models.len() - i,
        {
            proof {
                assert(self@.models[i as int] == mv[i as int]);
            }
            let mut row = self.models[i].clone();
            row.version = 0;
            self.models[i] = row;
            proof {
                assert(target_mv[i as int] == self@.models[i as int]);
            }
            i += 1;
        }
        proof {
            assert(self@.models =~= target_mv);
            if old(self)@.wf() {
                assert forall|k: int| 0 <= k < target_mv.len() implies (
                #[trigger] target_mv[k]).content_id == mv[k].content_id by {}
            }
        }
    }
}

} // verus!
