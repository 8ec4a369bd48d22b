//! The store's laws: what recovery purges and keeps, and what each
//! operation makes the observers return afterwards, proved over the
//! spec functions the operations' contracts are stated with.

use vstd::prelude::*;

use crate::rows::{ModelRowView, ReportRowView};
use crate::status::ReportStatus;
use crate::store::{
    applied_update, current_models, distinct_cids, fresh_model_row, fresh_report_row, has_model,
    lookup_pair, next_id_of, pair_matches, row_of, stale_model_ids, status_of, updated_row,
    without_pending, DbView,
};

verus! {

/// A sequence extended by one element holds exactly the old elements
/// and the new one.
proof fn lemma_push_contains<A>(s: Seq<A>, x: A)
    ensures
        forall|y: A| #[trigger] s.push(x).contains(y) <==> s.contains(y) || y == x,
{
    assert forall|y: A| #[trigger] s.push(x).contains(y) implies s.contains(y) || y == x by {
        let j = choose|j: int| 0 <= j < s.push(x).len() && s.push(x)[j] == y;
        if j < s.len() {
            assert(s[j] == y);
        }
    }
    assert forall|y: A| s.contains(y) || y == x implies #[trigger] s.push(x).contains(y) by {
        if s.contains(y) {
            let j = choose|j: int| 0 <= j < s.len() && s[j] == y;
            assert(s.push(x)[j] == y);
        } else {
            assert(s.push(x)[s.len() as int] == y);
        }
    }
}

/// A nonempty sequence holds exactly what its prefix holds and its
/// last element.
proof fn lemma_unpush_contains<A>(s: Seq<A>)
    requires
        s.len() > 0,
    ensures
        forall|y: A| #[trigger] s.contains(y) <==> s.drop_last().contains(y) || y == s.last(),
{
    assert forall|y: A| #[trigger] s.contains(y) implies s.drop_last().contains(y) || y
        == s.last() by {
        let j = choose|j: int| 0 <= j < s.len() && s[j] == y;
        if j < s.len() - 1 {
            assert(s.drop_last()[j] == y);
        }
    }
    assert forall|y: A| s.drop_last().contains(y) || y == s.last() implies #[trigger] s.contains(
        y,
    ) by {
        if s.drop_last().contains(y) {
            let j = choose|j: int| 0 <= j < s.drop_last().len() && s.drop_last()[j] == y;
            assert(s[j] == y);
        } else {
            assert(s[s.len() - 1] == y);
        }
    }
}

/// Recovery purges interrupted work and nothing else: the rows that
/// survive the pending purge are exactly the rows that were present
/// and not `Pending`, and no surviving row is `Pending`.
pub proof fn lemma_pending_purged(reports: Seq<ReportRowView>)
    ensures
        forall|r: ReportRowView| #[trigger]
            without_pending(reports).contains(r) <==> reports.contains(r) && r.status
                != ReportStatus::Pending,
        forall|k: int|
            0 <= k < without_pending(reports).len() ==> (#[trigger] without_pending(
                reports,
            )[k]).status != ReportStatus::Pending,
    decreases reports.len(),
{
    let w = without_pending(reports);
    if reports.len() > 0 {
        let d = reports.drop_last();
        lemma_pending_purged(d);
        lemma_unpush_contains(reports);
        if !(reports.last().status == ReportStatus::Pending) {
            lemma_push_contains(without_pending(d), reports.last());
        }
    }
    assert forall|k: int| 0 <= k < w.len() implies (#[trigger] w[k]).status
        != ReportStatus::Pending by {
        assert(w.contains(w[k]));
    }
}

/// The pending purge keeps the report table strictly ascending by id.
pub proof fn lemma_without_pending_sorted(reports: Seq<ReportRowView>)
    requires
        forall|i: int, j: int| 0 <= i < j < reports.len() ==> reports[i].id < reports[j].id,
    ensures
        forall|i: int, j: int|
            0 <= i < j < without_pending(reports).len() ==> without_pending(reports)[i].id
                < without_pending(reports)[j].id,
    decreases reports.len(),
{
    let w = without_pending(reports);
    if reports.len() > 0 {
        let d = reports.drop_last();
        let wd = without_pending(d);
        assert forall|i: int, j: int| 0 <= i < j < d.len() implies d[i].id < d[j].id by {
            assert(d[i] == reports[i]);
            assert(d[j] == reports[j]);
        }
        lemma_without_pending_sorted(d);
        lemma_pending_purged(d);
        assert forall|i: int, j: int| 0 <= i < j < w.len() implies w[i].id < w[j].id by {
            if !(reports.last().status == ReportStatus::Pending) && j == w.len() - 1 {
                assert(w[j] == reports.last());
                assert(wd.contains(wd[i]));
                assert(d.contains(w[i]));
                let m = choose|m: int| 0 <= m < d.len() && d[m] == w[i];
                assert(reports[m] == w[i]);
                assert(reports[m].id < reports[reports.len() - 1].id);
            } else {
                assert(w[i] == wd[i]);
                assert(w[j] == wd[j]);
            }
        }
    }
}

/// The next id to assign is positive and past every id present.
pub proof fn lemma_next_id_bounds(reports: Seq<ReportRowView>)
    ensures
        next_id_of(reports) >= 1,
        forall|k: int|
            0 <= k < reports.len() ==> (#[trigger] reports[k]).id < next_id_of(reports),
    decreases reports.len(),
{
    if reports.len() > 0 {
        let d = reports.drop_last();
        lemma_next_id_bounds(d);
        assert forall|k: int| 0 <= k < reports.len() implies (#[trigger] reports[k]).id
            < next_id_of(reports) by {
            if k < reports.len() - 1 {
                assert(d[k] == reports[k]);
                assert(d[k].id < next_id_of(d));
            }
        }
    }
}

/// Garbage collection purges stale cache entries and nothing else: the
/// model rows that survive are exactly the rows that were present and
/// carry the current format version, so presence of a row afterwards
/// implies version validity.
pub proof fn lemma_stale_purged(models: Seq<ModelRowView>, version: int)
    ensures
        forall|m: ModelRowView| #[trigger]
            current_models(models, version).contains(m) <==> models.contains(m) && m.version
                == version,
        forall|k: int|
            0 <= k < current_models(models, version).len() ==> (#[trigger] current_models(
                models,
                version,
            )[k]).version == version,
    decreases models.len(),
{
    let c = current_models(models, version);
    if models.len() > 0 {
        let d = models.drop_last();
        let cd = current_models(d, version);
        lemma_stale_purged(d, version);
        lemma_unpush_contains(models);
        if models.last().version == version {
            lemma_push_contains(cd, models.last());
        }
        assert forall|m: ModelRowView| #[trigger] c.contains(m) implies models.contains(m)
            && m.version == version by {
            if models.last().version == version {
                assert(cd.contains(m) || m == models.last());
            } else {
                assert(cd.contains(m));
            }
        }
        assert forall|m: ModelRowView| models.contains(m) && m.version == version implies
        #[trigger] c.contains(m) by {
            assert(d.contains(m) || m == models.last());
            if d.contains(m) {
                assert(cd.contains(m));
            }
        }
    }
    assert forall|k: int| 0 <= k < c.len() implies (#[trigger] c[k]).version == version by {
        assert(c.contains(c[k]));
    }
}

/// Garbage collection keeps the content ids pairwise distinct.
pub proof fn lemma_gc_keeps_distinct_cids(models: Seq<ModelRowView>, version: int)
    requires
        distinct_cids(models),
    ensures
        distinct_cids(current_models(models, version)),
    decreases models.len(),
{
    let c = current_models(models, version);
    if models.len() > 0 {
        let d = models.drop_last();
        let cd = current_models(d, version);
        assert forall|i: int, j: int| 0 <= i < j < d.len() implies d[i].content_id
            != d[j].content_id by {
            assert(d[i] == models[i]);
            assert(d[j] == models[j]);
        }
        lemma_gc_keeps_distinct_cids(d, version);
        lemma_stale_purged(d, version);
        assert forall|i: int, j: int| 0 <= i < j < c.len() implies c[i].content_id
            != c[j].content_id by {
            if models.last().version == version && j == c.len() - 1 {
                assert(c[j] == models.last());
                assert(cd.contains(cd[i]));
                assert(d.contains(c[i]));
                let m = choose|m: int| 0 <= m < d.len() && d[m] == c[i];
                assert(models[m] == c[i]);
                assert(models[m].content_id != models[models.len() - 1].content_id);
            } else {
                assert(c[i] == cd[i]);
                assert(c[j] == cd[j]);
            }
        }
    }
}

/// The artifact-deletion list is exact: it names a content id once,
/// and it names exactly the content ids of the stale rows, so the
/// artifact store is asked once per removed row and never for a kept
/// one.
pub proof fn lemma_stale_ids_exact(models: Seq<ModelRowView>, version: int)
    requires
        distinct_cids(models),
    ensures
        stale_model_ids(models, version).no_duplicates(),
        forall|c: Seq<char>| #[trigger]
            stale_model_ids(models, version).contains(c) <==> exists|i: int|
                0 <= i < models.len() && (#[trigger] models[i]).content_id == c
                    && models[i].version != version,
    decreases models.len(),
{
    let s = stale_model_ids(models, version);
    if models.len() > 0 {
        let d = models.drop_last();
        let sd = stale_model_ids(d, version);
        assert forall|i: int, j: int| 0 <= i < j < d.len() implies d[i].content_id
            != d[j].content_id by {
            assert(d[i] == models[i]);
            assert(d[j] == models[j]);
        }
        lemma_stale_ids_exact(d, version);
        assert forall|c: Seq<char>| #[trigger] s.contains(c) implies exists|i: int|
            0 <= i < models.len() && (#[trigger] models[i]).content_id == c && models[i].version
                != version by {
            if models.last().version == version {
                assert(sd.contains(c));
                let m = choose|i: int|
                    0 <= i < d.len() && (#[trigger] d[i]).content_id == c && d[i].version
                        != version;
                assert(models[m].content_id == c && models[m].version != version);
            } else {
                lemma_push_contains(sd, models.last().content_id);
                if sd.contains(c) {
                    let m = choose|i: int|
                        0 <= i < d.len() && (#[trigger] d[i]).content_id == c && d[i].version
                            != version;
                    assert(models[m].content_id == c && models[m].version != version);
                } else {
                    assert(models[models.len() - 1].content_id == c);
                }
            }
        }
        assert forall|c: Seq<char>|
            exists|i: int|
                0 <= i < models.len() && (#[trigger] models[i]).content_id == c && models[i].version
                    != version implies #[trigger] s.contains(c) by {
            let m = choose|i: int|
                0 <= i < models.len() && (#[trigger] models[i]).content_id == c && models[i].version
                    != version;
            if m < models.len() - 1 {
                assert(d[m].content_id == c && d[m].version != version);
                assert(sd.contains(c));
                if !(models.last().version == version) {
                    lemma_push_contains(sd, models.last().content_id);
                }
            } else {
                assert(!(models.last().version == version));
                lemma_push_contains(sd, models.last().content_id);
            }
        }
        if !(models.last().version == version) {
            lemma_push_contains(sd, models.last().content_id);
            assert forall|i: int, j: int| 0 <= i < j < s.len() implies s[i] != s[j] by {
                if j == s.len() - 1 {
                    assert(s[j] == models.last().content_id);
                    assert(sd.contains(sd[i]));
                    let m = choose|i2: int|
                        0 <= i2 < d.len() && (#[trigger] d[i2]).content_id == sd[i]
                            && d[i2].version != version;
                    assert(models[m].content_id != models[models.len() - 1].content_id);
                } else {
                    assert(s[i] == sd[i]);
                    assert(s[j] == sd[j]);
                }
            }
        }
    }
}

/// What the point lookup finds is a row of the table carrying the
/// asked-for id, and it finds nothing only when no row carries it.
pub proof fn lemma_row_of_member(reports: Seq<ReportRowView>, id: int)
    ensures
        match row_of(reports, id) {
            Some(r) => reports.contains(r) && r.id == id,
            None => forall|k: int|
                0 <= k < reports.len() ==> (#[trigger] reports[k]).id != id,
        },
    decreases reports.len(),
{
    if reports.len() > 0 {
        if reports[0].id == id {
            assert(reports.contains(reports[0]));
        } else {
            let d = reports.drop_first();
            lemma_row_of_member(d, id);
            match row_of(d, id) {
                Some(r) => {
                    let j = choose|j: int| 0 <= j < d.len() && d[j] == r;
                    assert(reports[j + 1] == r);
                },
                None => {
                    assert forall|k: int| 0 <= k < reports.len() implies (
                    #[trigger] reports[k]).id != id by {
                        if k > 0 {
                            assert(d[k - 1] == reports[k]);
                        }
                    }
                },
            }
        }
    }
}

/// Appending a row under an id nobody carries makes the point lookup
/// find exactly that row.
proof fn lemma_row_of_append(reports: Seq<ReportRowView>, x: ReportRowView)
    requires
        forall|k: int| 0 <= k < reports.len() ==> (#[trigger] reports[k]).id != x.id,
    ensures
        row_of(reports.push(x), x.id) == Some(x),
    decreases reports.len(),
{
    let p = reports.push(x);
    if reports.len() == 0 {
        assert(p[0] == x);
    } else {
        assert(p[0] == reports[0]);
        assert(p.drop_first() =~= reports.drop_first().push(x));
        assert forall|k: int| 0 <= k < reports.drop_first().len() implies (
        #[trigger] reports.drop_first()[k]).id != x.id by {
            assert(reports[k + 1] == reports.drop_first()[k]);
        }
        lemma_row_of_append(reports.drop_first(), x);
    }
}

/// What the dedup lookup finds: nothing exactly when no row records
/// the pair, and otherwise the id and status of the latest row that
/// does — rows after it record other pairs.
pub proof fn lemma_lookup_pair_found(
    reports: Seq<ReportRowView>,
    target: Seq<char>,
    baseline: Seq<char>,
)
    ensures
        match lookup_pair(reports, target, baseline) {
            Some((id, st)) => exists|k: int|
                0 <= k < reports.len() && pair_matches(#[trigger] reports[k], target, baseline)
                    && reports[k].id == id && reports[k].status == st && (forall|j: int|
                    k < j < reports.len() ==> !pair_matches(reports[j], target, baseline)),
            None => forall|k: int|
                0 <= k < reports.len() ==> !pair_matches(#[trigger] reports[k], target, baseline),
        },
    decreases reports.len(),
{
    if reports.len() > 0 {
        let d = reports.drop_last();
        if pair_matches(reports.last(), target, baseline) {
            let k = reports.len() - 1;
            assert(pair_matches(reports[k], target, baseline) && reports[k].id
                == reports.last().id && reports[k].status == reports.last().status && (forall|
                j: int,
            |
                k < j < reports.len() ==> !pair_matches(reports[j], target, baseline)));
        } else {
            lemma_lookup_pair_found(d, target, baseline);
            match lookup_pair(d, target, baseline) {
                Some((id, st)) => {
                    let k = choose|k: int|
                        0 <= k < d.len() && pair_matches(#[trigger] d[k], target, baseline)
                            && d[k].id == id && d[k].status == st && (forall|j: int|
                            k < j < d.len() ==> !pair_matches(d[j], target, baseline));
                    assert(reports[k] == d[k]);
                    assert forall|j: int| k < j < reports.len() implies !pair_matches(
                        reports[j],
                        target,
                        baseline,
                    ) by {
                        if j < reports.len() - 1 {
                            assert(reports[j] == d[j]);
                        }
                    }
                    assert(pair_matches(reports[k], target, baseline) && reports[k].id == id
                        && reports[k].status == st && (forall|j: int|
                        k < j < reports.len() ==> !pair_matches(reports[j], target, baseline)));
                },
                None => {
                    assert forall|k: int| 0 <= k < reports.len() implies !pair_matches(
                        #[trigger] reports[k],
                        target,
                        baseline,
                    ) by {
                        if k < reports.len() - 1 {
                            assert(reports[k] == d[k]);
                        }
                    }
                },
            }
        }
    }
}

/// A report created by `initialize_report` is immediately observable
/// as `Pending`: on the state after the insertion, `get_report_status`
/// of the returned id answers `Pending`.
pub proof fn lemma_initialize_then_status(
    db: DbView,
    target: Seq<char>,
    baseline: Seq<char>,
    now: int,
)
    requires
        db.wf(),
    ensures
        status_of(
            db.reports.push(fresh_report_row(db.next_id, target, baseline, now)),
            db.next_id,
        ) == Some(ReportStatus::Pending),
{
    lemma_row_of_append(db.reports, fresh_report_row(db.next_id, target, baseline, now));
}

/// A report created by `initialize_report` is immediately found by the
/// dedup lookup: on the state after the insertion, `lookup_report` of
/// the same pair answers the returned id, as `Pending`.
pub proof fn lemma_initialize_then_lookup(
    db: DbView,
    target: Seq<char>,
    baseline: Seq<char>,
    now: int,
)
    requires
        db.wf(),
    ensures
        lookup_pair(
            db.reports.push(fresh_report_row(db.next_id, target, baseline, now)),
            target,
            baseline,
        ) == Some((db.next_id, ReportStatus::Pending)),
{
    let p = db.reports.push(fresh_report_row(db.next_id, target, baseline, now));
    assert(p.last() == fresh_report_row(db.next_id, target, baseline, now));
}

/// One `update_report` on a `Pending` report is fully observable: the
/// point lookup then answers the new status, and the table holds the
/// row with the new anomaly count, size and status, its identity and
/// creation fields untouched.
pub proof fn lemma_update_then_observed(
    reports: Seq<ReportRowView>,
    r: ReportRowView,
    count: int,
    status: ReportStatus,
    size: int,
    now: int,
)
    requires
        row_of(reports, r.id) == Some(r),
        r.status == ReportStatus::Pending,
    ensures
        row_of(applied_update(reports, r.id, count, status, size, now), r.id) == Some(
            updated_row(r, count, status, size, now),
        ),
        status_of(applied_update(reports, r.id, count, status, size, now), r.id) == Some(status),
        applied_update(reports, r.id, count, status, size, now).contains(
            updated_row(r, count, status, size, now),
        ),
    decreases reports.len(),
{
    let u = applied_update(reports, r.id, count, status, size, now);
    if reports[0].id == r.id {
        assert(reports[0] == r);
        assert(reports[0].status == ReportStatus::Pending);
        assert(u[0] == updated_row(r, count, status, size, now));
        assert(row_of(u, r.id) == Some(u[0]));
    } else {
        assert(u[0] == reports[0]);
        assert(u.drop_first() =~= applied_update(
            reports.drop_first(),
            r.id,
            count,
            status,
            size,
            now,
        ));
        lemma_update_then_observed(reports.drop_first(), r, count, status, size, now);
    }
    lemma_row_of_member(u, r.id);
}

/// A terminal report is immutable: when every row carrying the id has
/// already left `Pending`, `update_report` is a no-op on the table.
pub proof fn lemma_update_terminal_noop(
    reports: Seq<ReportRowView>,
    id: int,
    count: int,
    status: ReportStatus,
    size: int,
    now: int,
)
    requires
        forall|k: int|
            0 <= k < reports.len() && (#[trigger] reports[k]).id == id
                ==> reports[k].status.is_terminal(),
    ensures
        applied_update(reports, id, count, status, size, now) == reports,
{
    assert(applied_update(reports, id, count, status, size, now) =~= reports);
}

/// A freshly added model is immediately found: `lookup_model` of the
/// content id answers true on the state after `add_model`.
pub proof fn lemma_add_then_lookup(
    models: Seq<ModelRowView>,
    content_id: Seq<char>,
    version: int,
    size: int,
    now: int,
)
    ensures
        has_model(models.push(fresh_model_row(content_id, version, size, now)), content_id),
{
    let p = models.push(fresh_model_row(content_id, version, size, now));
    assert(p[models.len() as int].content_id == content_id);
}

/// Garbage collection decides `lookup_model` exactly: afterwards a
/// content id is found iff a row carried it at the current format
/// version before the pass. A model added by `add_model` is stamped
/// current, so it survives; a stale one is gone until re-added.
pub proof fn lemma_gc_then_lookup(models: Seq<ModelRowView>, version: int, content_id: Seq<char>)
    ensures
        has_model(current_models(models, version), content_id) <==> exists|i: int|
            0 <= i < models.len() && (#[trigger] models[i]).content_id == content_id
                && models[i].version == version,
{
    let c = current_models(models, version);
    lemma_stale_purged(models, version);
    if has_model(c, content_id) {
        let k = choose|k: int| 0 <= k < c.len() && c[k].content_id == content_id;
        assert(c.contains(c[k]));
        assert(models.contains(c[k]));
        let m = choose|m: int| 0 <= m < models.len() && models[m] == c[k];
        assert(models[m].content_id == content_id && models[m].version == version);
    }
    if exists|i: int|
        0 <= i < models.len() && (#[trigger] models[i]).content_id == content_id
            && models[i].version == version {
        let i = choose|i: int|
            0 <= i < models.len() && (#[trigger] models[i]).content_id == content_id
                && models[i].version == version;
        assert(models.contains(models[i]));
        assert(c.contains(models[i]));
        let k = choose|k: int| 0 <= k < c.len() && c[k] == models[i];
        assert(has_model(c, content_id));
    }
}

} // verus!
