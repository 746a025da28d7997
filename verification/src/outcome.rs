use vstd::prelude::*;

use crate::distance::Distance;
use crate::repo::RepositoryHandle;
use crate::status::{spec_flags_symbol, CachedStatus, StatusFlags};
use crate::text::{spec_truncated, truncate_summary};

verus! {

/// The result of processing one repository: exactly one per dispatched
/// job, even when everything about the job failed.
#[derive(Clone, Debug, PartialEq, Eq)]
pub struct Outcome {
    /// The repository's unique name: the dispatch and sort key.
    pub name: String,
    /// The computed status flags; absent when the computation failed.
    pub status: Option<StatusFlags>,
    /// The head-versus-upstream classification; absent when the
    /// computation failed.
    pub distance: Option<Distance>,
    /// The checked-out branch's short name, when resolvable.
    pub branch_name: Option<String>,
    /// The upstream-tracking branch's short name, when configured.
    pub remote_name: Option<String>,
    /// The summary line of the head commit, untruncated.
    pub commit_summary: Option<String>,
    /// Whether the optional fetch was attempted and did not complete.
    pub fetch_failed: bool,
    /// Whether the job was abandoned at a deadline before it finished:
    /// the timeout reason for a failed row.
    pub abandoned: bool,
    /// Whether this repository's status or distance computation failed.
    pub failed: bool,
}

/// The outcome of a job abandoned at a deadline: failed, with every
/// field absent, under the repository's own name. Completed jobs'
/// outcomes are untouched by an abandonment; this is only the one row
/// the abandoned job itself gets.
pub fn abandoned_outcome(name: String) -> (o: Outcome)
    ensures
        o.name@ == name@,
        o.abandoned,
        o.failed,
        !o.fetch_failed,
        o.status is None,
        o.distance is None,
        o.branch_name is None,
        o.remote_name is None,
        o.commit_summary is None,
{
    Outcome {
        name,
        status: None,
        distance: None,
        branch_name: None,
        remote_name: None,
        commit_summary: None,
        fetch_failed: false,
        abandoned: true,
        failed: true,
    }
}

/// Run one job on its exclusively owned handle: optionally fetch,
/// recording but never propagating a fetch failure; compute the
/// memoized status; classify the distance; read the presentation
/// queries. Exactly one outcome comes back, whatever the backend did,
/// and it carries the repository's own name.
pub fn process_one(repo: RepositoryHandle, do_fetch: bool, key_path: &str) -> (o: Outcome)
    requires
        repo.wf(),
    ensures
        o.name@ == repo.spec_name(),
        !do_fetch ==> !o.fetch_failed,
        !o.abandoned,
        o.failed == (o.status is None || o.distance is None),
{
    let mut repo = repo;
    let mut fetch_failed: bool = false;
    if do_fetch {
        match repo.fetch(key_path) {
            Ok(()) => {},
            Err(_) => {
                fetch_failed = true;
            },
        }
    }
    let _ = repo.compute_status();
    let status = match repo.status() {
        CachedStatus::Known(f) => Some(f),
        CachedStatus::Unknown => None,
    };
    let distance = match repo.distance() {
        Ok(d) => Some(d),
        Err(_) => None,
    };
    let branch_name = repo.branch_name();
    let remote_name = repo.remote_name();
    let commit_summary = repo.commit_summary();
    let name = repo.name().clone();
    let failed = status.is_none() || distance.is_none();
    Outcome {
        name,
        status,
        distance,
        branch_name,
        remote_name,
        commit_summary,
        fetch_failed,
        abandoned: false,
        failed,
    }
}

/// One rendered report row, ready for a table: plain strings only.
#[derive(Clone, Debug, PartialEq, Eq)]
pub struct Row {
    pub name: String,
    pub status_symbol: String,
    pub branch_name: String,
    pub distance_symbol: String,
    pub remote_name: String,
    pub summary: String,
}

/// Render one outcome into its row: the status symbol in the fixed
/// facet order, the distance symbol, and the capped summary. Absent
/// fields render empty.
pub fn render_row(o: &Outcome) -> (r: Row)
    ensures
        r.name@ == o.name@,
        r.status_symbol@ == match o.status {
            Some(f) => spec_flags_symbol(f),
            None => Seq::<char>::empty(),
        },
        r.branch_name@ == match o.branch_name {
            Some(b) => b@,
            None => Seq::<char>::empty(),
        },
        r.distance_symbol@ == match o.distance {
            Some(d) => d.spec_symbol(),
            None => Seq::<char>::empty(),
        },
        r.remote_name@ == match o.remote_name {
            Some(m) => m@,
            None => Seq::<char>::empty(),
        },
        r.summary@ == match o.commit_summary {
            Some(s) => spec_truncated(s@),
            None => Seq::<char>::empty(),
        },
{
    let status = match &o.status {
        Some(f) => CachedStatus::Known(*f),
        None => CachedStatus::Unknown,
    };
    let distance_symbol = match &o.distance {
        Some(d) => d.symbol(),
        None => String::new(),
    };
    let branch_name = match &o.branch_name {
        Some(b) => b.clone(),
        None => String::new(),
    };
    let remote_name = match &o.remote_name {
        Some(m) => m.clone(),
        None => String::new(),
    };
    let summary = match &o.commit_summary {
        Some(s) => truncate_summary(s.as_str()),
        None => String::new(),
    };
    Row {
        name: o.name.clone(),
        status_symbol: status.symbol(),
        branch_name,
        distance_symbol,
        remote_name,
        summary,
    }
}

} // verus!
