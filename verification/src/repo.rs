use vstd::prelude::*;

use crate::distance::{spec_distance, Distance};
use crate::status::{flags_of_entries, EntryFacets, CachedStatus, StatusFlags};

verus! {

/// The on-disk repository handle of the version-control backend. Opaque
/// here: everything read out of it comes through the trusted queries
/// below.
#[verifier::external_type_specification]
#[verifier::external_body]
pub struct ExGitRepository(git2::Repository);

/// The backend's object identifier (a commit id here). Opaque: it is
/// only carried from one backend query to another.
#[verifier::external_type_specification]
#[verifier::external_body]
pub struct ExGitOid(git2::Oid);

/// The backend's per-entry status bit set, read off facet by facet.
#[verifier::external_type_specification]
#[verifier::external_body]
pub struct ExGitStatus(git2::Status);

/// The path did not name a repository root.
#[derive(Clone, Debug, PartialEq, Eq)]
pub struct OpenError {
    pub message: String,
}

/// Why a fetch did not complete. Best-effort callers record it and go on.
#[derive(Clone, Debug, PartialEq, Eq)]
pub enum FetchError {
    /// No resolvable head reference to fetch for.
    NoHead,
    /// The current branch tracks no upstream remote.
    NoUpstream,
    /// The remote could not be found or the transfer failed.
    Transfer { message: String },
}

/// The backend could not enumerate changes or walk the commit graph.
#[derive(Clone, Debug, PartialEq, Eq)]
pub struct StatusError {
    pub message: String,
}

/// Relies on git2::Repository::open: yields a handle when `path` is a
/// repository root and an error otherwise.
#[verifier::external_body]
fn git_open(path: &str) -> (r: Result<git2::Repository, OpenError>)
{
    match git2::Repository::open(path) {
        Ok(repo) => Ok(repo),
        Err(e) => Err(OpenError { message: e.message().to_string() }),
    }
}

/// Relies on git2::Repository::head and git2::Reference::name: the full
/// name of the reference HEAD points at, when both resolve.
#[verifier::external_body]
fn git_head_ref_name(repo: &git2::Repository) -> (r: Option<String>)
{
    let head = match repo.head() {
        Ok(h) => h,
        Err(_) => return None,
    };
    match head.name() {
        Ok(n) => Some(n.to_string()),
        Err(_) => None,
    }
}

/// Relies on git2::Repository::head, git2::Branch::wrap and
/// git2::Branch::name: the short name of the checked-out branch.
#[verifier::external_body]
fn git_head_branch_name(repo: &git2::Repository) -> (r: Option<String>)
{
    let head = match repo.head() {
        Ok(h) => h,
        Err(_) => return None,
    };
    match git2::Branch::wrap(head).name() {
        Ok(Some(n)) => Some(n.to_string()),
        _ => None,
    }
}

/// Relies on git2::Repository::head, git2::Branch::wrap,
/// git2::Branch::upstream and git2::Branch::name: the short
/// name of the upstream-tracking branch of the checked-out branch.
#[verifier::external_body]
fn git_upstream_branch_name(repo: &git2::Repository) -> (r: Option<String>)
{
    let head = match repo.head() {
        Ok(h) => h,
        Err(_) => return None,
    };
    let upstream = match git2::Branch::wrap(head).upstream() {
        Ok(u) => u,
        Err(_) => return None,
    };
    match upstream.name() {
        Ok(Some(n)) => Some(n.to_string()),
        _ => None,
    }
}

/// Relies on git2::Repository::head and git2::Reference::target: the
/// commit id the head points at, when it is a direct reference.
#[verifier::external_body]
fn git_head_target(repo: &git2::Repository) -> (r: Option<git2::Oid>)
{
    match repo.head() {
        Ok(h) => h.target(),
        Err(_) => None,
    }
}

/// Relies on git2::Repository::head, git2::Branch::wrap,
/// git2::Branch::upstream, git2::Branch::into_reference and
/// git2::Reference::target: the commit id of the upstream-tracking tip.
#[verifier::external_body]
fn git_upstream_target(repo: &git2::Repository) -> (r: Option<git2::Oid>)
{
    let head = match repo.head() {
        Ok(h) => h,
        Err(_) => return None,
    };
    let upstream = match git2::Branch::wrap(head).upstream() {
        Ok(u) => u,
        Err(_) => return None,
    };
    upstream.into_reference().target()
}

/// Relies on git2::Repository::graph_ahead_behind: the counts of commits
/// reachable from only the local tip and from only the upstream tip.
#[verifier::external_body]
fn git_graph_ahead_behind(repo: &git2::Repository, local: git2::Oid, upstream: git2::Oid) -> (r:
    Result<(usize, usize), StatusError>)
{
    match repo.graph_ahead_behind(local, upstream) {
        Ok(counts) => Ok(counts),
        Err(e) => Err(StatusError { message: e.message().to_string() }),
    }
}

/// Relies on git2::Repository::head, git2::Reference::target,
/// git2::Repository::find_commit and git2::Commit::summary: the summary
/// line of the HEAD commit's message.
#[verifier::external_body]
fn git_head_commit_summary(repo: &git2::Repository) -> (r: Option<String>)
{
    let oid = match repo.head() {
        Ok(h) => h.target(),
        Err(_) => None,
    }?;
    let commit = repo.find_commit(oid).ok()?;
    match commit.summary() {
        Ok(Some(s)) => Some(s.to_string()),
        _ => None,
    }
}

/// Relies on git2::Repository::branch_upstream_remote: the name of the
/// remote that the given local branch reference tracks.
#[verifier::external_body]
fn git_upstream_remote_name(repo: &git2::Repository, local_ref: &str) -> (r: Option<String>)
{
    let buf = repo.branch_upstream_remote(local_ref).ok()?;
    match buf.as_str() {
        Ok(s) => Some(s.to_string()),
        Err(_) => None,
    }
}

/// Relies on git2::Repository::find_remote, git2::Remote::fetch and
/// git2::Cred::ssh_key: fetches the one ref from the named remote,
/// offering the private key at `key_path` when the transport asks for
/// credentials. Every failure of either backend call comes back as a
/// transfer error.
#[verifier::external_body]
fn git_fetch_ref(repo: &git2::Repository, remote_name: &str, refspec: &str, key_path: &str) -> (r:
    Result<(), FetchError>)
    ensures
        r matches Err(e) ==> e matches FetchError::Transfer { .. },
{
    let mut remote = match repo.find_remote(remote_name) {
        Ok(re) => re,
        Err(e) => return Err(FetchError::Transfer { message: e.message().to_string() }),
    };
    let key = std::path::PathBuf::from(key_path);
    let mut callbacks = git2::RemoteCallbacks::new();
    callbacks.credentials(move |_, _, _| git2::Cred::ssh_key("git", None, key.as_path(), None));
    let mut options = git2::FetchOptions::new();
    options.remote_callbacks(callbacks);
    match remote.fetch(&[refspec], Some(&mut options), None) {
        Ok(()) => Ok(()),
        Err(e) => Err(FetchError::Transfer { message: e.message().to_string() }),
    }
}

/// Relies on git2::Status::contains: each facet bit of one change entry,
/// moved into a plain record.
#[verifier::external_body]
fn facets_of(s: git2::Status) -> (r: EntryFacets)
{
    EntryFacets {
        index_new: s.contains(git2::Status::INDEX_NEW),
        index_modified: s.contains(git2::Status::INDEX_MODIFIED),
        index_deleted: s.contains(git2::Status::INDEX_DELETED),
        index_renamed: s.contains(git2::Status::INDEX_RENAMED),
        index_typechange: s.contains(git2::Status::INDEX_TYPECHANGE),
        wt_new: s.contains(git2::Status::WT_NEW),
        wt_modified: s.contains(git2::Status::WT_MODIFIED),
        wt_deleted: s.contains(git2::Status::WT_DELETED),
        wt_renamed: s.contains(git2::Status::WT_RENAMED),
        wt_typechange: s.contains(git2::Status::WT_TYPECHANGE),
    }
}

/// Relies on git2::Repository::statuses, git2::StatusOptions and
/// git2::StatusEntry::status: one facet record per working-tree/index
/// change entry, with untracked files included and ignored files
/// excluded.
#[verifier::external_body]
fn git_status_entries(repo: &git2::Repository) -> (r: Result<Vec<EntryFacets>, StatusError>)
{
    let mut opts = git2::StatusOptions::new();
    opts.show(git2::StatusShow::IndexAndWorkdir).include_untracked(true).include_ignored(false);
    let statuses = match repo.statuses(Some(&mut opts)) {
        Ok(s) => s,
        Err(e) => return Err(StatusError { message: e.message().to_string() }),
    };
    Ok(statuses.iter().map(|e| facets_of(e.status())).collect())
}

/// Which resolution states can produce a given fetch outcome: an
/// unresolvable head alone yields `NoHead`; a resolved head without a
/// tracked remote alone yields `NoUpstream`; a transfer is attempted,
/// and can succeed or fail, only with both resolutions in hand.
pub open spec fn spec_fetch_outcome(
    head_ref: Option<Seq<char>>,
    upstream_remote: Option<Seq<char>>,
    r: Result<(), FetchError>,
) -> bool {
    match r {
        Ok(_) => head_ref is Some && upstream_remote is Some,
        Err(e) => match e {
            FetchError::NoHead => head_ref is None,
            FetchError::NoUpstream => head_ref is Some && upstream_remote is None,
            FetchError::Transfer { .. } => head_ref is Some && upstream_remote is Some,
        },
    }
}

/// The fetch decision: given how the head reference and its tracked
/// remote resolved, either the `(remote, refspec)` pair to fetch or the
/// reason no fetch can be attempted. A missing head is reported before
/// a missing upstream.
pub fn fetch_target(local: Option<String>, remote: Option<String>) -> (r: Result<
    (String, String),
    FetchError,
>)
    ensures
        match r {
            Ok(target) => (local matches Some(l) && target.1@ == l@) && (remote matches Some(m)
                && target.0@ == m@),
            Err(e) => match e {
                FetchError::NoHead => local is None,
                FetchError::NoUpstream => local is Some && remote is None,
                FetchError::Transfer { .. } => false,
            },
        },
{
    match local {
        None => Err(FetchError::NoHead),
        Some(l) => match remote {
            None => Err(FetchError::NoUpstream),
            Some(m) => Ok((m, l)),
        },
    }
}

/// One local working copy under watch: its unique name, the backend
/// handle, and the lazily computed status cache.
///
/// The cache moves from never-computed to computed at most once and is
/// never recomputed; one computation is made, and what it yielded —
/// flags or a failure — is memoized for the handle's life.
pub struct RepositoryHandle {
    name: String,
    inner: git2::Repository,
    cached_status: Option<StatusFlags>,
    cached_failure: Option<StatusError>,
    status_computed: bool,
}

impl RepositoryHandle {
    pub closed spec fn spec_name(&self) -> Seq<char> {
        self.name@
    }

    pub closed spec fn spec_cached(&self) -> Option<StatusFlags> {
        self.cached_status
    }

    pub closed spec fn spec_failure(&self) -> Option<StatusError> {
        self.cached_failure
    }

    pub closed spec fn spec_computed(&self) -> bool {
        self.status_computed
    }

    /// The cache is computed exactly when it holds what the one
    /// computation yielded: flags on success or a failure, never both.
    pub open spec fn wf(&self) -> bool {
        &&& self.spec_computed() <==> (self.spec_cached() is Some || self.spec_failure() is Some)
        &&& !(self.spec_cached() is Some && self.spec_failure() is Some)
    }

    /// Open the repository named `name` whose working copy is at `path`.
    /// Side-effect-free; fails exactly when the backend cannot open the
    /// path as a repository root.
    pub fn open(name: String, path: &str) -> (r: Result<RepositoryHandle, OpenError>)
        ensures
            r matches Ok(repo) ==> repo.spec_name() == name@ && !repo.spec_computed()
                && repo.spec_cached() is None && repo.wf(),
    {
        match git_open(path) {
            Ok(inner) => Ok(
                RepositoryHandle {
                    name,
                    inner,
                    cached_status: None,
                    cached_failure: None,
                    status_computed: false,
                },
            ),
            Err(e) => Err(e),
        }
    }

    pub fn name(&self) -> (n: &String)
        ensures
            n@ == self.spec_name(),
    {
        &self.name
    }

    /// Fetch the current branch's ref from its tracked remote, offering
    /// the SSH key at `key_path`. Best-effort: every outcome leaves the
    /// repository usable, and callers treat an error as non-fatal. The
    /// outcome is consistent with how head and upstream resolved: the
    /// error classification itself is `fetch_target`'s contract; here a
    /// transfer is attempted, and can succeed or fail, only once both
    /// resolutions are in hand.
    pub fn fetch(&self, key_path: &str) -> (r: Result<(), FetchError>)
        ensures
            exists|head_ref: Option<Seq<char>>, upstream_remote: Option<Seq<char>>|
                #[trigger] spec_fetch_outcome(head_ref, upstream_remote, r),
    {
        let local = git_head_ref_name(&self.inner);
        let remote = match &local {
            Some(l) => git_upstream_remote_name(&self.inner, l.as_str()),
            None => None,
        };
        let ghost head_ref: Option<Seq<char>> = match &local {
            Some(l) => Some(l@),
            None => None,
        };
        let ghost upstream_remote: Option<Seq<char>> = match &remote {
            Some(m) => Some(m@),
            None => None,
        };
        let r = match fetch_target(local, remote) {
            Ok(target) => git_fetch_ref(
                &self.inner,
                target.0.as_str(),
                target.1.as_str(),
                key_path,
            ),
            Err(e) => Err(e),
        };
        proof {
            assert(spec_fetch_outcome(head_ref, upstream_remote, r));
        }
        r
    }

    /// Compute and memoize the working copy's status flags. A repeated
    /// call is a memo hit: it recomputes nothing and repeats the first
    /// call's verdict, so `Ok` means the cache holds flags, on every
    /// call. The flags cached on success are exactly the classification
    /// that `flags_of_entries` gives the backend's change entries.
    pub fn compute_status(&mut self) -> (r: Result<(), StatusError>)
        requires
            old(self).wf(),
        ensures
            final(self).wf(),
            final(self).spec_name() == old(self).spec_name(),
            final(self).spec_computed(),
            r is Ok <==> final(self).spec_cached() is Some,
            old(self).spec_computed() ==> final(self).spec_cached() == old(self).spec_cached()
                && final(self).spec_failure() == old(self).spec_failure(),
            old(self).spec_cached() is Some ==> final(self).spec_cached()
                == old(self).spec_cached(),
    {
        if self.status_computed {
            return match &self.cached_failure {
                Some(e) => Err(e.clone()),
                None => Ok(()),
            };
        }
        match git_status_entries(&self.inner) {
            Ok(entries) => {
                let f = flags_of_entries(&entries);
                self.cached_status = Some(f);
                self.status_computed = true;
                Ok(())
            },
            Err(e) => {
                self.cached_failure = Some(e.clone());
                self.status_computed = true;
                Err(e)
            },
        }
    }

    /// The memoized status: `Unknown` until a computation succeeded.
    pub fn status(&self) -> (s: CachedStatus)
        ensures
            s == match self.spec_cached() {
                Some(f) => CachedStatus::Known(f),
                None => CachedStatus::Unknown,
            },
    {
        match &self.cached_status {
            Some(f) => CachedStatus::Known(*f),
            None => CachedStatus::Unknown,
        }
    }

    /// The short name of the checked-out branch; absent when HEAD is
    /// detached or unresolvable. Relies on the queries it is built from.
    pub fn branch_name(&self) -> (r: Option<String>) {
        git_head_branch_name(&self.inner)
    }

    /// The short name of the upstream-tracking branch; absent when none
    /// is configured.
    pub fn remote_name(&self) -> (r: Option<String>) {
        git_upstream_branch_name(&self.inner)
    }

    /// The summary line of the HEAD commit's message; absent when HEAD
    /// is unresolvable.
    pub fn commit_summary(&self) -> (r: Option<String>) {
        git_head_commit_summary(&self.inner)
    }

    /// Classify the local tip against its upstream tip. A missing tip on
    /// either side is the legitimate `Unavailable` state; only a graph
    /// traversal fault is an error. Which case holds is the repository's
    /// to decide; the decision itself is `resolve_distance`'s contract,
    /// and any other answer is the classification of a pair of counts.
    pub fn distance(&self) -> (r: Result<Distance, StatusError>)
        ensures
            r matches Ok(d) ==> (d is Unavailable || exists|ahead: nat, behind: nat|
                d == #[trigger] spec_distance(ahead, behind)),
    {
        let head = git_head_target(&self.inner);
        let upstream = git_upstream_target(&self.inner);
        resolve_distance(&self.inner, head, upstream)
    }
}

/// The distance decision on resolved tips: `Unavailable` exactly when a
/// tip is missing, and otherwise the total classification of whatever
/// ahead/behind counts the backend reports.
pub fn resolve_distance(
    repo: &git2::Repository,
    head: Option<git2::Oid>,
    upstream: Option<git2::Oid>,
) -> (r: Result<Distance, StatusError>)
    ensures
        (head is None || upstream is None) <==> r == Ok::<Distance, StatusError>(
            Distance::Unavailable,
        ),
        r matches Ok(d) ==> (d is Unavailable || exists|ahead: nat, behind: nat|
            d == #[trigger] spec_distance(ahead, behind)),
{
    match (head, upstream) {
        (Some(h), Some(u)) => match git_graph_ahead_behind(repo, h, u) {
            Ok(counts) => {
                let d = Distance::of_counts(counts.0, counts.1);
                proof {
                    assert(d == spec_distance(counts.0 as nat, counts.1 as nat));
                }
                Ok(d)
            },
            Err(e) => Err(e),
        },
        _ => Ok(Distance::Unavailable),
    }
}

} // verus!
