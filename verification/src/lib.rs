//! A dashboard core that reports how many local working copies relate to
//! their upstream remotes: each repository is opened, optionally fetched,
//! classified (status facets and ahead/behind distance), and the
//! independent, possibly failing per-repository results are combined into
//! one deterministically name-ordered report.

use vstd::prelude::*;

mod aggregate;
mod config;
mod dispatch;
mod distance;
mod outcome;
mod repo;
mod sources;
mod status;
mod text;

pub use aggregate::{collect, lemma_failure_isolated, lemma_report_independent_of_arrival};
pub use config::{Command, CommandEffect, Config};
pub use dispatch::{lemma_dispatch_names_distinct, open_all};
pub use distance::{lemma_distance_partitions_counts, Distance};
pub use outcome::{abandoned_outcome, process_one, render_row, Outcome, Row};
pub use repo::{
    fetch_target, resolve_distance, FetchError, OpenError, RepositoryHandle, StatusError,
};
pub use sources::{RegistryError, Source, Sources};
pub use status::{
    classify, flags_of_entries, lemma_flags_are_a_set_union, lemma_flags_concat_union,
    CachedStatus, EntryFacets, StatusFlags,
};
pub use text::{
    lemma_summary_truncation, str_eq, str_lt, truncate_summary, SUMMARY_LIMIT,
};

verus! {

} // verus!
