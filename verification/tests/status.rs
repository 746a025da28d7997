use reposync::{classify, flags_of_entries, CachedStatus, EntryFacets, StatusFlags};

fn entry() -> EntryFacets {
    EntryFacets {
        index_new: false,
        index_modified: false,
        index_deleted: false,
        index_renamed: false,
        index_typechange: false,
        wt_new: false,
        wt_modified: false,
        wt_deleted: false,
        wt_renamed: false,
        wt_typechange: false,
    }
}

fn staged_addition() -> EntryFacets {
    EntryFacets { index_new: true, ..entry() }
}

fn untracked_file() -> EntryFacets {
    EntryFacets { wt_new: true, ..entry() }
}

fn unstaged_edit() -> EntryFacets {
    EntryFacets { wt_modified: true, ..entry() }
}

#[test]
fn index_side_changes_are_staged() {
    assert_eq!(
        classify(&staged_addition()),
        StatusFlags { staged: true, unstaged: false, untracked: false }
    );
    assert_eq!(
        classify(&EntryFacets { index_renamed: true, ..entry() }),
        StatusFlags { staged: true, unstaged: false, untracked: false }
    );
}

#[test]
fn working_tree_changes_are_unstaged() {
    assert_eq!(
        classify(&unstaged_edit()),
        StatusFlags { staged: false, unstaged: true, untracked: false }
    );
    assert_eq!(
        classify(&EntryFacets { wt_typechange: true, ..entry() }),
        StatusFlags { staged: false, unstaged: true, untracked: false }
    );
}

#[test]
fn new_unindexed_files_are_untracked() {
    assert_eq!(
        classify(&untracked_file()),
        StatusFlags { staged: false, unstaged: false, untracked: true }
    );
}

#[test]
fn one_entry_can_contribute_two_facets() {
    let both = EntryFacets { index_modified: true, wt_modified: true, ..entry() };
    assert_eq!(classify(&both), StatusFlags { staged: true, unstaged: true, untracked: false });
}

#[test]
fn flags_are_a_union_over_entries() {
    let entries = vec![staged_addition(), untracked_file(), untracked_file()];
    assert_eq!(
        flags_of_entries(&entries),
        StatusFlags { staged: true, unstaged: false, untracked: true }
    );
}

#[test]
fn flags_ignore_order_and_multiplicity() {
    let one = vec![staged_addition(), unstaged_edit()];
    let other = vec![unstaged_edit(), staged_addition(), unstaged_edit()];
    assert_eq!(flags_of_entries(&one), flags_of_entries(&other));
}

#[test]
fn no_entries_mean_empty_flags() {
    let none: Vec<EntryFacets> = Vec::new();
    assert_eq!(
        flags_of_entries(&none),
        StatusFlags { staged: false, unstaged: false, untracked: false }
    );
}

#[test]
fn symbol_order_is_fixed() {
    let all = CachedStatus::Known(StatusFlags { staged: true, unstaged: true, untracked: true });
    assert_eq!(all.symbol(), "+*_");
    let unstaged_only = CachedStatus::Known(StatusFlags {
        staged: false,
        unstaged: true,
        untracked: false,
    });
    assert_eq!(unstaged_only.symbol(), "*");
    let staged_untracked = CachedStatus::Known(StatusFlags {
        staged: true,
        unstaged: false,
        untracked: true,
    });
    assert_eq!(staged_untracked.symbol(), "+_");
}

#[test]
fn unknown_status_renders_empty() {
    assert_eq!(CachedStatus::Unknown.symbol(), "");
    assert!(!CachedStatus::Unknown.has_staged_files());
    assert!(!CachedStatus::Unknown.has_unstaged_files());
    assert!(!CachedStatus::Unknown.has_untracked_files());
}

#[test]
fn known_empty_is_distinct_from_unknown() {
    let known_clean = CachedStatus::Known(StatusFlags {
        staged: false,
        unstaged: false,
        untracked: false,
    });
    assert_ne!(known_clean, CachedStatus::Unknown);
    assert_eq!(known_clean.symbol(), "");
}

#[test]
fn staged_addition_and_untracked_scenario() {
    // one staged addition and two untracked files, no unstaged changes
    let entries = vec![staged_addition(), untracked_file(), untracked_file()];
    let flags = flags_of_entries(&entries);
    let status = CachedStatus::Known(flags);
    assert!(status.has_staged_files());
    assert!(!status.has_unstaged_files());
    assert!(status.has_untracked_files());
    assert_eq!(status.symbol(), "+_");
}
