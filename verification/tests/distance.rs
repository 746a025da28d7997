use reposync::Distance;

#[test]
fn same_when_no_side_is_ahead() {
    assert_eq!(Distance::of_counts(0, 0), Distance::Same);
}

#[test]
fn ahead_when_only_local_has_commits() {
    assert_eq!(Distance::of_counts(1, 0), Distance::Ahead);
    assert_eq!(Distance::of_counts(42, 0), Distance::Ahead);
}

#[test]
fn behind_when_only_upstream_has_commits() {
    assert_eq!(Distance::of_counts(0, 1), Distance::Behind);
    assert_eq!(Distance::of_counts(0, 9), Distance::Behind);
}

#[test]
fn both_when_the_branches_diverged() {
    assert_eq!(Distance::of_counts(1, 1), Distance::Both);
    assert_eq!(Distance::of_counts(3, 7), Distance::Both);
}

#[test]
fn counts_never_map_to_unavailable() {
    for a in 0..5usize {
        for b in 0..5usize {
            assert_ne!(Distance::of_counts(a, b), Distance::Unavailable);
        }
    }
}

#[test]
fn distance_symbols() {
    assert_eq!(Distance::Same.symbol(), "==");
    assert_eq!(Distance::Ahead.symbol(), ">>");
    assert_eq!(Distance::Behind.symbol(), "<<");
    assert_eq!(Distance::Both.symbol(), "<>");
    assert_eq!(Distance::Unavailable.symbol(), "");
}

#[test]
fn three_repo_distance_scenario() {
    // A: ahead=2 behind=0, B: ahead=0 behind=0, C: ahead=1 behind=3
    let a = Distance::of_counts(2, 0);
    let b = Distance::of_counts(0, 0);
    let c = Distance::of_counts(1, 3);
    assert_eq!(a, Distance::Ahead);
    assert_eq!(b, Distance::Same);
    assert_eq!(c, Distance::Both);
    assert_eq!(a.symbol(), ">>");
    assert_eq!(b.symbol(), "==");
    assert_eq!(c.symbol(), "<>");
}
