use reposync::{fetch_target, open_all, str_eq, str_lt, FetchError, RepositoryHandle, Sources};

#[test]
fn fetch_needs_a_resolved_head_first() {
    assert_eq!(fetch_target(None, None), Err(FetchError::NoHead));
    assert_eq!(fetch_target(None, Some("origin".to_string())), Err(FetchError::NoHead));
}

#[test]
fn fetch_needs_a_tracked_remote_second() {
    assert_eq!(
        fetch_target(Some("refs/heads/main".to_string()), None),
        Err(FetchError::NoUpstream)
    );
}

#[test]
fn fetch_plan_pairs_remote_with_refspec() {
    let target = fetch_target(
        Some("refs/heads/main".to_string()),
        Some("origin".to_string()),
    )
    .unwrap();
    assert_eq!(target.0, "origin");
    assert_eq!(target.1, "refs/heads/main");
}

#[test]
fn unopenable_repositories_are_excluded_and_reported() {
    let mut s = Sources::new();
    s.add("missing/one", Some("one")).unwrap();
    s.add("missing/two", Some("two")).unwrap();
    let (handles, refused) = open_all(&s);
    // nothing on disk: every registered repository is excluded, each
    // reported exactly once under its own name
    assert_eq!(handles.len(), 0);
    let mut names: Vec<String> = refused.into_iter().map(|(name, _)| name).collect();
    names.sort();
    assert_eq!(names, vec!["one".to_string(), "two".to_string()]);
}

#[test]
fn opening_a_missing_path_fails() {
    let r = RepositoryHandle::open("dashboard".to_string(), "no/such/working/copy");
    assert!(r.is_err());
}

#[test]
fn a_registered_source_opens_by_its_own_path() {
    let mut s = Sources::new();
    s.add("no/such/working/copy", Some("phantom")).unwrap();
    let src = s.get("phantom").unwrap();
    let copy = src.duplicate();
    assert_eq!(copy.name, "phantom");
    assert_eq!(copy.path, "no/such/working/copy");
    // the path does not exist, so the backend must refuse it
    assert!(src.open().is_err());
}

#[test]
fn string_equality_is_by_characters() {
    assert!(str_eq("origin/main", "origin/main"));
    assert!(!str_eq("origin/main", "origin/m"));
    assert!(!str_eq("a", "b"));
    assert!(str_eq("", ""));
}

#[test]
fn name_order_is_lexicographic() {
    assert!(str_lt("alpha", "beta"));
    assert!(str_lt("alp", "alpha"));
    assert!(!str_lt("alpha", "alpha"));
    assert!(!str_lt("beta", "alpha"));
    assert!(str_lt("", "a"));
}
