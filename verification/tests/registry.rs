use reposync::{Command, Config, RegistryError, Sources};

#[test]
fn add_derives_the_name_from_the_last_segment() {
    let mut s = Sources::new();
    s.add("/home/dev/projects/widget", None).unwrap();
    let found = s.get("widget").expect("the repository must be registered");
    assert_eq!(found.name, "widget");
    assert_eq!(found.path, "/home/dev/projects/widget");
}

#[test]
fn add_ignores_trailing_separators() {
    let mut s = Sources::new();
    s.add("/srv/repos/gadget///", None).unwrap();
    assert!(s.get("gadget").is_some());
}

#[test]
fn add_accepts_an_explicit_name() {
    let mut s = Sources::new();
    s.add("/srv/repos/gadget", Some("tools")).unwrap();
    assert!(s.get("tools").is_some());
    assert!(s.get("gadget").is_none());
}

#[test]
fn add_refuses_a_path_with_no_segment() {
    let mut s = Sources::new();
    assert_eq!(s.add("", None), Err(RegistryError::PathTooShort));
    assert_eq!(s.add("/", None), Err(RegistryError::PathTooShort));
    assert_eq!(s.add("///", None), Err(RegistryError::PathTooShort));
}

#[test]
fn add_refuses_a_taken_name() {
    let mut s = Sources::new();
    s.add("/a/widget", None).unwrap();
    assert_eq!(s.add("/b/widget", None), Err(RegistryError::AlreadyExists));
    // the earlier registration is untouched
    assert_eq!(s.get("widget").unwrap().path, "/a/widget");
}

#[test]
fn remove_returns_the_path() {
    let mut s = Sources::new();
    s.add("/a/one", None).unwrap();
    s.add("/a/two", None).unwrap();
    assert_eq!(s.remove("one").unwrap(), "/a/one");
    assert!(s.get("one").is_none());
    assert!(s.get("two").is_some());
}

#[test]
fn remove_refuses_an_unknown_name() {
    let mut s = Sources::new();
    assert_eq!(s.remove("ghost"), Err(RegistryError::NoSuchName));
}

#[test]
fn rename_moves_the_path_to_the_new_name() {
    let mut s = Sources::new();
    s.add("/a/one", None).unwrap();
    s.rename("one", "uno").unwrap();
    assert!(s.get("one").is_none());
    assert_eq!(s.get("uno").unwrap().path, "/a/one");
}

#[test]
fn rename_refuses_a_taken_new_name_first() {
    let mut s = Sources::new();
    s.add("/a/one", None).unwrap();
    s.add("/a/two", None).unwrap();
    assert_eq!(s.rename("one", "two"), Err(RegistryError::AlreadyExists));
    // a name colliding with itself is refused the same way
    assert_eq!(s.rename("one", "one"), Err(RegistryError::AlreadyExists));
    // and the taken-name check wins even when the old name is absent
    assert_eq!(s.rename("ghost", "two"), Err(RegistryError::AlreadyExists));
}

#[test]
fn rename_refuses_an_unknown_name() {
    let mut s = Sources::new();
    assert_eq!(s.rename("ghost", "fresh"), Err(RegistryError::NoSuchName));
}

#[test]
fn iter_walks_the_registered_pairs() {
    let mut s = Sources::new();
    s.add("/a/one", None).unwrap();
    s.add("/a/two", None).unwrap();
    let names: Vec<String> = s.iter().iter().map(|src| src.name.clone()).collect();
    assert_eq!(names, vec!["one".to_string(), "two".to_string()]);
    assert_eq!(s.len(), 2);
}

#[test]
fn config_add_remove_rename() {
    let mut c = Config::from_parts("cfg.toml".to_string(), Sources::new());
    c.add_repository("/work/alpha").unwrap();
    c.add_repository("/work/beta").unwrap();
    assert_eq!(c.add_repository("/elsewhere/alpha"), Err(RegistryError::AlreadyExists));
    assert!(c.remove_repository_by_name("beta"));
    assert!(!c.remove_repository_by_name("beta"));
    c.rename_repository("alpha", "gamma").unwrap();
    assert_eq!(c.rename_repository("alpha", "delta"), Err(RegistryError::NoSuchName));
    assert!(c.repositories().get("gamma").is_some());
    assert_eq!(c.path().as_str(), "cfg.toml");
}

#[test]
fn config_rename_checks_the_old_name_first() {
    let mut c = Config::from_parts("cfg.toml".to_string(), Sources::new());
    c.add_repository("/work/alpha").unwrap();
    // unlike the bare registry, the missing old name wins here
    assert_eq!(c.rename_repository("ghost", "alpha"), Err(RegistryError::NoSuchName));
}

#[test]
fn apply_add_registers_every_path() {
    let mut c = Config::from_parts("cfg.toml".to_string(), Sources::new());
    let cmd = Command::Add { paths: vec!["/w/a".to_string(), "/w/b".to_string()] };
    let eff = c.apply_command(&cmd).unwrap();
    assert!(eff.modified);
    assert!(eff.print_path.is_none());
    assert!(c.repositories().get("a").is_some());
    assert!(c.repositories().get("b").is_some());
}

#[test]
fn apply_add_stops_at_the_first_refusal() {
    let mut c = Config::from_parts("cfg.toml".to_string(), Sources::new());
    c.add_repository("/w/b").unwrap();
    let cmd = Command::Add {
        paths: vec!["/w/a".to_string(), "/other/b".to_string(), "/w/c".to_string()],
    };
    assert_eq!(c.apply_command(&cmd), Err(RegistryError::AlreadyExists));
    // the registrations before the refusal stand; the one after does not
    assert!(c.repositories().get("a").is_some());
    assert!(c.repositories().get("c").is_none());
}

#[test]
fn apply_remove_drops_what_exists_and_reports_whether_anything_changed() {
    let mut c = Config::from_parts("cfg.toml".to_string(), Sources::new());
    c.add_repository("/w/a").unwrap();
    let cmd = Command::Remove { names: vec!["ghost".to_string(), "a".to_string()] };
    let eff = c.apply_command(&cmd).unwrap();
    assert!(eff.modified);
    assert!(c.repositories().get("a").is_none());
    let cmd2 = Command::Remove { names: vec!["ghost".to_string()] };
    let eff2 = c.apply_command(&cmd2).unwrap();
    assert!(!eff2.modified);
}

#[test]
fn apply_rename_and_path() {
    let mut c = Config::from_parts("cfg.toml".to_string(), Sources::new());
    c.add_repository("/w/a").unwrap();
    let eff = c.apply_command(&Command::Rename {
        name: "a".to_string(),
        new_name: "z".to_string(),
    })
    .unwrap();
    assert!(eff.modified);
    let eff2 = c.apply_command(&Command::Path { name: "z".to_string() }).unwrap();
    assert!(!eff2.modified);
    assert_eq!(eff2.print_path.as_deref(), Some("/w/a"));
    assert_eq!(
        c.apply_command(&Command::Path { name: "missing".to_string() }),
        Err(RegistryError::NoSuchName)
    );
}
