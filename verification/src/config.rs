use vstd::prelude::*;

use crate::sources::{derived_name, names_unique, RegistryError, Sources};

verus! {

/// The persistent configuration: where it lives on disk, and the
/// registry of repositories it holds. Reading and writing the file
/// itself is the caller's affair; this type owns only the rules.
pub struct Config {
    path: String,
    repositories: Sources,
}

impl Config {
    /// The configuration file's location, as given at construction.
    pub closed spec fn spec_path(&self) -> Seq<char> {
        self.path@
    }

    /// The registered `(name, path)` pairs, in insertion order.
    pub closed spec fn repos(&self) -> Seq<(Seq<char>, Seq<char>)> {
        self.repositories@
    }

    pub open spec fn wf(&self) -> bool {
        names_unique(self.repos())
    }

    pub open spec fn has_repo(&self, name: Seq<char>) -> bool {
        exists|i: int| 0 <= i < self.repos().len() && (#[trigger] self.repos()[i]).0 == name
    }

    /// Assemble a configuration from a file location and a registry.
    pub fn from_parts(path: String, repositories: Sources) -> (c: Config)
        requires
            repositories.wf(),
        ensures
            c.wf(),
            c.spec_path() == path@,
            c.repos() == repositories@,
    {
        Config { path, repositories }
    }

    pub fn path(&self) -> (p: &String)
        ensures
            p@ == self.spec_path(),
    {
        &self.path
    }

    pub fn repositories(&self) -> (r: &Sources)
        ensures
            r@ == self.repos(),
            self.wf() ==> r.wf(),
    {
        &self.repositories
    }

    /// Register a repository under the last segment of its path.
    pub fn add_repository(&mut self, path: &str) -> (r: Result<(), RegistryError>)
        requires
            old(self).wf(),
        ensures
            final(self).wf(),
            final(self).spec_path() == old(self).spec_path(),
            match r {
                Ok(()) => derived_name(path@).len() > 0 && !old(self).has_repo(derived_name(path@))
                    && final(self).repos() =~= old(self).repos().push((derived_name(path@), path@)),
                Err(RegistryError::PathTooShort) => derived_name(path@).len() == 0 && final(self).repos() == old(self).repos(),
                Err(RegistryError::AlreadyExists) => derived_name(path@).len() > 0
                    && old(self).has_repo(derived_name(path@))
                    && final(self).repos() == old(self).repos(),
                Err(_) => false,
            },
    {
        self.repositories.add(path, None)
    }

    /// Drop the repository registered under `name`, reporting whether
    /// one was.
    pub fn remove_repository_by_name(&mut self, name: &str) -> (r: bool)
        requires
            old(self).wf(),
        ensures
            final(self).wf(),
            final(self).spec_path() == old(self).spec_path(),
            r == old(self).has_repo(name@),
            r ==> exists|i: int|
                0 <= i < old(self).repos().len() && (#[trigger] old(self).repos()[i]).0 == name@
                    && final(self).repos() =~= old(self).repos().remove(i),
            !r ==> final(self).repos() == old(self).repos(),
    {
        match self.repositories.remove(name) {
            Ok(_) => true,
            Err(_) => false,
        }
    }

    /// Re-register the repository of `name` under `new_name`. A missing
    /// `name` is refused first, then a taken `new_name`, even when the
    /// two names are equal.
    pub fn rename_repository(&mut self, name: &str, new_name: &str) -> (r: Result<
        (),
        RegistryError,
    >)
        requires
            old(self).wf(),
        ensures
            final(self).wf(),
            final(self).spec_path() == old(self).spec_path(),
            match r {
                Ok(()) => old(self).has_repo(name@) && !old(self).has_repo(new_name@) && exists|
                    i: int,
                |
                    0 <= i < old(self).repos().len() && (#[trigger] old(self).repos()[i]).0
                        == name@ && final(self).repos() =~= old(self).repos().remove(i).push(
                        (new_name@, old(self).repos()[i].1),
                    ),
                Err(RegistryError::NoSuchName) => !old(self).has_repo(name@) && final(self).repos()
                    == old(self).repos(),
                Err(RegistryError::AlreadyExists) => old(self).has_repo(name@) && old(self).has_repo(new_name@) && final(self).repos() == old(self).repos(),
                Err(_) => false,
            },
    {
        if !self.repositories.contains_name(name) {
            return Err(RegistryError::NoSuchName);
        }
        if self.repositories.contains_name(new_name) {
            return Err(RegistryError::AlreadyExists);
        }
        self.repositories.rename(name, new_name)
    }
}

/// One of the registry-mutating or query verbs of the command surface.
pub enum Command {
    /// Register each path in turn, under its last segment.
    Add { paths: Vec<String> },
    /// Drop each named repository that exists.
    Remove { names: Vec<String> },
    /// Re-register one repository under a new name.
    Rename { name: String, new_name: String },
    /// Report the path registered under a name.
    Path { name: String },
}

/// What applying a command asks of the caller: persist the registry,
/// print a path, or neither.
#[derive(Clone, Debug, PartialEq, Eq)]
pub struct CommandEffect {
    /// The registry changed and is worth saving.
    pub modified: bool,
    /// A path to report to the user.
    pub print_path: Option<String>,
}

/// One registration step: the name derived from `path` must be non-empty
/// and free.
pub open spec fn spec_add_step(v: Seq<(Seq<char>, Seq<char>)>, path: Seq<char>) -> Result<
    Seq<(Seq<char>, Seq<char>)>,
    RegistryError,
> {
    let n = derived_name(path);
    if n.len() == 0 {
        Err(RegistryError::PathTooShort)
    } else if exists|i: int| 0 <= i < v.len() && (#[trigger] v[i]).0 == n {
        Err(RegistryError::AlreadyExists)
    } else {
        Ok(v.push((n, path)))
    }
}

/// Registering a batch of paths, stopping at the first refusal.
pub open spec fn spec_add_all(v: Seq<(Seq<char>, Seq<char>)>, paths: Seq<Seq<char>>) -> Result<
    Seq<(Seq<char>, Seq<char>)>,
    RegistryError,
>
    decreases paths.len(),
{
    if paths.len() == 0 {
        Ok(v)
    } else {
        match spec_add_step(v, paths[0]) {
            Ok(v2) => spec_add_all(v2, paths.drop_first()),
            Err(e) => Err(e),
        }
    }
}

/// The registry with the first entry named `name` dropped, if any.
pub open spec fn spec_remove_name(v: Seq<(Seq<char>, Seq<char>)>, name: Seq<char>) -> Seq<
    (Seq<char>, Seq<char>),
>
    decreases v.len(),
{
    if v.len() == 0 {
        v
    } else if v[0].0 == name {
        v.drop_first()
    } else {
        seq![v[0]] + spec_remove_name(v.drop_first(), name)
    }
}

/// Dropping a batch of names in turn.
pub open spec fn spec_remove_all(v: Seq<(Seq<char>, Seq<char>)>, names: Seq<Seq<char>>) -> Seq<
    (Seq<char>, Seq<char>),
>
    decreases names.len(),
{
    if names.len() == 0 {
        v
    } else {
        spec_remove_all(spec_remove_name(v, names[0]), names.drop_first())
    }
}

/// Whether dropping a batch of names drops anything at all.
pub open spec fn spec_any_removed(v: Seq<(Seq<char>, Seq<char>)>, names: Seq<Seq<char>>) -> bool
    decreases names.len(),
{
    if names.len() == 0 {
        false
    } else {
        (exists|i: int| 0 <= i < v.len() && (#[trigger] v[i]).0 == names[0]) || spec_any_removed(
            spec_remove_name(v, names[0]),
            names.drop_first(),
        )
    }
}

/// With pairwise distinct names, dropping `name` drops exactly the one
/// entry that carries it.
proof fn lemma_remove_name_at(v: Seq<(Seq<char>, Seq<char>)>, name: Seq<char>, i: int)
    requires
        names_unique(v),
        0 <= i < v.len(),
        v[i].0 == name,
    ensures
        spec_remove_name(v, name) =~= v.remove(i),
    decreases v.len(),
{
    if i == 0 {
        assert(v.drop_first() =~= v.remove(0));
    } else {
        assert(v[0].0 != name);
        let w = v.drop_first();
        assert(names_unique(w)) by {
            assert forall|a: int, b: int|
                0 <= a < b < w.len() implies (#[trigger] w[a]).0 != (#[trigger] w[b]).0 by {
                assert(w[a] == v[a + 1]);
                assert(w[b] == v[b + 1]);
            }
        }
        assert(w[i - 1].0 == name);
        lemma_remove_name_at(w, name, i - 1);
        assert(seq![v[0]] + w.remove(i - 1) =~= v.remove(i));
    }
}

/// Dropping a name nobody carries changes nothing.
proof fn lemma_remove_name_absent(v: Seq<(Seq<char>, Seq<char>)>, name: Seq<char>)
    requires
        forall|i: int| 0 <= i < v.len() ==> (#[trigger] v[i]).0 != name,
    ensures
        spec_remove_name(v, name) =~= v,
    decreases v.len(),
{
    if v.len() > 0 {
        let w = v.drop_first();
        assert(forall|i: int| 0 <= i < w.len() ==> (#[trigger] w[i]) == v[i + 1]);
        lemma_remove_name_absent(w, name);
        assert(seq![v[0]] + w =~= v);
    }
}

impl Config {
    /// Apply one command verb: the registry-mutation rules themselves,
    /// kept apart from argument parsing, persistence and printing.
    ///
    /// `Add` registers each path in turn and stops at the first refusal,
    /// leaving the earlier registrations in place; `Remove` drops every
    /// named repository that exists and never fails; `Rename` and `Path`
    /// fail exactly as their underlying queries do.
    #[verifier::loop_isolation(false)]
    pub fn apply_command(&mut self, cmd: &Command) -> (r: Result<CommandEffect, RegistryError>)
        requires
            old(self).wf(),
        ensures
            final(self).wf(),
            final(self).spec_path() == old(self).spec_path(),
            match *cmd {
                Command::Add { paths } => match r {
                    Ok(eff) => spec_add_all(old(self).repos(), paths.deep_view()) == Ok::<
                        _,
                        RegistryError,
                    >(final(self).repos()) && eff.modified == (paths@.len() > 0)
                        && eff.print_path is None,
                    Err(e) => spec_add_all(old(self).repos(), paths.deep_view()) == Err::<
                        Seq<(Seq<char>, Seq<char>)>,
                        _,
                    >(e),
                },
                Command::Remove { names } => match r {
                    Ok(eff) => final(self).repos() =~= spec_remove_all(
                        old(self).repos(),
                        names.deep_view(),
                    ) && eff.modified == spec_any_removed(old(self).repos(), names.deep_view())
                        && eff.print_path is None,
                    Err(_) => false,
                },
                Command::Rename { name, new_name } => match r {
                    Ok(eff) => old(self).has_repo(name@) && !old(self).has_repo(new_name@)
                        && eff.modified && eff.print_path is None && exists|i: int|
                        0 <= i < old(self).repos().len() && (#[trigger] old(self).repos()[i]).0
                            == name@ && final(self).repos() =~= old(self).repos().remove(i).push(
                            (new_name@, old(self).repos()[i].1),
                        ),
                    Err(RegistryError::NoSuchName) => !old(self).has_repo(name@) && final(self).repos() == old(self).repos(),
                    Err(RegistryError::AlreadyExists) => old(self).has_repo(name@) && old(self).has_repo(new_name@) && final(self).repos() == old(self).repos(),
                    Err(_) => false,
                },
                Command::Path { name } => final(self).repos() == old(self).repos() && match r {
                    Ok(eff) => !eff.modified && old(self).has_repo(name@) && (eff.print_path
                        matches Some(p) && old(self).repos().contains((name@, p@))),
                    Err(e) => e == RegistryError::NoSuchName && !old(self).has_repo(name@),
                },
            },
    {
        match cmd {
            Command::Add { paths } => {
                let ghost orig = self.repos();
                let ghost views = paths.deep_view();
                let mut i: usize = 0;
                proof {
                    assert(views.skip(0) =~= views);
                }
                while i < paths.len()
                    invariant
                        0 <= i <= paths@.len(),
                        views == paths.deep_view(),
                        views.len() == paths@.len(),
                        self.wf(),
                        self.spec_path() == old(self).spec_path(),
                        orig == old(self).repos(),
                        spec_add_all(orig, views) == spec_add_all(
                            self.repos(),
                            views.skip(i as int),
                        ),
                    decreases paths@.len() - i,
                {
                    let ghost pre = self.repos();
                    proof {
                        assert(views.skip(i as int)[0] == paths@[i as int]@);
                    }
                    match self.add_repository(paths[i].as_str()) {
                        Ok(()) => {},
                        Err(e) => {
                            proof {
                                assert(spec_add_step(pre, views.skip(i as int)[0]) == Err::<
                                    Seq<(Seq<char>, Seq<char>)>,
                                    _,
                                >(e));
                                assert(views.skip(i as int).len() > 0);
                                assert(spec_add_all(pre, views.skip(i as int)) == Err::<
                                    Seq<(Seq<char>, Seq<char>)>,
                                    _,
                                >(e));
                                assert(spec_add_all(orig, views) == Err::<
                                    Seq<(Seq<char>, Seq<char>)>,
                                    _,
                                >(e));
                            }
                            return Err(e);
                        },
                    }
                    proof {
                        assert(spec_add_step(pre, views.skip(i as int)[0]) == Ok::<
                            _,
                            RegistryError,
                        >(self.repos()));
                        assert(views.skip(i as int).drop_first() =~= views.skip(i as int + 1));
                    }
                    i = i + 1;
                }
                proof {
                    assert(views.skip(views.len() as int) =~= Seq::<Seq<char>>::empty());
                }
                Ok(CommandEffect { modified: paths.len() > 0, print_path: None })
            },
            Command::Remove { names } => {
                let ghost orig = self.repos();
                let ghost views = names.deep_view();
                let mut any: bool = false;
                let mut i: usize = 0;
                proof {
                    assert(views.skip(0) =~= views);
                }
                while i < names.len()
                    invariant
                        0 <= i <= names@.len(),
                        views == names.deep_view(),
                        views.len() == names@.len(),
                        self.wf(),
                        self.spec_path() == old(self).spec_path(),
                        orig == old(self).repos(),
                        spec_remove_all(orig, views) =~= spec_remove_all(
                            self.repos(),
                            views.skip(i as int),
                        ),
                        spec_any_removed(orig, views) == (any || spec_any_removed(
                            self.repos(),
                            views.skip(i as int),
                        )),
                    decreases names@.len() - i,
                {
                    let ghost pre = self.repos();
                    proof {
                        assert(views.skip(i as int)[0] == names@[i as int]@);
                    }
                    let removed = self.remove_repository_by_name(names[i].as_str());
                    proof {
                        if removed {
                            let k = choose|k: int|
                                0 <= k < pre.len() && (#[trigger] pre[k]).0 == views.skip(
                                    i as int,
                                )[0] && self.repos() =~= pre.remove(k);
                            lemma_remove_name_at(pre, views.skip(i as int)[0], k);
                        } else {
                            lemma_remove_name_absent(pre, views.skip(i as int)[0]);
                        }
                        assert(self.repos() =~= spec_remove_name(pre, views.skip(i as int)[0]));
                        assert(views.skip(i as int).drop_first() =~= views.skip(i as int + 1));
                    }
                    if removed {
                        any = true;
                    }
                    i = i + 1;
                }
                proof {
                    assert(views.skip(views.len() as int) =~= Seq::<Seq<char>>::empty());
                }
                Ok(CommandEffect { modified: any, print_path: None })
            },
            Command::Rename { name, new_name } => {
                match self.rename_repository(name.as_str(), new_name.as_str()) {
                    Ok(()) => Ok(CommandEffect { modified: true, print_path: None }),
                    Err(e) => Err(e),
                }
            },
            Command::Path { name } => {
                match self.repositories.get(name.as_str()) {
                    Some(src) => {
                        let p = src.path.clone();
                        Ok(CommandEffect { modified: false, print_path: Some(p) })
                    },
                    None => Err(RegistryError::NoSuchName),
                }
            },
        }
    }
}

} // verus!
