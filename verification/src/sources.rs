use vstd::prelude::*;
use vstd::string::*;

use crate::repo::{OpenError, RepositoryHandle};
use crate::text::str_eq;

verus! {

/// Why a registry mutation was refused.
#[derive(Clone, Copy, Debug, PartialEq, Eq, Structural)]
pub enum RegistryError {
    /// No repository name could be derived from the given path.
    PathTooShort,
    /// The name is already registered.
    AlreadyExists,
    /// No entry carries the name.
    NoSuchName,
}

/// One registered repository: a unique human-readable name and the
/// filesystem path of its working copy.
pub struct Source {
    pub name: String,
    pub path: String,
}

impl Source {
    pub open spec fn pair(self) -> (Seq<char>, Seq<char>) {
        (self.name@, self.path@)
    }

    pub fn new(name: String, path: String) -> (s: Source)
        ensures
            s.pair() == (name@, path@),
    {
        Source { name, path }
    }

    /// A fresh copy with the same name and path.
    pub fn duplicate(&self) -> (s: Source)
        ensures
            s.pair() == self.pair(),
    {
        Source { name: self.name.clone(), path: self.path.clone() }
    }

    /// Open this registered repository into a handle carrying its name.
    pub fn open(&self) -> (r: Result<RepositoryHandle, OpenError>)
        ensures
            r matches Ok(h) ==> h.spec_name() == self.name@ && !h.spec_computed() && h.wf(),
    {
        RepositoryHandle::open(self.name.clone(), self.path.as_str())
    }
}

/// The trailing run of separators of a path, dropped.
pub open spec fn trim_trailing_slashes(p: Seq<char>) -> Seq<char>
    decreases p.len(),
{
    if p.len() > 0 && p.last() == '/' {
        trim_trailing_slashes(p.drop_last())
    } else {
        p
    }
}

/// The suffix of a path after its last separator (empty when the path
/// ends in a separator or is empty).
pub open spec fn after_last_slash(p: Seq<char>) -> Seq<char>
    decreases p.len(),
{
    if p.len() == 0 {
        Seq::<char>::empty()
    } else if p.last() == '/' {
        Seq::<char>::empty()
    } else {
        after_last_slash(p.drop_last()).push(p.last())
    }
}

/// The repository name a bare path yields: its last segment, ignoring
/// trailing separators. Empty when the path holds no segment at all.
pub open spec fn derived_name(p: Seq<char>) -> Seq<char> {
    after_last_slash(trim_trailing_slashes(p))
}

/// Compute the last path segment, ignoring trailing separators.
pub fn last_segment(path: &str) -> (r: String)
    ensures
        r@ == derived_name(path@),
{
    let len = path.unicode_len();
    let mut e: usize = len;
    proof {
        assert(path@.take(len as int) =~= path@);
    }
    while e > 0 && path.get_char(e - 1) == '/'
        invariant
            0 <= e <= len,
            len == path@.len(),
            trim_trailing_slashes(path@) == trim_trailing_slashes(path@.take(e as int)),
        decreases e,
    {
        proof {
            let t = path@.take(e as int);
            assert(t.last() == path@[e - 1]);
            assert(t.drop_last() =~= path@.take(e - 1));
        }
        e = e - 1;
    }
    proof {
        let t = path@.take(e as int);
        if e > 0 {
            assert(t.last() == path@[e - 1]);
        }
        assert(trim_trailing_slashes(t) == t);
    }
    let mut j: usize = e;
    while j > 0 && path.get_char(j - 1) != '/'
        invariant
            0 <= j <= e <= len,
            len == path@.len(),
            trim_trailing_slashes(path@) == path@.take(e as int),
            after_last_slash(path@.take(e as int)) =~= after_last_slash(path@.take(j as int))
                + path@.subrange(j as int, e as int),
        decreases j,
    {
        proof {
            let t = path@.take(j as int);
            assert(t.last() == path@[j - 1]);
            assert(t.drop_last() =~= path@.take(j - 1));
            assert(after_last_slash(path@.take(j as int)) =~= after_last_slash(
                path@.take(j - 1),
            ).push(path@[j - 1]));
            assert(after_last_slash(path@.take(j - 1)).push(path@[j - 1]) + path@.subrange(
                j as int,
                e as int,
            ) =~= after_last_slash(path@.take(j - 1)) + path@.subrange(j - 1, e as int));
        }
        j = j - 1;
    }
    proof {
        let t = path@.take(j as int);
        if j > 0 {
            assert(t.last() == path@[j - 1]);
            assert(after_last_slash(t) =~= Seq::<char>::empty());
        } else {
            assert(t =~= Seq::<char>::empty());
        }
        assert(derived_name(path@) =~= path@.subrange(j as int, e as int));
    }
    let seg = path.substring_char(j, e);
    seg.to_owned()
}

/// The ordered registry of repositories: `(name, path)` pairs with
/// pairwise distinct names, in insertion order.
pub struct Sources {
    entries: Vec<Source>,
}

/// Pairwise distinct names.
pub open spec fn names_unique(v: Seq<(Seq<char>, Seq<char>)>) -> bool {
    forall|i: int, j: int| 0 <= i < j < v.len() ==> (#[trigger] v[i]).0 != (#[trigger] v[j]).0
}

impl View for Sources {
    type V = Seq<(Seq<char>, Seq<char>)>;

    closed spec fn view(&self) -> Seq<(Seq<char>, Seq<char>)> {
        self.entries@.map_values(|s: Source| s.pair())
    }
}

impl Sources {
    /// The registry's invariant: no two entries share a name.
    pub open spec fn wf(&self) -> bool {
        names_unique(self@)
    }

    pub open spec fn spec_contains_name(&self, name: Seq<char>) -> bool {
        exists|i: int| 0 <= i < self@.len() && (#[trigger] self@[i]).0 == name
    }

    pub fn new() -> (s: Sources)
        ensures
            s@ =~= Seq::<(Seq<char>, Seq<char>)>::empty(),
            s.wf(),
    {
        Sources { entries: Vec::new() }
    }

    pub fn len(&self) -> (n: usize)
        ensures
            n == self@.len(),
    {
        self.entries.len()
    }

    /// The position of the entry carrying `name`, if any.
    fn position_of(&self, name: &str) -> (r: Option<usize>)
        ensures
            match r {
                Some(i) => 0 <= i < self@.len() && self@[i as int].0 == name@,
                None => !self.spec_contains_name(name@),
            },
    {
        let mut i: usize = 0;
        while i < self.entries.len()
            invariant
                0 <= i <= self@.len(),
                self@.len() == self.entries@.len(),
                forall|k: int| 0 <= k < i ==> (#[trigger] self@[k]).0 != name@,
            decreases self@.len() - i,
        {
            if str_eq(self.entries[i].name.as_str(), name) {
                return Some(i);
            }
            i = i + 1;
        }
        None
    }

    pub fn contains_name(&self, name: &str) -> (r: bool)
        ensures
            r == self.spec_contains_name(name@),
    {
        self.position_of(name).is_some()
    }

    /// Look a repository up by name.
    pub fn get(&self, name: &str) -> (r: Option<&Source>)
        ensures
            match r {
                Some(s) => s.pair().0 == name@ && self@.contains(s.pair()),
                None => !self.spec_contains_name(name@),
            },
    {
        match self.position_of(name) {
            Some(i) => Some(&self.entries[i]),
            None => None,
        }
    }

    /// The registered repositories, in insertion order.
    pub fn iter(&self) -> (r: &Vec<Source>)
        ensures
            r@.len() == self@.len(),
            forall|i: int| 0 <= i < self@.len() ==> (#[trigger] r@[i]).pair() == self@[i],
    {
        &self.entries
    }

    /// Register a repository under `name`, or under the path's last
    /// segment when no name is given.
    pub fn add(&mut self, path: &str, name: Option<&str>) -> (r: Result<(), RegistryError>)
        requires
            old(self).wf(),
        ensures
            final(self).wf(),
            ({
                let n = match name {
                    Some(n) => n@,
                    None => derived_name(path@),
                };
                match r {
                    Ok(()) => (name is None ==> n.len() > 0) && !old(self).spec_contains_name(n)
                        && final(self)@ =~= old(self)@.push((n, path@)),
                    Err(RegistryError::PathTooShort) => name is None && n.len() == 0 && final(self)@ == old(self)@,
                    Err(RegistryError::AlreadyExists) => (name is None ==> n.len() > 0)
                        && old(self).spec_contains_name(n) && final(self)@ == old(self)@,
                    Err(_) => false,
                }
            }),
    {
        let owned_name: String = match name {
            Some(n) => n.to_owned(),
            None => {
                let seg = last_segment(path);
                if seg.as_str().unicode_len() == 0 {
                    return Err(RegistryError::PathTooShort);
                }
                seg
            },
        };
        if self.contains_name(owned_name.as_str()) {
            return Err(RegistryError::AlreadyExists);
        }
        let ghost pre = self@;
        let entry = Source { name: owned_name, path: path.to_owned() };
        let ghost pr = entry.pair();
        self.entries.push(entry);
        proof {
            assert(self@ =~= pre.push(pr));
            assert forall|i: int, j: int|
                0 <= i < j < self@.len() implies (#[trigger] self@[i]).0 != (
            #[trigger] self@[j]).0 by {
                if j < self@.len() - 1 {
                    assert(pre[i].0 != pre[j].0);
                } else {
                    assert(self@[j].0 == pr.0);
                }
            }
        }
        Ok(())
    }

    /// Drop the entry carrying `name`, returning its path.
    pub fn remove(&mut self, name: &str) -> (r: Result<String, RegistryError>)
        requires
            old(self).wf(),
        ensures
            final(self).wf(),
            match r {
                Ok(p) => exists|i: int|
                    0 <= i < old(self)@.len() && old(self)@[i] == (name@, p@) && final(self)@
                        =~= old(self)@.remove(i),
                Err(e) => e == RegistryError::NoSuchName && !old(self).spec_contains_name(name@)
                    && final(self)@ == old(self)@,
            },
            r is Ok <==> old(self).spec_contains_name(name@),
    {
        match self.position_of(name) {
            Some(i) => {
                let ghost pre = self@;
                let entry = self.entries.remove(i);
                proof {
                    assert(self@ =~= pre.remove(i as int));
                    assert(entry.pair() == pre[i as int]);
                    assert forall|a: int, b: int|
                        0 <= a < b < self@.len() implies (#[trigger] self@[a]).0 != (
                    #[trigger] self@[b]).0 by {
                        let a0 = if a < i { a } else { a + 1 };
                        let b0 = if b < i { b } else { b + 1 };
                        assert(self@[a] == pre[a0]);
                        assert(self@[b] == pre[b0]);
                    }
                }
                Ok(entry.path)
            },
            None => Err(RegistryError::NoSuchName),
        }
    }

    /// Re-register the entry of `name` under `new_name`, keeping its path.
    /// A taken `new_name` is refused first, even when `name` is absent or
    /// the two names are equal.
    pub fn rename(&mut self, name: &str, new_name: &str) -> (r: Result<(), RegistryError>)
        requires
            old(self).wf(),
        ensures
            final(self).wf(),
            match r {
                Ok(()) => !old(self).spec_contains_name(new_name@) && exists|i: int|
                    0 <= i < old(self)@.len() && old(self)@[i].0 == name@ && final(self)@ =~= old(self)@.remove(i).push((new_name@, old(self)@[i].1)),
                Err(RegistryError::AlreadyExists) => old(self).spec_contains_name(new_name@)
                    && final(self)@ == old(self)@,
                Err(RegistryError::NoSuchName) => !old(self).spec_contains_name(new_name@)
                    && !old(self).spec_contains_name(name@) && final(self)@ == old(self)@,
                Err(_) => false,
            },
    {
        if self.contains_name(new_name) {
            return Err(RegistryError::AlreadyExists);
        }
        let ghost pre = self@;
        match self.remove(name) {
            Ok(path) => {
                let ghost mid = self@;
                let ghost i = choose|i: int|
                    0 <= i < pre.len() && pre[i] == (name@, path@) && mid =~= pre.remove(i);
                proof {
                    assert forall|k: int| 0 <= k < mid.len() implies (#[trigger] mid[k]).0
                        != new_name@ by {
                        let k0 = if k < i { k } else { k + 1 };
                        assert(mid[k] == pre[k0]);
                        assert(!old(self).spec_contains_name(new_name@));
                    }
                }
                let res = self.add(path.as_str(), Some(new_name));
                proof {
                    assert(res is Ok);
                    assert(self@ =~= pre.remove(i).push((new_name@, path@)));
                }
                match res {
                    Ok(()) => Ok(()),
                    Err(_) => Err(RegistryError::NoSuchName),
                }
            },
            Err(_) => Err(RegistryError::NoSuchName),
        }
    }
}

} // verus!
