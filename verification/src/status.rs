use vstd::prelude::*;

verus! {

/// The raw classification facets of one working-tree/index change entry,
/// as the version-control backend reports them: index-side (staged)
/// changes on one hand, working-tree-side changes on the other.
#[derive(Clone, Copy, Debug, PartialEq, Eq, Structural)]
pub struct EntryFacets {
    pub index_new: bool,
    pub index_modified: bool,
    pub index_deleted: bool,
    pub index_renamed: bool,
    pub index_typechange: bool,
    pub wt_new: bool,
    pub wt_modified: bool,
    pub wt_deleted: bool,
    pub wt_renamed: bool,
    pub wt_typechange: bool,
}

/// The compact status of a whole working copy: three independent facets,
/// each present as soon as any change entry contributes it.
#[derive(Clone, Copy, Debug, PartialEq, Eq, Structural)]
pub struct StatusFlags {
    pub staged: bool,
    pub unstaged: bool,
    pub untracked: bool,
}

impl StatusFlags {
    pub open spec fn spec_empty() -> StatusFlags {
        StatusFlags { staged: false, unstaged: false, untracked: false }
    }

    pub fn empty() -> (f: StatusFlags)
        ensures
            f == StatusFlags::spec_empty(),
    {
        StatusFlags { staged: false, unstaged: false, untracked: false }
    }

    pub open spec fn spec_union(self, other: StatusFlags) -> StatusFlags {
        StatusFlags {
            staged: self.staged || other.staged,
            unstaged: self.unstaged || other.unstaged,
            untracked: self.untracked || other.untracked,
        }
    }

    pub fn union(self, other: StatusFlags) -> (f: StatusFlags)
        ensures
            f == self.spec_union(other),
    {
        StatusFlags {
            staged: self.staged || other.staged,
            unstaged: self.unstaged || other.unstaged,
            untracked: self.untracked || other.untracked,
        }
    }
}

/// How one change entry contributes to the three facets: index-side
/// additions, modifications, deletions, renames and type changes are
/// staged; the working-tree-side counterparts are unstaged, except a new
/// unindexed file, which is untracked.
pub open spec fn spec_classify(e: EntryFacets) -> StatusFlags {
    StatusFlags {
        staged: e.index_new || e.index_modified || e.index_deleted || e.index_renamed
            || e.index_typechange,
        unstaged: e.wt_modified || e.wt_deleted || e.wt_renamed || e.wt_typechange,
        untracked: e.wt_new,
    }
}

pub fn classify(e: &EntryFacets) -> (f: StatusFlags)
    ensures
        f == spec_classify(*e),
{
    StatusFlags {
        staged: e.index_new || e.index_modified || e.index_deleted || e.index_renamed
            || e.index_typechange,
        unstaged: e.wt_modified || e.wt_deleted || e.wt_renamed || e.wt_typechange,
        untracked: e.wt_new,
    }
}

/// The status of a sequence of change entries: a facet is present exactly
/// when some entry contributes it. Presence alone matters, so the result
/// depends only on which entries occur, not on their order or multiplicity.
pub open spec fn spec_flags_of(entries: Seq<EntryFacets>) -> StatusFlags {
    StatusFlags {
        staged: exists|i: int| 0 <= i < entries.len() && #[trigger] spec_classify(entries[i]).staged,
        unstaged: exists|i: int|
            0 <= i < entries.len() && #[trigger] spec_classify(entries[i]).unstaged,
        untracked: exists|i: int|
            0 <= i < entries.len() && #[trigger] spec_classify(entries[i]).untracked,
    }
}

/// Fold every entry's contribution into one set of flags.
pub fn flags_of_entries(entries: &Vec<EntryFacets>) -> (f: StatusFlags)
    ensures
        f == spec_flags_of(entries@),
{
    let mut f = StatusFlags::empty();
    let mut i: usize = 0;
    while i < entries.len()
        invariant
            0 <= i <= entries.len(),
            f == spec_flags_of(entries@.take(i as int)),
        decreases entries.len() - i,
    {
        let e = classify(&entries[i]);
        proof {
            let pre = entries@.take(i as int);
            let post = entries@.take(i as int + 1);
            assert(post.drop_last() =~= pre);
            assert(post.last() == entries@[i as int]);
            assert forall|k: int| 0 <= k < pre.len() implies pre[k] == post[k] by {}
            assert(spec_flags_of(post) == spec_flags_of(pre).spec_union(
                spec_classify(entries@[i as int]),
            )) by {
                lemma_flags_take_step(entries@, i as int);
            }
        }
        f = f.union(e);
        i = i + 1;
    }
    proof {
        assert(entries@.take(entries@.len() as int) =~= entries@);
    }
    f
}

proof fn lemma_flags_take_step(entries: Seq<EntryFacets>, i: int)
    requires
        0 <= i < entries.len(),
    ensures
        spec_flags_of(entries.take(i + 1)) == spec_flags_of(entries.take(i)).spec_union(
            spec_classify(entries[i]),
        ),
{
    let pre = entries.take(i);
    let post = entries.take(i + 1);
    assert(forall|k: int| 0 <= k < post.len() ==> post[k] == entries[k]);
    assert(forall|k: int| 0 <= k < pre.len() ==> pre[k] == entries[k]);
    let lhs = spec_flags_of(post);
    let rhs = spec_flags_of(pre).spec_union(spec_classify(entries[i]));
    assert(lhs.staged == rhs.staged) by {
        if lhs.staged {
            let k = choose|k: int|
                0 <= k < post.len() && #[trigger] spec_classify(post[k]).staged;
            if k < i {
                assert(spec_classify(pre[k]).staged);
            }
        }
        if rhs.staged {
            if spec_classify(entries[i]).staged {
                assert(spec_classify(post[i]).staged);
            } else {
                let k = choose|k: int|
                    0 <= k < pre.len() && #[trigger] spec_classify(pre[k]).staged;
                assert(spec_classify(post[k]).staged);
            }
        }
    }
    assert(lhs.unstaged == rhs.unstaged) by {
        if lhs.unstaged {
            let k = choose|k: int|
                0 <= k < post.len() && #[trigger] spec_classify(post[k]).unstaged;
            if k < i {
                assert(spec_classify(pre[k]).unstaged);
            }
        }
        if rhs.unstaged {
            if spec_classify(entries[i]).unstaged {
                assert(spec_classify(post[i]).unstaged);
            } else {
                let k = choose|k: int|
                    0 <= k < pre.len() && #[trigger] spec_classify(pre[k]).unstaged;
                assert(spec_classify(post[k]).unstaged);
            }
        }
    }
    assert(lhs.untracked == rhs.untracked) by {
        if lhs.untracked {
            let k = choose|k: int|
                0 <= k < post.len() && #[trigger] spec_classify(post[k]).untracked;
            if k < i {
                assert(spec_classify(pre[k]).untracked);
            }
        }
        if rhs.untracked {
            if spec_classify(entries[i]).untracked {
                assert(spec_classify(post[i]).untracked);
            } else {
                let k = choose|k: int|
                    0 <= k < pre.len() && #[trigger] spec_classify(pre[k]).untracked;
                assert(spec_classify(post[k]).untracked);
            }
        }
    }
}

/// Facets combine as a set union: splitting an enumeration anywhere and
/// unioning the two parts' flags gives the flags of the whole.
pub proof fn lemma_flags_concat_union(a: Seq<EntryFacets>, b: Seq<EntryFacets>)
    ensures
        spec_flags_of(a + b) == spec_flags_of(a).spec_union(spec_flags_of(b)),
{
    let c = a + b;
    assert(forall|i: int| 0 <= i < a.len() ==> c[i] == a[i]);
    assert(forall|j: int| 0 <= j < b.len() ==> c[a.len() + j] == b[j]);
    let lhs = spec_flags_of(c);
    let rhs = spec_flags_of(a).spec_union(spec_flags_of(b));
    assert(lhs.staged == rhs.staged) by {
        if lhs.staged {
            let k = choose|k: int| 0 <= k < c.len() && #[trigger] spec_classify(c[k]).staged;
            if k < a.len() {
                assert(spec_classify(a[k]).staged);
            } else {
                assert(spec_classify(b[k - a.len()]).staged);
            }
        }
        if spec_flags_of(a).staged {
            let i = choose|i: int| 0 <= i < a.len() && #[trigger] spec_classify(a[i]).staged;
            assert(spec_classify(c[i]).staged);
        }
        if spec_flags_of(b).staged {
            let j = choose|j: int| 0 <= j < b.len() && #[trigger] spec_classify(b[j]).staged;
            assert(spec_classify(c[a.len() + j]).staged);
        }
    }
    assert(lhs.unstaged == rhs.unstaged) by {
        if lhs.unstaged {
            let k = choose|k: int| 0 <= k < c.len() && #[trigger] spec_classify(c[k]).unstaged;
            if k < a.len() {
                assert(spec_classify(a[k]).unstaged);
            } else {
                assert(spec_classify(b[k - a.len()]).unstaged);
            }
        }
        if spec_flags_of(a).unstaged {
            let i = choose|i: int| 0 <= i < a.len() && #[trigger] spec_classify(a[i]).unstaged;
            assert(spec_classify(c[i]).unstaged);
        }
        if spec_flags_of(b).unstaged {
            let j = choose|j: int| 0 <= j < b.len() && #[trigger] spec_classify(b[j]).unstaged;
            assert(spec_classify(c[a.len() + j]).unstaged);
        }
    }
    assert(lhs.untracked == rhs.untracked) by {
        if lhs.untracked {
            let k = choose|k: int| 0 <= k < c.len() && #[trigger] spec_classify(c[k]).untracked;
            if k < a.len() {
                assert(spec_classify(a[k]).untracked);
            } else {
                assert(spec_classify(b[k - a.len()]).untracked);
            }
        }
        if spec_flags_of(a).untracked {
            let i = choose|i: int| 0 <= i < a.len() && #[trigger] spec_classify(a[i]).untracked;
            assert(spec_classify(c[i]).untracked);
        }
        if spec_flags_of(b).untracked {
            let j = choose|j: int| 0 <= j < b.len() && #[trigger] spec_classify(b[j]).untracked;
            assert(spec_classify(c[a.len() + j]).untracked);
        }
    }
}

/// Facets combine as a set union: the flags of a sequence of entries
/// depend only on which entries occur in it. Two enumerations that see
/// the same entries, in any order and with any multiplicity, yield the
/// same flags.
pub proof fn lemma_flags_are_a_set_union(a: Seq<EntryFacets>, b: Seq<EntryFacets>)
    requires
        forall|e: EntryFacets| a.contains(e) <==> b.contains(e),
    ensures
        spec_flags_of(a) == spec_flags_of(b),
{
    lemma_flags_membership_half(a, b);
    lemma_flags_membership_half(b, a);
    let fa = spec_flags_of(a);
    let fb = spec_flags_of(b);
    assert(fa.staged == fb.staged);
    assert(fa.unstaged == fb.unstaged);
    assert(fa.untracked == fb.untracked);
}

proof fn lemma_flags_membership_half(a: Seq<EntryFacets>, b: Seq<EntryFacets>)
    requires
        forall|e: EntryFacets| a.contains(e) ==> b.contains(e),
    ensures
        spec_flags_of(a).staged ==> spec_flags_of(b).staged,
        spec_flags_of(a).unstaged ==> spec_flags_of(b).unstaged,
        spec_flags_of(a).untracked ==> spec_flags_of(b).untracked,
{
    if spec_flags_of(a).staged {
        let i = choose|i: int| 0 <= i < a.len() && #[trigger] spec_classify(a[i]).staged;
        assert(a.contains(a[i]));
        let j = choose|j: int| 0 <= j < b.len() && b[j] == a[i];
        assert(spec_classify(b[j]).staged);
    }
    if spec_flags_of(a).unstaged {
        let i = choose|i: int| 0 <= i < a.len() && #[trigger] spec_classify(a[i]).unstaged;
        assert(a.contains(a[i]));
        let j = choose|j: int| 0 <= j < b.len() && b[j] == a[i];
        assert(spec_classify(b[j]).unstaged);
    }
    if spec_flags_of(a).untracked {
        let i = choose|i: int| 0 <= i < a.len() && #[trigger] spec_classify(a[i]).untracked;
        assert(a.contains(a[i]));
        let j = choose|j: int| 0 <= j < b.len() && b[j] == a[i];
        assert(spec_classify(b[j]).untracked);
    }
}

/// A working copy's status: unknown until first computed, then a known
/// set of flags. A known empty set of flags is distinct from unknown.
#[derive(Clone, Copy, Debug, PartialEq, Eq, Structural)]
pub enum CachedStatus {
    Known(StatusFlags),
    Unknown,
}

impl CachedStatus {
    pub fn has_staged_files(&self) -> (r: bool)
        ensures
            r == (self matches CachedStatus::Known(f) && f.staged),
    {
        match self {
            CachedStatus::Known(f) => f.staged,
            CachedStatus::Unknown => false,
        }
    }

    pub fn has_unstaged_files(&self) -> (r: bool)
        ensures
            r == (self matches CachedStatus::Known(f) && f.unstaged),
    {
        match self {
            CachedStatus::Known(f) => f.unstaged,
            CachedStatus::Unknown => false,
        }
    }

    pub fn has_untracked_files(&self) -> (r: bool)
        ensures
            r == (self matches CachedStatus::Known(f) && f.untracked),
    {
        match self {
            CachedStatus::Known(f) => f.untracked,
            CachedStatus::Unknown => false,
        }
    }
}

/// The rendered form of a set of status flags: always `+` for staged,
/// then `*` for unstaged, then `_` for untracked, each omitted when its
/// facet is absent.
pub open spec fn spec_flags_symbol(f: StatusFlags) -> Seq<char> {
    (if f.staged {
        seq!['+']
    } else {
        Seq::<char>::empty()
    }) + (if f.unstaged {
        seq!['*']
    } else {
        Seq::<char>::empty()
    }) + (if f.untracked {
        seq!['_']
    } else {
        Seq::<char>::empty()
    })
}

/// The rendered form of a status: an unknown status renders empty.
pub open spec fn spec_status_symbol(s: CachedStatus) -> Seq<char> {
    match s {
        CachedStatus::Known(f) => spec_flags_symbol(f),
        CachedStatus::Unknown => Seq::<char>::empty(),
    }
}

impl CachedStatus {
    /// Render the status symbol, in the fixed facet order.
    pub fn symbol(&self) -> (r: String)
        ensures
            r@ == spec_status_symbol(*self),
    {
        proof {
            reveal_strlit("+");
            reveal_strlit("*");
            reveal_strlit("_");
        }
        let mut r = String::new();
        match self {
            CachedStatus::Unknown => {},
            CachedStatus::Known(f) => {
                if f.staged {
                    r.append("+");
                }
                if f.unstaged {
                    r.append("*");
                }
                if f.untracked {
                    r.append("_");
                }
            },
        }
        proof {
            assert(r@ =~= spec_status_symbol(*self));
        }
        r
    }
}

} // verus!
