use vstd::prelude::*;

use crate::aggregate::names_distinct;
use crate::repo::{OpenError, RepositoryHandle};
use crate::sources::Sources;

verus! {

/// `xs` occurs inside `ys`, in order and without reuse.
pub open spec fn is_subsequence(xs: Seq<Seq<char>>, ys: Seq<Seq<char>>) -> bool
    decreases ys.len(),
{
    if xs.len() == 0 {
        true
    } else if ys.len() == 0 {
        false
    } else if xs[0] == ys[0] {
        is_subsequence(xs.drop_first(), ys.drop_first())
    } else {
        is_subsequence(xs, ys.drop_first())
    }
}

/// Extending both sequences by the same element keeps the subsequence.
proof fn lemma_subsequence_push_match(xs: Seq<Seq<char>>, ys: Seq<Seq<char>>, n: Seq<char>)
    requires
        is_subsequence(xs, ys),
    ensures
        is_subsequence(xs.push(n), ys.push(n)),
    decreases ys.len(),
{
    if xs.len() == 0 {
        assert(xs.push(n) =~= seq![n]);
        lemma_subsequence_of_self_after(ys.push(n), n);
    } else {
        assert(ys.len() > 0);
        assert(xs.push(n)[0] == xs[0]);
        assert(ys.push(n)[0] == ys[0]);
        if xs[0] == ys[0] {
            lemma_subsequence_push_match(xs.drop_first(), ys.drop_first(), n);
            assert(xs.push(n).drop_first() =~= xs.drop_first().push(n));
            assert(ys.push(n).drop_first() =~= ys.drop_first().push(n));
        } else {
            lemma_subsequence_push_match(xs, ys.drop_first(), n);
            assert(ys.push(n).drop_first() =~= ys.drop_first().push(n));
        }
    }
}

/// A one-element sequence ending a longer one is its subsequence.
proof fn lemma_subsequence_of_self_after(ys: Seq<Seq<char>>, n: Seq<char>)
    requires
        ys.len() > 0,
        ys.last() == n,
    ensures
        is_subsequence(seq![n], ys),
    decreases ys.len(),
{
    assert(seq![n].len() == 1);
    assert(seq![n][0] == n);
    assert(seq![n].drop_first() =~= Seq::<Seq<char>>::empty());
    if ys.len() == 1 {
        assert(ys[0] == n);
        assert(is_subsequence(seq![n].drop_first(), ys.drop_first()));
    } else {
        if ys[0] == n {
            assert(is_subsequence(seq![n].drop_first(), ys.drop_first()));
        } else {
            assert(ys.drop_first().last() == n);
            lemma_subsequence_of_self_after(ys.drop_first(), n);
        }
    }
}

/// Extending only the longer sequence keeps the subsequence.
proof fn lemma_subsequence_push_skip(xs: Seq<Seq<char>>, ys: Seq<Seq<char>>, m: Seq<char>)
    requires
        is_subsequence(xs, ys),
    ensures
        is_subsequence(xs, ys.push(m)),
    decreases ys.len(),
{
    if xs.len() == 0 {
    } else {
        assert(ys.len() > 0);
        assert(ys.push(m)[0] == ys[0]);
        if xs[0] == ys[0] {
            lemma_subsequence_push_skip(xs.drop_first(), ys.drop_first(), m);
            assert(ys.push(m).drop_first() =~= ys.drop_first().push(m));
        } else {
            lemma_subsequence_push_skip(xs, ys.drop_first(), m);
            assert(ys.push(m).drop_first() =~= ys.drop_first().push(m));
        }
    }
}

/// Every element of a subsequence occurs in the longer sequence.
proof fn lemma_subsequence_membership(xs: Seq<Seq<char>>, ys: Seq<Seq<char>>)
    requires
        is_subsequence(xs, ys),
    ensures
        forall|e: Seq<char>| xs.contains(e) ==> ys.contains(e),
    decreases ys.len(),
{
    if xs.len() == 0 {
    } else {
        assert(ys.len() > 0);
        if xs[0] == ys[0] {
            lemma_subsequence_membership(xs.drop_first(), ys.drop_first());
            assert forall|e: Seq<char>| xs.contains(e) implies ys.contains(e) by {
                let i = choose|i: int| 0 <= i < xs.len() && xs[i] == e;
                if i == 0 {
                    assert(ys[0] == e);
                } else {
                    assert(xs.drop_first()[i - 1] == e);
                    assert(xs.drop_first().contains(e));
                    assert(ys.drop_first().contains(e));
                    let j = choose|j: int| 0 <= j < ys.drop_first().len() && ys.drop_first()[j] == e;
                    assert(ys[j + 1] == e);
                }
            }
        } else {
            lemma_subsequence_membership(xs, ys.drop_first());
            assert forall|e: Seq<char>| xs.contains(e) implies ys.contains(e) by {
                assert(ys.drop_first().contains(e));
                let j = choose|j: int| 0 <= j < ys.drop_first().len() && ys.drop_first()[j] == e;
                assert(ys[j + 1] == e);
            }
        }
    }
}

/// A subsequence of pairwise distinct names has pairwise distinct names.
pub proof fn lemma_subsequence_distinct(xs: Seq<Seq<char>>, ys: Seq<Seq<char>>)
    requires
        is_subsequence(xs, ys),
        names_distinct(ys),
    ensures
        names_distinct(xs),
    decreases ys.len(),
{
    if xs.len() == 0 {
    } else {
        assert(ys.len() > 0);
        let yt = ys.drop_first();
        assert(names_distinct(yt)) by {
            assert(forall|i: int| 0 <= i < yt.len() ==> (#[trigger] yt[i]) == ys[i + 1]);
        }
        if xs[0] == ys[0] {
            let xt = xs.drop_first();
            lemma_subsequence_distinct(xt, yt);
            lemma_subsequence_membership(xt, yt);
            assert forall|i: int, j: int|
                0 <= i < j < xs.len() implies (#[trigger] xs[i]) != (#[trigger] xs[j]) by {
                if i == 0 {
                    assert(xt[j - 1] == xs[j]);
                    assert(xt.contains(xs[j]));
                    assert(yt.contains(xs[j]));
                    let k = choose|k: int| 0 <= k < yt.len() && yt[k] == xs[j];
                    assert(yt[k] == ys[k + 1]);
                    assert(ys[0] != ys[k + 1]);
                } else {
                    assert(xt[i - 1] == xs[i]);
                    assert(xt[j - 1] == xs[j]);
                }
            }
        } else {
            lemma_subsequence_distinct(xs, yt);
        }
    }
}

/// The names of a registry view, in order.
pub open spec fn source_names(v: Seq<(Seq<char>, Seq<char>)>) -> Seq<Seq<char>> {
    v.map_values(|p: (Seq<char>, Seq<char>)| p.0)
}

/// The names of a sequence of handles, in order.
pub open spec fn handle_names(hs: Seq<RepositoryHandle>) -> Seq<Seq<char>> {
    hs.map_values(|h: RepositoryHandle| h.spec_name())
}

/// Open every registered repository into a handle. A path the backend
/// refuses excludes its repository from dispatch: it is reported under
/// its name instead, and the expected result count shrinks by one.
/// Each registered repository goes one way or the other, in registry
/// order, so a registry of distinct names yields handles of distinct
/// names.
pub fn open_all(sources: &Sources) -> (r: (Vec<RepositoryHandle>, Vec<(String, OpenError)>))
    ensures
        r.0@.len() + r.1@.len() == sources@.len(),
        forall|i: int|
            0 <= i < r.0@.len() ==> (#[trigger] r.0@[i]).wf() && !r.0@[i].spec_computed(),
        is_subsequence(handle_names(r.0@), source_names(sources@)),
        is_subsequence(r.1@.map_values(|f: (String, OpenError)| f.0@), source_names(sources@)),
{
    let list = sources.iter();
    let mut handles: Vec<RepositoryHandle> = Vec::new();
    let mut refused: Vec<(String, OpenError)> = Vec::new();
    let mut i: usize = 0;
    proof {
        assert(source_names(sources@).take(0) =~= Seq::<Seq<char>>::empty());
        assert(handle_names(handles@) =~= Seq::<Seq<char>>::empty());
        assert(refused@.map_values(|f: (String, OpenError)| f.0@) =~= Seq::<Seq<char>>::empty());
    }
    while i < list.len()
        invariant
            0 <= i <= sources@.len(),
            list@.len() == sources@.len(),
            forall|k: int| 0 <= k < sources@.len() ==> (#[trigger] list@[k]).pair() == sources@[k],
            handles@.len() + refused@.len() == i,
            forall|k: int|
                0 <= k < handles@.len() ==> (#[trigger] handles@[k]).wf()
                    && !handles@[k].spec_computed(),
            is_subsequence(handle_names(handles@), source_names(sources@).take(i as int)),
            is_subsequence(
                refused@.map_values(|f: (String, OpenError)| f.0@),
                source_names(sources@).take(i as int),
            ),
        decreases list@.len() - i,
    {
        let ghost pre_handles = handle_names(handles@);
        let ghost pre_refused = refused@.map_values(|f: (String, OpenError)| f.0@);
        let ghost pre_names = source_names(sources@).take(i as int);
        let ghost next_name = sources@[i as int].0;
        proof {
            assert(source_names(sources@)[i as int] == next_name);
            assert(source_names(sources@).take(i as int + 1) =~= pre_names.push(next_name));
        }
        let src = &list[i];
        match src.open() {
            Ok(handle) => {
                handles.push(handle);
                proof {
                    assert(handle_names(handles@) =~= pre_handles.push(next_name));
                    lemma_subsequence_push_match(pre_handles, pre_names, next_name);
                    lemma_subsequence_push_skip(pre_refused, pre_names, next_name);
                }
            },
            Err(e) => {
                refused.push((src.name.clone(), e));
                proof {
                    assert(refused@.map_values(|f: (String, OpenError)| f.0@) =~= pre_refused.push(
                        next_name,
                    ));
                    lemma_subsequence_push_match(pre_refused, pre_names, next_name);
                    lemma_subsequence_push_skip(pre_handles, pre_names, next_name);
                }
            },
        }
        i = i + 1;
    }
    proof {
        assert(source_names(sources@).take(sources@.len() as int) =~= source_names(sources@));
    }
    (handles, refused)
}

/// A well-formed registry dispatches handles with pairwise distinct
/// names: exactly the premise under which the final report is unique.
pub proof fn lemma_dispatch_names_distinct(
    handles: Seq<RepositoryHandle>,
    registry: Seq<(Seq<char>, Seq<char>)>,
)
    requires
        is_subsequence(handle_names(handles), source_names(registry)),
        crate::sources::names_unique(registry),
    ensures
        names_distinct(handle_names(handles)),
{
    let sn = source_names(registry);
    assert(names_distinct(sn)) by {
        assert(forall|i: int| 0 <= i < registry.len() ==> (#[trigger] sn[i]) == registry[i].0);
    }
    lemma_subsequence_distinct(handle_names(handles), sn);
}

} // verus!
