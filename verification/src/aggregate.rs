use vstd::prelude::*;
use vstd::multiset::Multiset;
use vstd::seq_lib::lemma_multiset_commutative;

use crate::outcome::Outcome;
use crate::text::{
    lemma_lex_lt_asymmetric, lemma_lex_lt_connected, lemma_lex_lt_transitive, lex_le, lex_lt,
    str_lt,
};

verus! {

broadcast use {vstd::seq_lib::group_to_multiset_ensures, vstd::multiset::group_multiset_axioms};

/// The names of a sequence of outcomes, in order.
pub open spec fn names_of(s: Seq<Outcome>) -> Seq<Seq<char>> {
    s.map_values(|o: Outcome| o.name@)
}

/// Rows stand in ascending name order.
pub open spec fn sorted_by_name(names: Seq<Seq<char>>) -> bool {
    forall|i: int, j: int|
        0 <= i < j < names.len() ==> lex_le(#[trigger] names[i], #[trigger] names[j])
}

/// No name occurs twice.
pub open spec fn names_distinct(names: Seq<Seq<char>>) -> bool {
    forall|i: int, j: int|
        0 <= i < j < names.len() ==> (#[trigger] names[i]) != (#[trigger] names[j])
}

/// Place one outcome into a name-sorted buffer, keeping it sorted.
fn insert_sorted(out: &mut Vec<Outcome>, x: Outcome)
    requires
        sorted_by_name(names_of(old(out)@)),
    ensures
        final(out)@.len() == old(out)@.len() + 1,
        sorted_by_name(names_of(final(out)@)),
        final(out)@.to_multiset() == old(out)@.to_multiset().insert(x),
{
    let mut i: usize = 0;
    while i < out.len() && !str_lt(x.name.as_str(), out[i].name.as_str())
        invariant
            0 <= i <= out@.len(),
            forall|k: int| 0 <= k < i ==> lex_le((#[trigger] out@[k]).name@, x.name@),
        decreases out@.len() - i,
    {
        proof {
            if !lex_lt(out@[i as int].name@, x.name@) {
                lemma_lex_lt_connected(out@[i as int].name@, x.name@);
            }
        }
        i = i + 1;
    }
    proof {
        lemma_insert_keeps_sorted(out@, x, i as int);
    }
    out.insert(i, x);
}

/// Inserting at a position bounded by its neighbours keeps the names
/// sorted.
proof fn lemma_insert_keeps_sorted(s: Seq<Outcome>, x: Outcome, i: int)
    requires
        0 <= i <= s.len(),
        sorted_by_name(names_of(s)),
        forall|k: int| 0 <= k < i ==> lex_le((#[trigger] s[k]).name@, x.name@),
        i < s.len() ==> lex_lt(x.name@, s[i].name@),
    ensures
        sorted_by_name(names_of(s.insert(i, x))),
{
    let t = s.insert(i, x);
    let names = names_of(t);
    let ns = names_of(s);
    assert forall|a: int, b: int|
        0 <= a < b < names.len() implies lex_le(#[trigger] names[a], #[trigger] names[b]) by {
        assert(names[a] == t[a].name@);
        assert(names[b] == t[b].name@);
        if a == i && b == i {
            // impossible: a < b
        } else if a == i {
            // x against a later element: x < s[i] <= s[b - 1]
            let sb = b - 1;
            assert(t[b] == s[sb]);
            assert(lex_lt(x.name@, s[i].name@));
            if sb > i {
                assert(ns[i] == s[i].name@);
                assert(ns[sb] == s[sb].name@);
                assert(lex_le(s[i].name@, s[sb].name@));
                if lex_lt(s[i].name@, s[sb].name@) {
                    lemma_lex_lt_transitive(x.name@, s[i].name@, s[sb].name@);
                }
            }
        } else if b == i {
            // an element placed before x was at an index below i
            assert(t[a] == s[a]);
            assert(lex_le(s[a].name@, x.name@));
        } else {
            let sa = if a < i {
                a
            } else {
                a - 1
            };
            let sb = if b < i {
                b
            } else {
                b - 1
            };
            assert(t[a] == s[sa]);
            assert(t[b] == s[sb]);
            assert(sa < sb);
            assert(ns[sa] == s[sa].name@);
            assert(ns[sb] == s[sb].name@);
            assert(lex_le(s[sa].name@, s[sb].name@));
        }
    }
}

/// Collect one result per dispatched job into the final report order:
/// ascending by name, one row per result, nothing dropped and nothing
/// invented, whatever order the results arrived in.
pub fn collect(results: Vec<Outcome>) -> (out: Vec<Outcome>)
    ensures
        out@.len() == results@.len(),
        sorted_by_name(names_of(out@)),
        out@.to_multiset() == results@.to_multiset(),
{
    let ghost orig = results@;
    let mut input = results;
    let mut out: Vec<Outcome> = Vec::new();
    proof {
        assert(out@.to_multiset() =~= Multiset::<Outcome>::empty());
        assert(out@.to_multiset().add(input@.to_multiset()) =~= orig.to_multiset());
    }
    while input.len() > 0
        invariant
            sorted_by_name(names_of(out@)),
            out@.to_multiset().add(input@.to_multiset()) == orig.to_multiset(),
        decreases input@.len(),
    {
        let ghost pre_in = input@;
        let ghost pre_out = out@;
        let x = input.pop().unwrap();
        proof {
            assert(input@ =~= pre_in.drop_last());
            assert(pre_in.drop_last().push(x) =~= pre_in);
            assert(pre_in.drop_last().push(x).to_multiset() =~= pre_in.drop_last().to_multiset().insert(x));
            assert(pre_in.to_multiset() =~= input@.to_multiset().insert(x));
        }
        insert_sorted(&mut out, x);
        proof {
            assert(out@.to_multiset() =~= pre_out.to_multiset().insert(x));
            assert(out@.to_multiset().add(input@.to_multiset()) =~= orig.to_multiset());
        }
    }
    proof {
        assert(input@.to_multiset() =~= Multiset::<Outcome>::empty());
        assert(out@.to_multiset() =~= orig.to_multiset());
        assert(out@.to_multiset().len() == out@.len());
        assert(orig.to_multiset().len() == orig.len());
    }
    out
}

/// Two name-sorted sequences made of the same results are the same
/// sequence, as long as no name occurs twice: the report is determined
/// by the set of results alone, not by their arrival order.
pub proof fn lemma_sorted_report_unique(x: Seq<Outcome>, y: Seq<Outcome>)
    requires
        sorted_by_name(names_of(x)),
        sorted_by_name(names_of(y)),
        names_distinct(names_of(x)),
        x.to_multiset() == y.to_multiset(),
    ensures
        x =~= y,
    decreases x.len(),
{
    if x.len() == 0 {
        assert(x.to_multiset() =~= Multiset::<Outcome>::empty());
        assert(y.to_multiset().len() == 0);
        assert(y.len() == 0);
    } else {
        let xn = names_of(x);
        let yn = names_of(y);
        assert(x.to_multiset().contains(x[0]));
        assert(y.to_multiset().contains(x[0]));
        assert(y.to_multiset().len() > 0);
        assert(y.len() > 0);
        assert(x.to_multiset().contains(y[0]));
        assert(y.contains(x[0]));
        assert(x.contains(y[0]));
        let m = choose|m: int| 0 <= m < x.len() && x[m] == y[0];
        let k = choose|k: int| 0 <= k < y.len() && y[k] == x[0];
        assert(xn[0] == x[0].name@);
        assert(xn[m] == x[m].name@);
        assert(yn[0] == y[0].name@);
        assert(yn[k] == y[k].name@);
        // x[0] <= x[m] == y[0] and y[0] <= y[k] == x[0]: head names agree.
        assert(lex_le(x[0].name@, y[0].name@));
        assert(lex_le(y[0].name@, x[0].name@));
        assert(x[0].name@ == y[0].name@) by {
            if lex_lt(x[0].name@, y[0].name@) {
                lemma_lex_lt_asymmetric(x[0].name@, y[0].name@);
            }
        }
        // Distinct names in x force the witness of y[0] to be x[0] itself.
        assert(x[0] == y[0]) by {
            if m != 0 {
                assert(xn[0] != xn[m]);
                assert(x[m].name@ == y[0].name@);
            }
        }
        let xt = x.drop_first();
        let yt = y.drop_first();
        assert(xt.to_multiset() =~= x.to_multiset().remove(x[0])) by {
            assert(x.remove(0) =~= xt);
        }
        assert(yt.to_multiset() =~= y.to_multiset().remove(y[0])) by {
            assert(y.remove(0) =~= yt);
        }
        let xtn = names_of(xt);
        let ytn = names_of(yt);
        assert(forall|i: int| 0 <= i < xt.len() ==> (#[trigger] xtn[i]) == xn[i + 1]);
        assert(forall|i: int| 0 <= i < yt.len() ==> (#[trigger] ytn[i]) == yn[i + 1]);
        lemma_sorted_report_unique(xt, yt);
        assert(x =~= y) by {
            assert(x.len() == y.len());
            assert(forall|i: int|
                0 < i < x.len() ==> (#[trigger] x[i]) == xt[i - 1] && y[i] == yt[i - 1]);
        }
    }
}

/// A value counted at least twice in a sequence's multiset occupies two
/// distinct positions.
proof fn lemma_two_occurrences(a: Seq<Outcome>, v: Outcome)
    requires
        a.to_multiset().count(v) >= 2,
    ensures
        exists|p: int, q: int| 0 <= p < q < a.len() && #[trigger] a[p] == v && #[trigger] a[q] == v,
{
    assert(a.to_multiset().contains(v));
    assert(a.contains(v));
    let p = choose|p: int| 0 <= p < a.len() && a[p] == v;
    let rest = a.remove(p);
    assert(rest.to_multiset() =~= a.to_multiset().remove(v));
    assert(rest.to_multiset().count(v) >= 1);
    assert(rest.to_multiset().contains(v));
    assert(rest.contains(v));
    let r = choose|r: int| 0 <= r < rest.len() && rest[r] == v;
    if r < p {
        assert(rest[r] == a[r]);
        assert(0 <= r < p < a.len() && a[r] == v && a[p] == v);
    } else {
        assert(rest[r] == a[r + 1]);
        assert(0 <= p < r + 1 < a.len() && a[p] == v && a[r + 1] == v);
    }
}

/// A batch of results with pairwise distinct names keeps them distinct
/// under any rearrangement.
pub proof fn lemma_distinct_names_permute(a: Seq<Outcome>, b: Seq<Outcome>)
    requires
        names_distinct(names_of(a)),
        a.to_multiset() == b.to_multiset(),
    ensures
        names_distinct(names_of(b)),
{
    let an = names_of(a);
    let bn = names_of(b);
    assert forall|i: int, j: int|
        0 <= i < j < bn.len() implies (#[trigger] bn[i]) != (#[trigger] bn[j]) by {
        assert(bn[i] == b[i].name@);
        assert(bn[j] == b[j].name@);
        if b[i].name@ == b[j].name@ {
            if b[i] == b[j] {
                // the same value twice: its count is at least two in b,
                // so twice in a as well, against a's distinct names
                let s0 = b.subrange(0, j);
                let s1 = b.subrange(j, b.len() as int);
                assert(b =~= s0 + s1);
                lemma_multiset_commutative(s0, s1);
                assert(s0.to_multiset().count(b[i]) >= 1) by {
                    assert(s0[i] == b[i]);
                    assert(s0.contains(b[i]));
                }
                assert(s1.to_multiset().count(b[j]) >= 1) by {
                    assert(s1[0] == b[j]);
                    assert(s1.contains(b[j]));
                }
                assert(a.to_multiset().count(b[i]) >= 2);
                lemma_two_occurrences(a, b[i]);
                let (p, q): (int, int) = choose|p: int, q: int|
                    0 <= p < q < a.len() && #[trigger] a[p] == b[i] && #[trigger] a[q] == b[i];
                assert(an[p] == a[p].name@);
                assert(an[q] == a[q].name@);
                assert(an[p] != an[q]);
            } else {
                // two different values sharing a name: both occur in a,
                // necessarily at different places, against a's distinct
                // names
                assert(b.to_multiset().contains(b[i]));
                assert(b.to_multiset().contains(b[j]));
                assert(a.contains(b[i]));
                assert(a.contains(b[j]));
                let p = choose|p: int| 0 <= p < a.len() && a[p] == b[i];
                let q = choose|q: int| 0 <= q < a.len() && a[q] == b[j];
                assert(p != q);
                assert(an[p] == a[p].name@);
                assert(an[q] == a[q].name@);
                if p < q {
                    assert(an[p] != an[q]);
                } else {
                    assert(an[q] != an[p]);
                }
            }
        }
    }
}

/// However many workers raced and in whatever order their results
/// arrived, a name-sorted collection of the same per-repository results
/// is the same report, row for row, one row per repository.
pub proof fn lemma_report_independent_of_arrival(
    arrived_one: Seq<Outcome>,
    arrived_two: Seq<Outcome>,
    report_one: Seq<Outcome>,
    report_two: Seq<Outcome>,
)
    requires
        names_distinct(names_of(arrived_one)),
        arrived_one.to_multiset() == arrived_two.to_multiset(),
        sorted_by_name(names_of(report_one)),
        report_one.to_multiset() == arrived_one.to_multiset(),
        sorted_by_name(names_of(report_two)),
        report_two.to_multiset() == arrived_two.to_multiset(),
    ensures
        report_one =~= report_two,
        report_one.len() == arrived_one.len(),
{
    lemma_distinct_names_permute(arrived_one, report_one);
    lemma_sorted_report_unique(report_one, report_two);
    assert(report_one.to_multiset().len() == report_one.len());
    assert(arrived_one.to_multiset().len() == arrived_one.len());
}

/// One result's row never depends on another result: whatever one job
/// reported — a fetch failure or any other change confined to it — every
/// other job's outcome appears in both reports exactly as it was emitted.
pub proof fn lemma_failure_isolated(
    results_one: Seq<Outcome>,
    results_two: Seq<Outcome>,
    altered: int,
    other: int,
    report_one: Seq<Outcome>,
    report_two: Seq<Outcome>,
)
    requires
        results_one.len() == results_two.len(),
        0 <= altered < results_one.len(),
        0 <= other < results_one.len(),
        other != altered,
        forall|k: int|
            0 <= k < results_one.len() && k != altered ==> (#[trigger] results_one[k])
                == results_two[k],
        report_one.to_multiset() == results_one.to_multiset(),
        report_two.to_multiset() == results_two.to_multiset(),
    ensures
        report_one.contains(results_one[other]),
        report_two.contains(results_one[other]),
{
    assert(results_one.contains(results_one[other]));
    assert(results_two[other] == results_one[other]);
    assert(results_two.contains(results_one[other]));
    assert(report_one.to_multiset().contains(results_one[other]));
    assert(report_two.to_multiset().contains(results_one[other]));
}

} // verus!
