use vstd::prelude::*;
use vstd::string::*;

verus! {

/// Two characters with the same code point are the same character.
proof fn lemma_char_eq(c1: char, c2: char)
    requires
        c1 as u32 == c2 as u32,
    ensures
        c1 == c2,
{
    vstd::utf8::char_u32_cast(c1, c1 as u32);
    vstd::utf8::char_u32_cast(c2, c2 as u32);
}

/// A commit summary is capped at this many characters.
pub const SUMMARY_LIMIT: usize = 50;

/// Strict lexicographic order on character sequences, by code point.
/// A proper prefix orders before its extensions.
pub open spec fn lex_lt(a: Seq<char>, b: Seq<char>) -> bool
    decreases a.len(),
{
    if b.len() == 0 {
        false
    } else if a.len() == 0 {
        true
    } else if (a[0] as u32) < (b[0] as u32) {
        true
    } else if a[0] == b[0] {
        lex_lt(a.drop_first(), b.drop_first())
    } else {
        false
    }
}

/// The reflexive closure of `lex_lt`.
pub open spec fn lex_le(a: Seq<char>, b: Seq<char>) -> bool {
    lex_lt(a, b) || a == b
}

pub proof fn lemma_lex_lt_asymmetric(a: Seq<char>, b: Seq<char>)
    requires
        lex_lt(a, b),
    ensures
        !lex_lt(b, a),
        a != b,
    decreases a.len(),
{
    if a.len() == 0 {
        assert(b.len() > 0);
    } else {
        if (a[0] as u32) < (b[0] as u32) {
            assert(a[0] != b[0]);
        } else {
            assert(a[0] == b[0]);
            lemma_lex_lt_asymmetric(a.drop_first(), b.drop_first());
            assert(a != b) by {
                if a == b {
                    assert(a.drop_first() =~= b.drop_first());
                }
            }
        }
    }
}

pub proof fn lemma_lex_lt_connected(a: Seq<char>, b: Seq<char>)
    requires
        !lex_lt(a, b),
        !lex_lt(b, a),
    ensures
        a == b,
    decreases a.len(),
{
    if b.len() == 0 {
        assert(a.len() == 0);
        assert(a =~= b);
    } else {
        assert(a.len() > 0);
        assert(!((a[0] as u32) < (b[0] as u32)));
        assert(!((b[0] as u32) < (a[0] as u32)));
        assert((a[0] as u32) == (b[0] as u32));
        lemma_char_eq(a[0], b[0]);
        lemma_lex_lt_connected(a.drop_first(), b.drop_first());
        assert(a.drop_first() == b.drop_first());
        assert(a.len() == b.len());
        assert(a =~= b) by {
            assert forall|k: int| 0 <= k < a.len() implies a[k] == b[k] by {
                if k > 0 {
                    assert(a[k] == a.drop_first()[k - 1]);
                    assert(b[k] == b.drop_first()[k - 1]);
                }
            }
        }
    }
}

pub proof fn lemma_lex_lt_transitive(a: Seq<char>, b: Seq<char>, c: Seq<char>)
    requires
        lex_lt(a, b),
        lex_lt(b, c),
    ensures
        lex_lt(a, c),
    decreases a.len(),
{
    assert(b.len() > 0);
    assert(c.len() > 0);
    if a.len() == 0 {
    } else {
        if (a[0] as u32) < (b[0] as u32) {
            if (b[0] as u32) < (c[0] as u32) {
                assert((a[0] as u32) < (c[0] as u32));
            } else {
                assert(b[0] == c[0]);
                assert((a[0] as u32) < (c[0] as u32));
            }
        } else {
            assert(a[0] == b[0]);
            if (b[0] as u32) < (c[0] as u32) {
                assert((a[0] as u32) < (c[0] as u32));
            } else {
                assert(b[0] == c[0]);
                assert(a[0] == c[0]);
                assert(!((a[0] as u32) < (c[0] as u32)));
                lemma_lex_lt_transitive(a.drop_first(), b.drop_first(), c.drop_first());
            }
        }
    }
}

/// Discarding an equal prefix does not change how two sequences compare.
proof fn lemma_lex_lt_skip(a: Seq<char>, b: Seq<char>, i: int)
    requires
        0 <= i <= a.len(),
        i <= b.len(),
        forall|k: int| 0 <= k < i ==> a[k] == b[k],
    ensures
        lex_lt(a, b) == lex_lt(a.skip(i), b.skip(i)),
    decreases i,
{
    if i == 0 {
        assert(a.skip(0) =~= a);
        assert(b.skip(0) =~= b);
    } else {
        assert(a.len() > 0);
        assert(b.len() > 0);
        assert(a[0] == b[0]);
        assert(!((a[0] as u32) < (b[0] as u32)));
        assert(lex_lt(a, b) == lex_lt(a.drop_first(), b.drop_first()));
        assert(a.drop_first() =~= a.skip(1));
        assert(b.drop_first() =~= b.skip(1));
        assert(forall|k: int| 0 <= k < i - 1 ==> a.skip(1)[k] == b.skip(1)[k]);
        lemma_lex_lt_skip(a.skip(1), b.skip(1), i - 1);
        assert(a.skip(1).skip(i - 1) =~= a.skip(i));
        assert(b.skip(1).skip(i - 1) =~= b.skip(i));
    }
}

/// Character-for-character equality of two strings.
pub fn str_eq(a: &str, b: &str) -> (r: bool)
    ensures
        r == (a@ == b@),
{
    let alen = a.unicode_len();
    let blen = b.unicode_len();
    if alen != blen {
        return false;
    }
    let mut i: usize = 0;
    while i < alen
        invariant
            0 <= i <= alen,
            alen == a@.len(),
            alen == b@.len(),
            forall|k: int| 0 <= k < i ==> a@[k] == b@[k],
        decreases alen - i,
    {
        let ca = a.get_char(i);
        let cb = b.get_char(i);
        if ca as u32 != cb as u32 {
            proof {
                assert(a@[i as int] != b@[i as int]);
            }
            return false;
        }
        proof {
            lemma_char_eq(ca, cb);
        }
        i = i + 1;
    }
    proof {
        assert(a@ =~= b@);
    }
    true
}

/// Whether `a` orders strictly before `b`, lexicographically by code point.
pub fn str_lt(a: &str, b: &str) -> (r: bool)
    ensures
        r == lex_lt(a@, b@),
{
    let alen = a.unicode_len();
    let blen = b.unicode_len();
    let mut i: usize = 0;
    loop
        invariant
            0 <= i <= alen,
            i <= blen,
            alen == a@.len(),
            blen == b@.len(),
            forall|k: int| 0 <= k < i ==> a@[k] == b@[k],
        decreases alen - i,
    {
        proof {
            lemma_lex_lt_skip(a@, b@, i as int);
        }
        if i == blen {
            return false;
        }
        if i == alen {
            proof {
                assert(b@.skip(i as int).len() > 0);
            }
            return true;
        }
        let ca = a.get_char(i);
        let cb = b.get_char(i);
        proof {
            assert(a@.skip(i as int)[0] == a@[i as int]);
            assert(b@.skip(i as int)[0] == b@[i as int]);
        }
        if (ca as u32) < (cb as u32) {
            return true;
        }
        if (cb as u32) < (ca as u32) {
            proof {
                assert(a@[i as int] != b@[i as int]);
            }
            return false;
        }
        proof {
            lemma_char_eq(ca, cb);
        }
        i = i + 1;
    }
}

/// A summary no longer than the cap passes through unchanged; a longer
/// one is cut to exactly the cap and given a trailing marker.
pub open spec fn spec_truncated(s: Seq<char>) -> Seq<char> {
    if s.len() <= SUMMARY_LIMIT {
        s
    } else {
        s.subrange(0, SUMMARY_LIMIT as int) + "..."@
    }
}

/// Cap a commit summary for display.
pub fn truncate_summary(s: &str) -> (r: String)
    ensures
        r@ == spec_truncated(s@),
{
    let n = s.unicode_len();
    if n <= SUMMARY_LIMIT {
        s.to_owned()
    } else {
        let head = s.substring_char(0, SUMMARY_LIMIT);
        head.to_owned().concat("...")
    }
}

/// What truncation guarantees: a short summary is kept whole; a long one
/// keeps exactly its first `SUMMARY_LIMIT` characters and gains the
/// three-character marker, nothing else.
pub proof fn lemma_summary_truncation(s: Seq<char>)
    ensures
        s.len() <= SUMMARY_LIMIT ==> spec_truncated(s) == s,
        s.len() > SUMMARY_LIMIT ==> spec_truncated(s).len() == SUMMARY_LIMIT + 3,
        s.len() > SUMMARY_LIMIT ==> spec_truncated(s).subrange(0, SUMMARY_LIMIT as int) =~= s.subrange(
            0,
            SUMMARY_LIMIT as int,
        ),
        s.len() > SUMMARY_LIMIT ==> spec_truncated(s).skip(SUMMARY_LIMIT as int) =~= "..."@,
{
    reveal_strlit("...");
    if s.len() > SUMMARY_LIMIT {
        assert(spec_truncated(s).len() == SUMMARY_LIMIT + 3);
    }
}

} // verus!
