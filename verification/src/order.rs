//! Deterministic ordering of child names.
//!
//! Children of a node are always presented sorted lexicographically by
//! code point, whatever order the remote store enumerated them in. Sorting
//! a fixed multiset of names therefore yields one fixed sequence; the
//! public lemma at the end states exactly that.

use vstd::prelude::*;
use vstd::relations::*;
use vstd::seq_lib::*;
use vstd::string::*;

verus! {

/// Lexicographic order on character sequences, comparing code points.
pub open spec fn lex_le(a: Seq<char>, b: Seq<char>) -> bool
    decreases a.len(),
{
    if a.len() == 0 {
        true
    } else if b.len() == 0 {
        false
    } else if a[0] == b[0] {
        lex_le(a.drop_first(), b.drop_first())
    } else {
        (a[0] as u32) < (b[0] as u32)
    }
}

/// `lex_le` as a relation value, for use with vstd's ordering predicates.
pub open spec fn lex_le_fn() -> spec_fn(Seq<char>, Seq<char>) -> bool {
    |a: Seq<char>, b: Seq<char>| lex_le(a, b)
}

/// The views of a sequence of strings.
pub open spec fn views_of(v: Seq<String>) -> Seq<Seq<char>> {
    v.map_values(|s: String| s@)
}

pub proof fn lemma_lex_le_connected(a: Seq<char>, b: Seq<char>)
    ensures
        lex_le(a, b) || lex_le(b, a),
    decreases a.len(),
{
    if a.len() > 0 && b.len() > 0 {
        if a[0] == b[0] {
            lemma_lex_le_connected(a.drop_first(), b.drop_first());
        } else {
            vstd::utf8::char_u32_cast(a[0], a[0] as u32);
            vstd::utf8::char_u32_cast(b[0], b[0] as u32);
            assert((a[0] as u32) != (b[0] as u32));
        }
    }
}

pub proof fn lemma_lex_le_antisymmetric(a: Seq<char>, b: Seq<char>)
    requires
        lex_le(a, b),
        lex_le(b, a),
    ensures
        a == b,
    decreases a.len(),
{
    if a.len() == 0 {
        assert(b.len() == 0);
        assert(a =~= b);
    } else {
        assert(b.len() > 0);
        assert(a[0] == b[0]);
        lemma_lex_le_antisymmetric(a.drop_first(), b.drop_first());
        assert(a.len() == b.len());
        assert forall|i: int| 0 <= i < a.len() implies a[i] == b[i] by {
            if i > 0 {
                assert(a[i] == a.drop_first()[i - 1]);
                assert(b[i] == b.drop_first()[i - 1]);
            }
        }
        assert(a =~= b);
    }
}

pub proof fn lemma_lex_le_transitive(a: Seq<char>, b: Seq<char>, c: Seq<char>)
    requires
        lex_le(a, b),
        lex_le(b, c),
    ensures
        lex_le(a, c),
    decreases a.len(),
{
    if a.len() > 0 {
        assert(b.len() > 0);
        assert(c.len() > 0);
        if a[0] == b[0] && b[0] == c[0] {
            lemma_lex_le_transitive(a.drop_first(), b.drop_first(), c.drop_first());
        }
    }
}

/// `lex_le` is a total order, in the sense vstd's sorting lemmas expect.
pub proof fn lemma_lex_le_total_ordering()
    ensures
        total_ordering(lex_le_fn()),
{
    let r = lex_le_fn();
    assert forall|a: Seq<char>| #[trigger] r(a, a) by {
        lemma_lex_le_connected(a, a);
    }
    assert forall|a: Seq<char>, b: Seq<char>| #[trigger] r(a, b) && #[trigger] r(b, a) implies a
        == b by {
        lemma_lex_le_antisymmetric(a, b);
    }
    assert forall|a: Seq<char>, b: Seq<char>, c: Seq<char>|
        #[trigger] r(a, b) && #[trigger] r(b, c) implies r(a, c) by {
        lemma_lex_le_transitive(a, b, c);
    }
    assert forall|a: Seq<char>, b: Seq<char>| #[trigger] r(a, b) || #[trigger] r(b, a) by {
        lemma_lex_le_connected(a, b);
    }
}

/// Compare two strings in the lexicographic order `lex_le`.
pub fn str_le(a: &str, b: &str) -> (r: bool)
    ensures
        r == lex_le(a@, b@),
{
    let alen = a.unicode_len();
    let blen = b.unicode_len();
    let mut i: usize = 0;
    proof {
        assert(a@.skip(0) =~= a@);
        assert(b@.skip(0) =~= b@);
    }
    while i < alen && i < blen
        invariant
            i <= alen,
            i <= blen,
            alen == a@.len(),
            blen == b@.len(),
            lex_le(a@, b@) == lex_le(a@.skip(i as int), b@.skip(i as int)),
        decreases alen - i,
    {
        let ca = a.get_char(i);
        let cb = b.get_char(i);
        if ca != cb {
            proof {
                assert(a@.skip(i as int)[0] == a@[i as int]);
                assert(b@.skip(i as int)[0] == b@[i as int]);
            }
            return (ca as u32) < (cb as u32);
        }
        proof {
            assert(a@.skip(i as int)[0] == a@[i as int]);
            assert(b@.skip(i as int)[0] == b@[i as int]);
            assert(a@.skip(i as int).drop_first() =~= a@.skip(i as int + 1));
            assert(b@.skip(i as int).drop_first() =~= b@.skip(i as int + 1));
        }
        i += 1;
    }
    proof {
        if i == alen {
            assert(a@.skip(i as int) =~= Seq::<char>::empty());
        } else {
            assert(i == blen);
            assert(b@.skip(i as int) =~= Seq::<char>::empty());
            assert(a@.skip(i as int).len() > 0);
        }
    }
    i >= alen
}

/// Sort names in place into the lexicographic order `lex_le`.
pub fn sort_names(v: &mut Vec<String>)
    ensures
        views_of(final(v)@) == views_of(old(v)@).sort_by(lex_le_fn()),
        sorted_by(views_of(final(v)@), lex_le_fn()),
        views_of(final(v)@).to_multiset() == views_of(old(v)@).to_multiset(),
{
    let ghost orig = views_of(old(v)@);
    proof {
        lemma_lex_le_total_ordering();
        orig.lemma_sort_by_ensures(lex_le_fn());
        broadcast use vstd::multiset::group_multiset_axioms;

    }
    if v.len() > 1 {
        let mut i: usize = 1;
        while i < v.len()
            invariant
                1 <= i <= v@.len(),
                views_of(v@).to_multiset() == orig.to_multiset(),
                views_of(v@).len() == orig.len(),
                sorted_by(views_of(v@).subrange(0, i as int), lex_le_fn()),
            decreases v@.len() - i,
        {
            let ghost pre = views_of(v@);
            let x = v.remove(i);
            let ghost mid = views_of(v@);
            proof {
                broadcast use vstd::multiset::group_multiset_axioms;

                assert(mid =~= pre.remove(i as int));
                to_multiset_remove::<Seq<char>>(pre, i as int);
                assert(pre.contains(pre[i as int]));
                to_multiset_contains::<Seq<char>>(pre, pre[i as int]);
                assert(mid.subrange(0, i as int) =~= pre.subrange(0, i as int));
            }
            let mut j: usize = i;
            while j > 0 && !str_le(v[j - 1].as_str(), x.as_str())
                invariant
                    j <= i,
                    i <= v@.len(),
                    views_of(v@) == mid,
                    sorted_by(mid.subrange(0, i as int), lex_le_fn()),
                    forall|m: int| j <= m < i ==> lex_le(x@, #[trigger] mid[m]),
                decreases j,
            {
                proof {
                    lemma_lex_le_connected(v@[j - 1]@, x@);
                }
                j -= 1;
            }
            v.insert(j, x);
            proof {
                broadcast use vstd::multiset::group_multiset_axioms;

                let post = views_of(v@);
                assert(post =~= mid.insert(j as int, x@));
                to_multiset_insert::<Seq<char>>(mid, j as int, x@);
                assert(post.to_multiset() =~= orig.to_multiset());
                let sub = post.subrange(0, i + 1);
                let leq = lex_le_fn();
                let msub = mid.subrange(0, i as int);
                assert forall|p: int, q: int| 0 <= p < q < i + 1 implies leq(
                    #[trigger] sub[p],
                    #[trigger] sub[q],
                ) by {
                    if q < j {
                        assert(leq(msub[p], msub[q]));
                    } else if q == j {
                        if p < j - 1 {
                            assert(leq(msub[p], msub[j - 1]));
                            lemma_lex_le_transitive(mid[p], mid[j - 1], x@);
                        }
                    } else if p == j {
                        assert(lex_le(x@, mid[q - 1]));
                    } else if p < j {
                        assert(leq(msub[p], msub[q - 1]));
                    } else {
                        assert(leq(msub[p - 1], msub[q - 1]));
                    }
                }
                assert(sorted_by(sub, lex_le_fn()));
            }
            i += 1;
        }
    }
    proof {
        assert(views_of(v@).subrange(0, v@.len() as int) =~= views_of(v@));
        assert(sorted_by(views_of(v@), lex_le_fn()));
        lemma_sorted_unique(views_of(v@), orig.sort_by(lex_le_fn()), lex_le_fn());
    }
}

/// Listing determinism: two enumerations of the same children — the same
/// names as a multiset, in any orders — sort to the same sequence.
pub proof fn lemma_listing_deterministic(a: Seq<Seq<char>>, b: Seq<Seq<char>>)
    requires
        a.to_multiset() == b.to_multiset(),
    ensures
        a.sort_by(lex_le_fn()) == b.sort_by(lex_le_fn()),
{
    lemma_lex_le_total_ordering();
    a.lemma_sort_by_ensures(lex_le_fn());
    b.lemma_sort_by_ensures(lex_le_fn());
    lemma_sorted_unique(a.sort_by(lex_le_fn()), b.sort_by(lex_le_fn()), lex_le_fn());
}

} // verus!
