//! Counting the elements of a sequence that satisfy a predicate, with the
//! facts about such counts that the game's proofs rely on.

use vstd::prelude::*;

verus! {

/// The number of elements of `s` on which `f` holds.
pub open spec fn count_where<T>(s: Seq<T>, f: spec_fn(T) -> bool) -> nat
    decreases s.len(),
{
    if s.len() == 0 {
        0
    } else {
        count_where(s.drop_last(), f) + if f(s.last()) {
            1nat
        } else {
            0nat
        }
    }
}

pub proof fn lemma_count_le_len<T>(s: Seq<T>, f: spec_fn(T) -> bool)
    ensures
        count_where(s, f) <= s.len(),
    decreases s.len(),
{
    if s.len() > 0 {
        lemma_count_le_len(s.drop_last(), f);
    }
}

/// A count is zero exactly when no element satisfies the predicate.
pub proof fn lemma_count_zero<T>(s: Seq<T>, f: spec_fn(T) -> bool)
    ensures
        count_where(s, f) == 0 <==> forall|k: int| 0 <= k < s.len() ==> !f(#[trigger] s[k]),
    decreases s.len(),
{
    if s.len() > 0 {
        lemma_count_zero(s.drop_last(), f);
        let p = s.drop_last();
        assert forall|k: int| 0 <= k < p.len() implies p[k] == s[k] by {}
        if count_where(s, f) == 0 {
            assert forall|k: int| 0 <= k < s.len() implies !f(#[trigger] s[k]) by {
                if k < p.len() {
                    assert(p[k] == s[k]);
                }
            }
        }
        if forall|k: int| 0 <= k < s.len() ==> !f(#[trigger] s[k]) {
            assert forall|k: int| 0 <= k < p.len() implies !f(#[trigger] p[k]) by {
                assert(p[k] == s[k]);
            }
            assert(!f(s[s.len() - 1]));
        }
    }
}

/// Counting over a prefix one element longer adds that element's share.
pub proof fn lemma_count_take<T>(s: Seq<T>, f: spec_fn(T) -> bool, k: int)
    requires
        0 <= k < s.len(),
    ensures
        count_where(s.take(k + 1), f) == count_where(s.take(k), f) + if f(s[k]) {
            1nat
        } else {
            0nat
        },
{
    assert(s.take(k + 1).drop_last() =~= s.take(k));
}

/// Replacing one element changes the count by that element's shares only.
pub proof fn lemma_count_update<T>(s: Seq<T>, i: int, v: T, f: spec_fn(T) -> bool)
    requires
        0 <= i < s.len(),
    ensures
        count_where(s.update(i, v), f) + (if f(s[i]) {
            1int
        } else {
            0int
        }) == count_where(s, f) + (if f(v) {
            1int
        } else {
            0int
        }),
    decreases s.len(),
{
    let t = s.update(i, v);
    if i == s.len() - 1 {
        assert(t.drop_last() =~= s.drop_last());
    } else {
        assert(t.drop_last() =~= s.drop_last().update(i, v));
        lemma_count_update(s.drop_last(), i, v, f);
    }
}

/// Where `f` implies `g` on every element, `f` counts no more than `g`, and
/// strictly less where some element satisfies `g` but not `f`.
pub proof fn lemma_count_mono<T>(s: Seq<T>, f: spec_fn(T) -> bool, g: spec_fn(T) -> bool)
    requires
        forall|k: int| 0 <= k < s.len() && f(#[trigger] s[k]) ==> g(s[k]),
    ensures
        count_where(s, f) <= count_where(s, g),
        (exists|k: int| 0 <= k < s.len() && g(#[trigger] s[k]) && !f(s[k])) ==> count_where(s, f)
            < count_where(s, g),
    decreases s.len(),
{
    if s.len() > 0 {
        let p = s.drop_last();
        assert forall|k: int| 0 <= k < p.len() && f(#[trigger] p[k]) implies g(p[k]) by {
            assert(p[k] == s[k]);
        }
        lemma_count_mono(p, f, g);
        if exists|k: int| 0 <= k < s.len() && g(#[trigger] s[k]) && !f(s[k]) {
            let k = choose|k: int| 0 <= k < s.len() && g(#[trigger] s[k]) && !f(s[k]);
            if k < p.len() {
                assert(p[k] == s[k]);
            }
        }
    }
}

/// Elements either satisfy `f` or `g`, never both: the two counts add up to
/// the length.
pub proof fn lemma_count_split<T>(s: Seq<T>, f: spec_fn(T) -> bool, g: spec_fn(T) -> bool)
    requires
        forall|k: int| 0 <= k < s.len() ==> (f(#[trigger] s[k]) <==> !g(s[k])),
    ensures
        count_where(s, f) + count_where(s, g) == s.len(),
    decreases s.len(),
{
    if s.len() > 0 {
        let p = s.drop_last();
        assert forall|k: int| 0 <= k < p.len() implies (f(#[trigger] p[k]) <==> !g(p[k])) by {
            assert(p[k] == s[k]);
        }
        lemma_count_split(p, f, g);
    }
}

/// Two sequences that agree on `f` element by element have the same count.
pub proof fn lemma_count_same<T>(s: Seq<T>, t: Seq<T>, f: spec_fn(T) -> bool)
    requires
        s.len() == t.len(),
        forall|k: int| 0 <= k < s.len() ==> (f(#[trigger] s[k]) <==> f(t[k])),
    ensures
        count_where(s, f) == count_where(t, f),
    decreases s.len(),
{
    if s.len() > 0 {
        let p = s.drop_last();
        let q = t.drop_last();
        assert forall|k: int| 0 <= k < p.len() implies (f(#[trigger] p[k]) <==> f(q[k])) by {
            assert(p[k] == s[k]);
            assert(q[k] == t[k]);
        }
        lemma_count_same(p, q, f);
    }
}

} // verus!
