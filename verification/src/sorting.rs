//! Sorting rows by a ranking chosen at run time.
use vstd::prelude::*;

verus! {

broadcast use vstd::seq_lib::group_to_multiset_ensures;

/// Rows that can be ranked in several modes.
pub trait Ranked: Sized {
    type Mode: Copy;

    /// `a` is listed before `b` in `mode`.
    spec fn ranks_before(mode: Self::Mode, a: Self, b: Self) -> bool;

    /// `a` and `b` can be compared in `mode` without overflow.
    spec fn comparable(mode: Self::Mode, a: Self, b: Self) -> bool;

    proof fn lemma_ranks_before_transitive(mode: Self::Mode, a: Self, b: Self, c: Self)
        requires
            Self::ranks_before(mode, a, b),
            Self::ranks_before(mode, b, c),
        ensures
            Self::ranks_before(mode, a, c),
    ;

    proof fn lemma_ranks_before_asymmetric(mode: Self::Mode, a: Self, b: Self)
        ensures
            !(Self::ranks_before(mode, a, b) && Self::ranks_before(mode, b, a)),
    ;

    fn precedes(mode: Self::Mode, a: &Self, b: &Self) -> (r: bool)
        requires
            Self::comparable(mode, *a, *b),
        ensures
            r == Self::ranks_before(mode, *a, *b),
    ;
}

/// No row is listed after a row that ranks after it.
pub open spec fn ranked<T: Ranked>(mode: T::Mode, s: Seq<T>) -> bool {
    forall|i: int, j: int| 0 <= i < j < s.len() ==> !T::ranks_before(mode, #[trigger] s[j], #[trigger] s[i])
}

/// The same rows, listed in `mode`.
pub fn sort_ranked<T: Ranked>(mode: T::Mode, v: Vec<T>) -> (r: Vec<T>)
    requires
        forall|i: int, j: int|
            0 <= i < v.len() && 0 <= j < v.len() ==> T::comparable(mode, #[trigger] v@[i], #[trigger] v@[j]),
    ensures
        r@.to_multiset() == v@.to_multiset(),
        r.len() == v.len(),
        ranked(mode, r@),
{
    let ghost all = v@;
    let mut rest = v;
    let mut out: Vec<T> = Vec::new();
    while rest.len() > 0
        invariant
            forall|i: int, j: int|
                0 <= i < all.len() && 0 <= j < all.len() ==> T::comparable(mode, #[trigger] all[i], #[trigger] all[j]),
            forall|i: int| 0 <= i < out.len() ==> all.contains(#[trigger] out@[i]),
            forall|i: int| 0 <= i < rest.len() ==> all.contains(#[trigger] rest@[i]),
            out@.to_multiset().add(rest@.to_multiset()) == all.to_multiset(),
            out.len() + rest.len() == all.len(),
            ranked(mode, out@),
        decreases rest.len(),
    {
        let ghost before_rest = rest@;
        let x = rest.pop().unwrap();
        proof {
            assert(before_rest =~= rest@.push(x));
            assert(all.contains(before_rest[before_rest.len() - 1]));
            assert forall|i: int| 0 <= i < rest.len() implies all.contains(#[trigger] rest@[i]) by {
                assert(rest@[i] == before_rest[i]);
            }
        }
        let mut p: usize = 0;
        loop
            invariant
                p <= out.len(),
                all.contains(x),
                forall|i: int| 0 <= i < out.len() ==> all.contains(#[trigger] out@[i]),
                forall|i: int, j: int|
                    0 <= i < all.len() && 0 <= j < all.len() ==> T::comparable(mode, #[trigger] all[i], #[trigger] all[j]),
                forall|j: int| 0 <= j < p ==> !T::ranks_before(mode, x, #[trigger] out@[j]),
            ensures
                p <= out.len(),
                forall|j: int| 0 <= j < p ==> !T::ranks_before(mode, x, #[trigger] out@[j]),
                p < out.len() ==> T::ranks_before(mode, x, out@[p as int]),
            decreases out.len() - p,
        {
            if p >= out.len() {
                break;
            }
            proof {
                let ix = choose|i: int| 0 <= i < all.len() && all[i] == x;
                assert(all.contains(out@[p as int]));
                let jp = choose|j: int| 0 <= j < all.len() && all[j] == out@[p as int];
                assert(T::comparable(mode, all[ix], all[jp]));
            }
            if T::precedes(mode, &x, &out[p]) {
                break;
            }
            p += 1;
        }
        let ghost old_out = out@;
        proof {
            let nv = old_out.insert(p as int, x);
            assert forall|a: int, b: int| 0 <= a < b < nv.len() implies !T::ranks_before(
                mode,
                #[trigger] nv[b],
                #[trigger] nv[a],
            ) by {
                if b < p {
                    assert(nv[a] == old_out[a] && nv[b] == old_out[b]);
                } else if b == p {
                    assert(nv[a] == old_out[a]);
                    // x does not rank before old_out[a]; x == nv[b].
                    if T::ranks_before(mode, x, old_out[a]) {
                        assert(!T::ranks_before(mode, x, old_out[a]));
                    }
                } else if a < p {
                    assert(nv[a] == old_out[a] && nv[b] == old_out[b - 1]);
                } else if a == p {
                    assert(nv[b] == old_out[b - 1]);
                    // x ranks before old_out[p]; old_out[b-1] does not rank before old_out[p].
                    if T::ranks_before(mode, old_out[b - 1], x) {
                        T::lemma_ranks_before_transitive(mode, old_out[b - 1], x, old_out[p as int]);
                        if b - 1 == p {
                            T::lemma_ranks_before_asymmetric(mode, x, old_out[p as int]);
                        }
                    }
                } else {
                    assert(nv[a] == old_out[a - 1] && nv[b] == old_out[b - 1]);
                }
            }
        }
        out.insert(p, x);
        proof {
            vstd::seq_lib::to_multiset_insert(old_out, p as int, x);
            assert forall|i: int| 0 <= i < out.len() implies all.contains(#[trigger] out@[i]) by {
                if i < p {
                    assert(out@[i] == old_out[i]);
                } else if i > p {
                    assert(out@[i] == old_out[i - 1]);
                }
            }
        }
    }
    proof {
        assert(rest@.to_multiset() =~= vstd::multiset::Multiset::empty());
        assert(out@.to_multiset().add(vstd::multiset::Multiset::empty()) =~= out@.to_multiset());
    }
    out
}

/// Sorting is deterministic: when the mode orders any two different rows,
/// the rows can be ranked in one way only, so two ranked listings of the
/// same rows are equal.
pub proof fn lemma_ranked_unique<T: Ranked>(mode: T::Mode, a: Seq<T>, b: Seq<T>)
    requires
        ranked(mode, a),
        ranked(mode, b),
        a.to_multiset() == b.to_multiset(),
        forall|x: T, y: T|
            a.contains(x) && a.contains(y) && x != y ==> T::ranks_before(mode, x, y)
                || T::ranks_before(mode, y, x),
    ensures
        a == b,
    decreases a.len(),
{
    assert(a.len() == a.to_multiset().len());
    assert(b.len() == b.to_multiset().len());
    if a.len() == 0 {
        assert(a =~= b);
    } else {
        let x = a[0];
        let y = b[0];
        assert(a.to_multiset().count(y) > 0) by {
            assert(b.contains(y));
        }
        assert(a.contains(y));
        assert(b.to_multiset().count(x) > 0) by {
            assert(a.contains(x));
        }
        assert(b.contains(x));
        if x != y {
            let i = choose|i: int| 0 <= i < a.len() && a[i] == y;
            let j = choose|j: int| 0 <= j < b.len() && b[j] == x;
            assert(i != 0 && j != 0);
            assert(!T::ranks_before(mode, a[i], a[0]));
            assert(!T::ranks_before(mode, b[j], b[0]));
        }
        let ra = a.remove(0);
        let rb = b.remove(0);
        assert(ra.to_multiset() == a.to_multiset().remove(x));
        assert(rb.to_multiset() == b.to_multiset().remove(y));
        assert forall|p: int, q: int| 0 <= p < q < ra.len() implies !T::ranks_before(
            mode,
            #[trigger] ra[q],
            #[trigger] ra[p],
        ) by {
            assert(ra[q] == a[q + 1] && ra[p] == a[p + 1]);
        }
        assert forall|p: int, q: int| 0 <= p < q < rb.len() implies !T::ranks_before(
            mode,
            #[trigger] rb[q],
            #[trigger] rb[p],
        ) by {
            assert(rb[q] == b[q + 1] && rb[p] == b[p + 1]);
        }
        assert forall|u: T, v: T| ra.contains(u) && ra.contains(v) && u != v implies T::ranks_before(
            mode,
            u,
            v,
        ) || T::ranks_before(mode, v, u) by {
            let p = choose|p: int| 0 <= p < ra.len() && ra[p] == u;
            let q = choose|q: int| 0 <= q < ra.len() && ra[q] == v;
            assert(a[p + 1] == u && a[q + 1] == v);
            assert(a.contains(u) && a.contains(v));
        }
        lemma_ranked_unique(mode, ra, rb);
        assert(a =~= seq![x] + ra);
        assert(b =~= seq![y] + rb);
    }
}

} // verus!
