//! Sequence operations that the table specifications are written with,
//! and the facts about them that the proofs use.
use vstd::prelude::*;

verus! {

/// The elements of `s` that satisfy `keep`, in their order.
pub open spec fn select<A>(s: Seq<A>, keep: spec_fn(A) -> bool) -> Seq<A>
    decreases s.len(),
{
    if s.len() == 0 {
        Seq::empty()
    } else {
        let r = select(s.drop_last(), keep);
        if keep(s.last()) {
            r.push(s.last())
        } else {
            r
        }
    }
}

/// `rel` holds of every pair of elements of `s`, taken in their order.
pub open spec fn pairwise<A>(s: Seq<A>, rel: spec_fn(A, A) -> bool) -> bool {
    forall|i: int, j: int| 0 <= i < j < s.len() ==> #[trigger] rel(s[i], s[j])
}

/// At most the first `n` elements of `s` (SQL `LIMIT n`).
pub open spec fn first_n<A>(s: Seq<A>, n: int) -> Seq<A> {
    if s.len() <= n {
        s
    } else {
        s.subrange(0, n)
    }
}

/// The elements `offset .. offset + limit` of `s`, as far as they exist
/// (SQL `LIMIT limit OFFSET offset`).
pub open spec fn window<A>(s: Seq<A>, offset: int, limit: int) -> Seq<A> {
    if offset >= s.len() {
        Seq::empty()
    } else if offset + limit >= s.len() {
        s.subrange(offset, s.len() as int)
    } else {
        s.subrange(offset, offset + limit)
    }
}

/// Selecting from a prefix one element longer.
pub proof fn lemma_select_step<A>(s: Seq<A>, keep: spec_fn(A) -> bool, i: int)
    requires
        0 <= i < s.len(),
    ensures
        select(s.take(i + 1), keep) == if keep(s[i]) {
            select(s.take(i), keep).push(s[i])
        } else {
            select(s.take(i), keep)
        },
{
    assert(s.take(i + 1).drop_last() =~= s.take(i));
}

/// Selecting from the whole sequence.
pub proof fn lemma_select_all<A>(s: Seq<A>, keep: spec_fn(A) -> bool)
    ensures
        select(s.take(s.len() as int), keep) == select(s, keep),
{
    assert(s.take(s.len() as int) =~= s);
}

/// What a selection holds: each element satisfies `keep` and comes from `s`;
/// each element of `s` that satisfies `keep` is in it.
pub proof fn lemma_select_members<A>(s: Seq<A>, keep: spec_fn(A) -> bool)
    ensures
        select(s, keep).len() <= s.len(),
        forall|k: int|
            0 <= k < select(s, keep).len() ==> #[trigger] keep(select(s, keep)[k]) && s.contains(
                select(s, keep)[k],
            ),
        forall|k: int| 0 <= k < s.len() && keep(s[k]) ==> select(s, keep).contains(#[trigger] s[k]),
    decreases s.len(),
{
    if s.len() > 0 {
        let t = s.drop_last();
        lemma_select_members(t, keep);
        let r = select(t, keep);
        assert forall|k: int| 0 <= k < select(s, keep).len() implies #[trigger] keep(
            select(s, keep)[k],
        ) && s.contains(select(s, keep)[k]) by {
            if k < r.len() {
                assert(0 <= k < select(t, keep).len());
                assert(keep(select(t, keep)[k]));
                assert(t.contains(select(t, keep)[k]));
                let w = choose|w: int| 0 <= w < t.len() && t[w] == r[k];
                assert(s[w] == r[k]);
            } else {
                assert(s[s.len() - 1] == s.last());
            }
        }
        assert forall|k: int| 0 <= k < s.len() && keep(s[k]) implies select(s, keep).contains(
            #[trigger] s[k],
        ) by {
            if k < s.len() - 1 {
                assert(t[k] == s[k]);
                let w = choose|w: int| 0 <= w < r.len() && r[w] == t[k];
                if keep(s.last()) {
                    assert(select(s, keep)[w] == s[k]);
                }
            } else {
                let q = select(s, keep);
                assert(q[q.len() - 1] == s[k]);
            }
        }
    }
}

/// A selection keeps every ordered relation that held of `s`.
pub proof fn lemma_select_pairwise<A>(s: Seq<A>, keep: spec_fn(A) -> bool, rel: spec_fn(A, A) -> bool)
    requires
        pairwise(s, rel),
    ensures
        pairwise(select(s, keep), rel),
    decreases s.len(),
{
    if s.len() > 0 {
        let t = s.drop_last();
        assert(pairwise(t, rel)) by {
            assert forall|i: int, j: int| 0 <= i < j < t.len() implies #[trigger] rel(t[i], t[j]) by {
                assert(rel(s[i], s[j]));
            }
        }
        lemma_select_pairwise(t, keep, rel);
        lemma_select_members(t, keep);
        let r = select(t, keep);
        if keep(s.last()) {
            let q = r.push(s.last());
            assert forall|i: int, j: int| 0 <= i < j < q.len() implies #[trigger] rel(q[i], q[j]) by {
                if j < r.len() {
                    assert(rel(r[i], r[j]));
                } else {
                    assert(0 <= i < select(t, keep).len());
                    assert(keep(select(t, keep)[i]));
                    assert(t.contains(select(t, keep)[i]));
                    let w = choose|w: int| 0 <= w < t.len() && t[w] == r[i];
                    assert(s[w] == r[i]);
                    assert(q[j] == s[s.len() - 1]);
                    assert(rel(s[w], s[s.len() - 1]));
                }
            }
        }
    }
}

/// Selecting with a test that every element passes keeps everything.
pub proof fn lemma_select_everything<A>(s: Seq<A>, keep: spec_fn(A) -> bool)
    requires
        forall|x: A| #[trigger] keep(x),
    ensures
        select(s, keep) == s,
    decreases s.len(),
{
    if s.len() > 0 {
        lemma_select_everything(s.drop_last(), keep);
        assert(s.drop_last().push(s.last()) =~= s);
    }
}

} // verus!
