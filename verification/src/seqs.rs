//! Facts about `Seq::flat_map` that the stages share: each of them turns
//! every element of one sequence into a run of elements of another.

use vstd::prelude::*;

verus! {

/// Nothing comes of an empty sequence.
pub proof fn lemma_flat_map_empty<A, B>(f: spec_fn(A) -> Seq<B>)
    ensures
        Seq::<A>::empty().flat_map(f) == Seq::<B>::empty(),
{
    assert(Seq::<A>::empty().map_values(f) =~= Seq::<Seq<B>>::empty());
}

/// What holds of every element of every run holds of every element of the
/// joined sequence.
pub proof fn lemma_flat_map_all<A, B>(s: Seq<A>, f: spec_fn(A) -> Seq<B>, p: spec_fn(B) -> bool)
    requires
        forall|i: int, j: int|
            0 <= i < s.len() && 0 <= j < f(s[i]).len() ==> p(#[trigger] f(s[i])[j]),
    ensures
        forall|k: int| 0 <= k < s.flat_map(f).len() ==> p(#[trigger] s.flat_map(f)[k]),
    decreases s.len(),
{
    if s.len() == 0 {
        lemma_flat_map_empty(f);
        assert(s =~= Seq::<A>::empty());
    } else {
        let init = s.drop_last();
        assert forall|i: int, j: int| 0 <= i < init.len() && 0 <= j < f(init[i]).len() implies p(
            #[trigger] f(init[i])[j],
        ) by {
            assert(init[i] == s[i]);
        }
        lemma_flat_map_all(init, f, p);
        init.lemma_flat_map_push(f, s.last());
        assert(init.push(s.last()) =~= s);
        let head = init.flat_map(f);
        assert forall|k: int| 0 <= k < s.flat_map(f).len() implies p(
            #[trigger] s.flat_map(f)[k],
        ) by {
            if k < head.len() {
                assert(s.flat_map(f)[k] == head[k]);
            } else {
                assert(s.flat_map(f)[k] == f(s[s.len() - 1])[k - head.len()]);
            }
        }
    }
}

/// Where every element contributes itself and nothing else, the joined
/// sequence is the sequence itself.
pub proof fn lemma_flat_map_identity<A>(s: Seq<A>, f: spec_fn(A) -> Seq<A>)
    requires
        forall|i: int| 0 <= i < s.len() ==> #[trigger] f(s[i]) == seq![s[i]],
    ensures
        s.flat_map(f) == s,
    decreases s.len(),
{
    if s.len() == 0 {
        lemma_flat_map_empty(f);
        assert(s =~= Seq::<A>::empty());
    } else {
        let init = s.drop_last();
        assert forall|i: int| 0 <= i < init.len() implies #[trigger] f(init[i]) == seq![init[i]] by {
            assert(init[i] == s[i]);
        }
        lemma_flat_map_identity(init, f);
        init.lemma_flat_map_push(f, s.last());
        assert(init.push(s.last()) =~= s);
        assert(f(s[s.len() - 1]) == seq![s.last()]);
        assert(init + seq![s.last()] =~= s);
    }
}

/// An element is in the joined sequence exactly when it is in the run of
/// some element.
pub proof fn lemma_flat_map_contains<A, B>(s: Seq<A>, f: spec_fn(A) -> Seq<B>, x: B)
    ensures
        s.flat_map(f).contains(x) <==> exists|i: int|
            0 <= i < s.len() && (#[trigger] f(s[i])).contains(x),
    decreases s.len(),
{
    if s.len() == 0 {
        lemma_flat_map_empty(f);
        assert(s =~= Seq::<A>::empty());
    } else {
        let init = s.drop_last();
        let tail = f(s.last());
        lemma_flat_map_contains(init, f, x);
        init.lemma_flat_map_push(f, s.last());
        assert(init.push(s.last()) =~= s);
        let head = init.flat_map(f);
        if s.flat_map(f).contains(x) {
            let k = s.flat_map(f).index_of(x);
            if k < head.len() {
                assert(head[k] == x);
                let i = choose|i: int| 0 <= i < init.len() && (#[trigger] f(init[i])).contains(x);
                assert(f(s[i]).contains(x));
            } else {
                assert(tail[k - head.len()] == x);
                assert(f(s[s.len() - 1]).contains(x));
            }
        }
        if exists|i: int| 0 <= i < s.len() && (#[trigger] f(s[i])).contains(x) {
            let i = choose|i: int| 0 <= i < s.len() && (#[trigger] f(s[i])).contains(x);
            if i < init.len() {
                assert(f(init[i]).contains(x));
                let k = head.index_of(x);
                assert(s.flat_map(f)[k] == x);
            } else {
                let k = tail.index_of(x);
                assert(s.flat_map(f)[head.len() + k] == x);
            }
        }
    }
}

} // verus!
