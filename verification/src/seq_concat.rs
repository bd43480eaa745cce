//! Concatenation of per-element encodings.
use vstd::prelude::*;

verus! {

/// The encodings `f(s[0]) + f(s[1]) + ...` laid end to end.
pub open spec fn concat_map<A>(s: Seq<A>, f: spec_fn(A) -> Seq<u8>) -> Seq<u8>
    decreases s.len(),
{
    if s.len() == 0 {
        seq![]
    } else {
        f(s[0]) + concat_map(s.drop_first(), f)
    }
}

/// Appending an element appends its encoding.
pub proof fn lemma_concat_map_push<A>(s: Seq<A>, x: A, f: spec_fn(A) -> Seq<u8>)
    ensures
        concat_map(s.push(x), f) =~= concat_map(s, f) + f(x),
    decreases s.len(),
{
    if s.len() == 0 {
        assert(s.push(x).drop_first() =~= Seq::<A>::empty());
        assert(concat_map(Seq::<A>::empty(), f) =~= Seq::<u8>::empty());
    } else {
        assert(s.push(x).drop_first() =~= s.drop_first().push(x));
        lemma_concat_map_push(s.drop_first(), x, f);
    }
}

/// When every encoding has width `w`, the concatenation has width `w * n`
/// and the `i`-th encoding sits at `w * i`.
pub proof fn lemma_concat_map_fixed<A>(s: Seq<A>, f: spec_fn(A) -> Seq<u8>, w: nat)
    requires
        forall|x: A| #[trigger] f(x).len() == w,
    ensures
        concat_map(s, f).len() == w * s.len(),
        forall|i: int|
            0 <= i < s.len() ==> concat_map(s, f).subrange(w * i, w * i + w) =~= f(#[trigger] s[i]),
    decreases s.len(),
{
    if s.len() > 0 {
        let t = s.drop_first();
        lemma_concat_map_fixed(t, f, w);
        let c = concat_map(s, f);
        assert(c == f(s[0]) + concat_map(t, f));
        assert(w * s.len() == w + w * t.len()) by (nonlinear_arith)
            requires
                s.len() == t.len() + 1,
        ;
        assert forall|i: int| 0 <= i < s.len() implies c.subrange(w * i, w * i + w) =~= f(
            #[trigger] s[i],
        ) by {
            if i == 0 {
                assert(w * i == 0) by (nonlinear_arith)
                    requires
                        i == 0,
                ;
            } else {
                assert(w * i == w + w * (i - 1)) by (nonlinear_arith);
                assert(t[i - 1] == s[i]);
                assert(0 <= w * (i - 1)) by (nonlinear_arith)
                    requires
                        i >= 1,
                ;
                assert(w * (i - 1) + w <= w * t.len()) by (nonlinear_arith)
                    requires
                        i - 1 < t.len(),
                ;
                assert(c.subrange(w * i, w * i + w) =~= concat_map(t, f).subrange(
                    w * (i - 1),
                    w * (i - 1) + w,
                ));
            }
        }
    }
}

} // verus!
