//! Sequences with some of their elements left out.

use vstd::prelude::*;

verus! {

/// The elements that `keep` holds of, in their order.
pub open spec fn kept<T>(s: Seq<T>, keep: spec_fn(T) -> bool) -> Seq<T>
    decreases s.len(),
{
    if s.len() == 0 {
        s
    } else if keep(s[0]) {
        seq![s[0]] + kept(s.drop_first(), keep)
    } else {
        kept(s.drop_first(), keep)
    }
}

/// What is kept are the elements that `keep` holds of, and no others.
pub proof fn lemma_kept_members<T>(s: Seq<T>, keep: spec_fn(T) -> bool)
    ensures
        kept(s, keep).len() <= s.len(),
        forall|k: int|
            0 <= k < kept(s, keep).len() ==> keep(#[trigger] kept(s, keep)[k]) && s.contains(
                kept(s, keep)[k],
            ),
        forall|i: int| 0 <= i < s.len() && keep(#[trigger] s[i]) ==> kept(s, keep).contains(s[i]),
    decreases s.len(),
{
    if s.len() > 0 {
        let rest = s.drop_first();
        lemma_kept_members(rest, keep);
        let out = kept(s, keep);
        let sub = kept(rest, keep);
        assert forall|k: int| 0 <= k < out.len() implies keep(#[trigger] out[k]) && s.contains(
            out[k],
        ) by {
            if keep(s[0]) {
                if k == 0 {
                    assert(s[0] == out[0]);
                } else {
                    assert(out[k] == sub[k - 1]);
                    let w = choose|w: int| 0 <= w < rest.len() && rest[w] == sub[k - 1];
                    assert(s[w + 1] == rest[w]);
                }
            } else {
                let w = choose|w: int| 0 <= w < rest.len() && rest[w] == sub[k];
                assert(s[w + 1] == rest[w]);
            }
        }
        assert forall|i: int| 0 <= i < s.len() && keep(#[trigger] s[i]) implies out.contains(
            s[i],
        ) by {
            if i == 0 {
                assert(out[0] == s[0]);
            } else {
                assert(rest[i - 1] == s[i]);
                let w = choose|w: int| 0 <= w < sub.len() && sub[w] == rest[i - 1];
                if keep(s[0]) {
                    assert(out[w + 1] == sub[w]);
                } else {
                    assert(out[w] == sub[w]);
                }
            }
        }
    }
}

/// What is kept of a sequence with one more element at its end.
pub proof fn lemma_kept_push<T>(s: Seq<T>, x: T, keep: spec_fn(T) -> bool)
    ensures
        kept(s.push(x), keep) == if keep(x) {
            kept(s, keep).push(x)
        } else {
            kept(s, keep)
        },
    decreases s.len(),
{
    if s.len() == 0 {
        assert(s.push(x).drop_first() =~= s);
        assert(kept(s, keep) =~= s);
        assert(kept(s.push(x).drop_first(), keep) =~= s);
        if keep(x) {
            assert(seq![x] + s =~= s.push(x));
        }
    } else {
        assert(s.push(x).drop_first() =~= s.drop_first().push(x));
        assert(s.push(x)[0] == s[0]);
        lemma_kept_push(s.drop_first(), x, keep);
        if keep(s[0]) {
            if keep(x) {
                assert(seq![s[0]] + kept(s.drop_first(), keep).push(x) =~= (seq![s[0]] + kept(
                    s.drop_first(),
                    keep,
                )).push(x));
            }
        }
    }
}

/// Leaving out again what was left out changes nothing.
pub proof fn lemma_kept_twice<T>(s: Seq<T>, keep: spec_fn(T) -> bool)
    ensures
        kept(kept(s, keep), keep) == kept(s, keep),
    decreases s.len(),
{
    if s.len() > 0 {
        lemma_kept_twice(s.drop_first(), keep);
        if keep(s[0]) {
            let rest = kept(s.drop_first(), keep);
            let out = seq![s[0]] + rest;
            assert(out[0] == s[0]);
            assert(out.drop_first() =~= rest);
        }
    }
}

} // verus!
