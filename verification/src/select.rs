//! Keeping the marked elements of a vector, in order.

use vstd::prelude::*;

verus! {

/// The elements of `s` whose mark in `m` is set, in order.
pub open spec fn mask_filter<T>(s: Seq<T>, m: Seq<bool>) -> Seq<T>
    decreases s.len(),
{
    if s.len() == 0 {
        Seq::empty()
    } else {
        let prefix = mask_filter(s.drop_last(), m);
        if m[s.len() - 1] {
            prefix.push(s.last())
        } else {
            prefix
        }
    }
}

/// A mask that agrees with `pred` on every element selects exactly `s.filter(pred)`.
pub proof fn lemma_mask_filter<T>(s: Seq<T>, m: Seq<bool>, pred: spec_fn(T) -> bool)
    requires
        m.len() >= s.len(),
        forall|i: int| 0 <= i < s.len() ==> m[i] == pred(#[trigger] s[i]),
    ensures
        mask_filter(s, m) == s.filter(pred),
    decreases s.len(),
{
    reveal(Seq::filter);
    if s.len() > 0 {
        let d = s.drop_last();
        assert forall|i: int| 0 <= i < d.len() implies m[i] == pred(#[trigger] d[i]) by {
            assert(d[i] == s[i]);
        }
        lemma_mask_filter(d, m, pred);
        assert(m[s.len() - 1] == pred(s[s.len() - 1]));
    } else {
        assert(s =~= Seq::<T>::empty());
    }
}

/// Moves the elements of `v` whose mark is set into a new vector, keeping their order.
pub fn keep_marked<T>(v: Vec<T>, keep: &Vec<bool>) -> (r: Vec<T>)
    requires
        keep@.len() == v@.len(),
    ensures
        r@ == mask_filter(v@, keep@),
{
    let mut v = v;
    let ghost all = v@;
    let mut out: Vec<T> = Vec::new();
    let mut i: usize = 0;
    while i < keep.len()
        invariant
            i <= keep@.len(),
            keep@.len() == all.len(),
            v@ == all.subrange(i as int, all.len() as int),
            out@ == mask_filter(all.subrange(0, i as int), keep@),
        decreases keep.len() - i,
    {
        proof {
            assert(all.subrange(0, i + 1).drop_last() =~= all.subrange(0, i as int));
            assert(v@[0] == all[i as int]);
        }
        let x = v.remove(0);
        if keep[i] {
            out.push(x);
        }
        proof {
            assert(v@ =~= all.subrange(i + 1, all.len() as int));
        }
        i = i + 1;
    }
    proof {
        assert(all.subrange(0, all.len() as int) =~= all);
    }
    out
}

} // verus!
