//! Small general facts about sequence filtering that several modules share.

use vstd::prelude::*;

verus! {

/// Filtering one more element appends it exactly when it matches.
pub(crate) proof fn lemma_filter_take_step<A>(s: Seq<A>, pred: spec_fn(A) -> bool, j: int)
    requires
        0 <= j < s.len(),
    ensures
        s.take(j + 1).filter(pred) == if pred(s[j]) {
            s.take(j).filter(pred).push(s[j])
        } else {
            s.take(j).filter(pred)
        },
{
    reveal(Seq::filter);
    assert(s.take(j + 1).drop_last() =~= s.take(j));
    assert(s.take(j + 1).last() == s[j]);
    if pred(s[j]) {
        assert(s.take(j + 1).filter(pred) =~= s.take(j).filter(pred).push(s[j]));
    }
}

/// Filtering is idempotent: everything a filter keeps, it keeps again.
pub(crate) proof fn lemma_filter_idempotent<A>(s: Seq<A>, pred: spec_fn(A) -> bool)
    ensures
        s.filter(pred).filter(pred) == s.filter(pred),
    decreases s.len(),
{
    reveal(Seq::filter);
    if s.len() == 0 {
        assert(s.filter(pred) =~= s);
    } else {
        lemma_filter_idempotent(s.drop_last(), pred);
        let f = s.filter(pred);
        if pred(s.last()) {
            assert(f == s.drop_last().filter(pred).push(s.last()));
            assert(f.drop_last() =~= s.drop_last().filter(pred));
            assert(f.last() == s.last());
            assert(f.filter(pred) =~= f);
        } else {
            assert(f == s.drop_last().filter(pred));
        }
    }
}

/// An element of a filtered sequence is an element of the sequence.
pub(crate) proof fn lemma_filter_elem_of<A>(s: Seq<A>, pred: spec_fn(A) -> bool, j: int)
    requires
        0 <= j < s.filter(pred).len(),
    ensures
        s.contains(s.filter(pred)[j]),
    decreases s.len(),
{
    reveal(Seq::filter);
    if s.len() == 0 {
    } else {
        let f = s.filter(pred);
        let rest = s.drop_last().filter(pred);
        if pred(s.last()) {
            assert(f == rest.push(s.last()));
            if j < rest.len() {
                lemma_filter_elem_of(s.drop_last(), pred, j);
                let k = choose|k: int| 0 <= k < s.drop_last().len() && s.drop_last()[k] == rest[j];
                assert(s[k] == f[j]);
            } else {
                assert(f[j] == s.last());
                assert(s[s.len() - 1] == s.last());
            }
        } else {
            assert(f == rest);
            lemma_filter_elem_of(s.drop_last(), pred, j);
            let k = choose|k: int| 0 <= k < s.drop_last().len() && s.drop_last()[k] == rest[j];
            assert(s[k] == f[j]);
        }
    }
}

} // verus!
