//! Small general lemmas about `Seq::filter`, shared by the store's
//! row-filtering operations.

use vstd::prelude::*;

verus! {

/// Filtering a sequence extended by one element keeps the element exactly
/// when the predicate accepts it.
pub proof fn lemma_filter_push<T>(s: Seq<T>, x: T, pred: spec_fn(T) -> bool)
    ensures
        s.push(x).filter(pred) == if pred(x) {
            s.filter(pred).push(x)
        } else {
            s.filter(pred)
        },
{
    reveal(Seq::filter);
    assert(s.push(x).drop_last() =~= s);
    assert(s.push(x).last() == x);
}

/// Every element of a filtered sequence comes from the original sequence.
pub proof fn lemma_filter_membership<T>(s: Seq<T>, pred: spec_fn(T) -> bool)
    ensures
        forall|j: int|
            0 <= j < s.filter(pred).len() ==> exists|k: int|
                0 <= k < s.len() && s[k] == #[trigger] s.filter(pred)[j],
    decreases s.len(),
{
    reveal(Seq::filter);
    if s.len() == 0 {
    } else {
        let dl = s.drop_last();
        lemma_filter_membership(dl, pred);
        lemma_filter_push(dl, s.last(), pred);
        assert(dl.push(s.last()) =~= s);
        assert forall|j: int| 0 <= j < s.filter(pred).len() implies exists|k: int|
            0 <= k < s.len() && s[k] == #[trigger] s.filter(pred)[j] by {
            if j < dl.filter(pred).len() {
                assert(s.filter(pred)[j] == dl.filter(pred)[j]);
                let k = choose|k: int| 0 <= k < dl.len() && dl[k] == dl.filter(pred)[j];
                assert(s[k] == s.filter(pred)[j]);
            } else {
                assert(s.filter(pred)[j] == s.last());
                assert(s[s.len() - 1] == s.filter(pred)[j]);
            }
        }
    }
}

/// Filtering keeps elements distinct under a key when the original
/// sequence is distinct under that key.
pub proof fn lemma_filter_distinct<T, K>(s: Seq<T>, pred: spec_fn(T) -> bool, key: spec_fn(T) -> K)
    requires
        forall|i: int, j: int| 0 <= i < j < s.len() ==> key(#[trigger] s[i]) != key(#[trigger] s[j]),
    ensures
        forall|i: int, j: int|
            0 <= i < j < s.filter(pred).len() ==> key(#[trigger] s.filter(pred)[i]) != key(
                #[trigger] s.filter(pred)[j],
            ),
    decreases s.len(),
{
    reveal(Seq::filter);
    if s.len() == 0 {
    } else {
        let dl = s.drop_last();
        lemma_filter_distinct(dl, pred, key);
        lemma_filter_push(dl, s.last(), pred);
        lemma_filter_membership(dl, pred);
        assert(dl.push(s.last()) =~= s);
        assert forall|i: int, j: int| 0 <= i < j < s.filter(pred).len() implies key(
            #[trigger] s.filter(pred)[i],
        ) != key(#[trigger] s.filter(pred)[j]) by {
            if j < dl.filter(pred).len() {
                assert(s.filter(pred)[i] == dl.filter(pred)[i]);
                assert(s.filter(pred)[j] == dl.filter(pred)[j]);
            } else {
                assert(s.filter(pred)[j] == s.last());
                assert(s.filter(pred)[i] == dl.filter(pred)[i]);
                let k = choose|k: int| 0 <= k < dl.len() && dl[k] == dl.filter(pred)[i];
                assert(key(s[k]) != key(s[s.len() - 1]));
            }
        }
    }
}

/// A filter whose predicate rejects every element yields the empty
/// sequence.
pub proof fn lemma_filter_all_false<T>(s: Seq<T>, pred: spec_fn(T) -> bool)
    requires
        forall|i: int| 0 <= i < s.len() ==> !pred(#[trigger] s[i]),
    ensures
        s.filter(pred) =~= Seq::<T>::empty(),
    decreases s.len(),
{
    reveal(Seq::filter);
    if s.len() == 0 {
    } else {
        let dl = s.drop_last();
        lemma_filter_all_false(dl, pred);
        lemma_filter_push(dl, s.last(), pred);
        assert(dl.push(s.last()) =~= s);
    }
}

} // verus!
