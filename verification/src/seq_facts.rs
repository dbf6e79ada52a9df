use vstd::prelude::*;
use vstd::seq_lib::group_seq_lib_default;

verus! {

broadcast use group_seq_lib_default;

/// Filtering after appending one element keeps the element exactly when the
/// predicate holds of it.
pub proof fn lemma_filter_push<A>(s: Seq<A>, x: A, pred: spec_fn(A) -> bool)
    ensures
        s.push(x).filter(pred) == if pred(x) {
            s.filter(pred).push(x)
        } else {
            s.filter(pred)
        },
{
    reveal(Seq::filter);
    assert(s.push(x).drop_last() =~= s);
    assert(s.push(x).last() == x);
}

/// Every element of a filtered sequence occurs in the original sequence.
pub proof fn lemma_filter_from<A>(s: Seq<A>, pred: spec_fn(A) -> bool)
    ensures
        forall|i: int|
            0 <= i < s.filter(pred).len() ==> s.contains(#[trigger] s.filter(pred)[i]),
    decreases s.len(),
{
    reveal(Seq::filter);
    if s.len() > 0 {
        let f = s.filter(pred);
        let d = s.drop_last();
        let fd = d.filter(pred);
        lemma_filter_from(d, pred);
        assert forall|i: int| 0 <= i < f.len() implies s.contains(f[i]) by {
            if i < fd.len() {
                assert(fd[i] == f[i]);
                assert(d.contains(fd[i]));
                let j = choose|j: int| 0 <= j < d.len() && d[j] == fd[i];
                assert(s[j] == f[i]);
            } else {
                assert(pred(s.last()));
                assert(f[i] == s.last());
                assert(s[s.len() - 1] == f[i]);
            }
        }
    }
}

/// A filter that keeps every element returns the sequence unchanged.
pub proof fn lemma_filter_all_true<A>(s: Seq<A>, pred: spec_fn(A) -> bool)
    requires
        forall|i: int| 0 <= i < s.len() ==> pred(#[trigger] s[i]),
    ensures
        s.filter(pred) == s,
    decreases s.len(),
{
    reveal(Seq::filter);
    if s.len() > 0 {
        let d = s.drop_last();
        lemma_filter_all_true(d, pred);
        assert(d.filter(pred).push(s.last()) =~= s);
    }
}

/// Filtering keeps elements' keys pairwise distinct.
pub proof fn lemma_filter_keeps_distinct_keys<A, K>(
    s: Seq<A>,
    pred: spec_fn(A) -> bool,
    key: spec_fn(A) -> K,
)
    requires
        forall|i: int, j: int| 0 <= i < j < s.len() ==> key(s[i]) != key(s[j]),
    ensures
        forall|i: int, j: int|
            0 <= i < j < s.filter(pred).len() ==> key(s.filter(pred)[i]) != key(s.filter(pred)[j]),
    decreases s.len(),
{
    reveal(Seq::filter);
    if s.len() > 0 {
        let d = s.drop_last();
        let f = s.filter(pred);
        let fd = d.filter(pred);
        assert forall|i: int, j: int| 0 <= i < j < d.len() implies key(d[i]) != key(d[j]) by {
            assert(d[i] == s[i] && d[j] == s[j]);
        }
        lemma_filter_keeps_distinct_keys(d, pred, key);
        lemma_filter_from(d, pred);
        assert forall|i: int, j: int| 0 <= i < j < f.len() implies key(f[i]) != key(f[j]) by {
            if pred(s.last()) && j == f.len() - 1 {
                assert(f[i] == fd[i]);
                assert(d.contains(fd[i]));
                let m = choose|m: int| 0 <= m < d.len() && d[m] == fd[i];
                assert(d[m] == s[m]);
                assert(key(s[m]) != key(s[s.len() - 1]));
                assert(f[j] == s.last());
            } else {
                assert(f[i] == fd[i] && f[j] == fd[j]);
            }
        }
    }
}

/// Replacing an element the filter drops by another it drops leaves the
/// filtered sequence unchanged.
pub proof fn lemma_filter_update_excluded<A>(s: Seq<A>, j: int, x: A, pred: spec_fn(A) -> bool)
    requires
        0 <= j < s.len(),
        !pred(s[j]),
        !pred(x),
    ensures
        s.update(j, x).filter(pred) == s.filter(pred),
    decreases s.len(),
{
    reveal(Seq::filter);
    let u = s.update(j, x);
    if j == s.len() - 1 {
        assert(u.drop_last() =~= s.drop_last());
        assert(u.last() == x);
        assert(s.last() == s[j]);
    } else {
        assert(u.drop_last() =~= s.drop_last().update(j, x));
        assert(u.last() == s.last());
        lemma_filter_update_excluded(s.drop_last(), j, x, pred);
    }
}

/// A first filter that keeps everything a second filter would keep can be
/// dropped.
pub proof fn lemma_filter_absorb<A>(s: Seq<A>, keep: spec_fn(A) -> bool, pred: spec_fn(A) -> bool)
    requires
        forall|i: int| 0 <= i < s.len() && pred(#[trigger] s[i]) ==> keep(s[i]),
    ensures
        s.filter(keep).filter(pred) == s.filter(pred),
    decreases s.len(),
{
    reveal(Seq::filter);
    if s.len() > 0 {
        let d = s.drop_last();
        assert forall|i: int| 0 <= i < d.len() && pred(#[trigger] d[i]) implies keep(d[i]) by {
            assert(d[i] == s[i]);
        }
        lemma_filter_absorb(d, keep, pred);
        assert(s.last() == s[s.len() - 1]);
        if keep(s.last()) {
            assert(s.filter(keep) == d.filter(keep).push(s.last()));
            lemma_filter_push(d.filter(keep), s.last(), pred);
        } else {
            assert(!pred(s.last()));
            assert(s.filter(keep) == d.filter(keep));
        }
    }
}

} // verus!
