use vstd::prelude::*;

verus! {

/// Two sequences with the same multiset of elements are permutations of one
/// another: distinctness and the set of elements carry over.
pub proof fn lemma_permutation_distinct<A>(a: Seq<A>, b: Seq<A>)
    requires
        a.to_multiset() == b.to_multiset(),
        a.no_duplicates(),
    ensures
        b.no_duplicates(),
        a.to_set() == b.to_set(),
{
    broadcast use vstd::seq_lib::group_to_multiset_ensures;

    a.lemma_multiset_has_no_duplicates();
    b.lemma_multiset_has_no_duplicates_conv();
    assert forall|x: A| a.contains(x) == b.contains(x) by {
        assert(a.contains(x) <==> a.to_multiset().count(x) > 0);
        assert(b.contains(x) <==> b.to_multiset().count(x) > 0);
    }
    assert(a.to_set() =~= b.to_set());
}

/// Every element of a filtered sequence comes from the sequence itself.
pub proof fn lemma_filter_subset<A>(s: Seq<A>, pred: spec_fn(A) -> bool)
    ensures
        forall|i: int|
            0 <= i < s.filter(pred).len() ==> s.contains(#[trigger] s.filter(pred)[i]),
    decreases s.len(),
{
    reveal(Seq::filter);
    if s.len() > 0 {
        let rest = s.drop_last();
        let out = s.filter(pred);
        lemma_filter_subset(rest, pred);
        assert forall|i: int| 0 <= i < out.len() implies s.contains(out[i]) by {
            if pred(s.last()) && i == out.len() - 1 {
                assert(s[s.len() - 1] == out[i]);
            } else {
                assert(out[i] == rest.filter(pred)[i]);
                assert(rest.contains(rest.filter(pred)[i]));
                let j = choose|j: int| 0 <= j < rest.len() && rest[j] == out[i];
                assert(s[j] == out[i]);
            }
        }
    }
}

/// Filtering keeps a sequence free of duplicates.
pub proof fn lemma_filter_no_duplicates<A>(s: Seq<A>, pred: spec_fn(A) -> bool)
    requires
        s.no_duplicates(),
    ensures
        s.filter(pred).no_duplicates(),
    decreases s.len(),
{
    broadcast use vstd::prelude::Seq::lemma_filter_push;

    if s.len() == 0 {
        reveal(Seq::filter);
    } else {
        let rest = s.drop_last();
        assert(rest.no_duplicates());
        lemma_filter_no_duplicates(rest, pred);
        assert(s =~= rest.push(s.last()));
        if pred(s.last()) {
            lemma_filter_subset(rest, pred);
            let f = rest.filter(pred);
            assert(!rest.contains(s.last())) by {
                if rest.contains(s.last()) {
                    let j = choose|j: int| 0 <= j < rest.len() && rest[j] == s.last();
                    assert(s[j] == s[s.len() - 1]);
                }
            }
            assert(s.filter(pred) == f.push(s.last()));
            assert forall|i: int, j: int|
                0 <= i < f.push(s.last()).len() && 0 <= j < f.push(s.last()).len() && i
                    != j implies f.push(s.last())[i] != f.push(s.last())[j] by {
                if i < f.len() && j < f.len() {
                    assert(f[i] != f[j]);
                } else if i == f.len() && j < f.len() {
                    assert(rest.contains(f[j]));
                    assert(f.push(s.last())[i] == s.last());
                } else if j == f.len() && i < f.len() {
                    assert(rest.contains(f[i]));
                    assert(f.push(s.last())[j] == s.last());
                }
            }
        }
    }
}

} // verus!
