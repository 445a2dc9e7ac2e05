use vstd::prelude::*;

verus! {

/// The indices in `[0, upto)` satisfying `p`, in increasing order.
pub open spec fn sel_idxs(p: spec_fn(int) -> bool, upto: int) -> Seq<int>
    decreases upto,
{
    if upto <= 0 {
        Seq::empty()
    } else if p(upto - 1) {
        sel_idxs(p, upto - 1).push(upto - 1)
    } else {
        sel_idxs(p, upto - 1)
    }
}

/// Basic facts about `sel_idxs`: its entries lie in `[0, upto)` and satisfy
/// `p`, they are strictly increasing, and every index satisfying `p` occurs.
pub proof fn lemma_sel_idxs(p: spec_fn(int) -> bool, upto: int)
    requires
        0 <= upto,
    ensures
        forall|j: int|
            0 <= j < sel_idxs(p, upto).len() ==> 0 <= #[trigger] sel_idxs(p, upto)[j] < upto && p(
                sel_idxs(p, upto)[j],
            ),
        forall|a: int, b: int|
            0 <= a < b < sel_idxs(p, upto).len() ==> sel_idxs(p, upto)[a] < sel_idxs(p, upto)[b],
        forall|i: int| 0 <= i < upto && p(i) ==> sel_idxs(p, upto).contains(i),
    decreases upto,
{
    if upto > 0 {
        lemma_sel_idxs(p, upto - 1);
        let prev = sel_idxs(p, upto - 1);
        let cur = sel_idxs(p, upto);
        if p(upto - 1) {
            assert(cur == prev.push(upto - 1));
            assert forall|i: int| 0 <= i < upto && p(i) implies cur.contains(i) by {
                if i < upto - 1 {
                    assert(prev.contains(i));
                    let j = choose|j: int| 0 <= j < prev.len() && prev[j] == i;
                    assert(cur[j] == i);
                } else {
                    assert(cur[cur.len() - 1] == i);
                }
            }
        } else {
            assert(cur == prev);
            assert forall|i: int| 0 <= i < upto && p(i) implies cur.contains(i) by {
                assert(i != upto - 1);
                assert(prev.contains(i));
            }
        }
    }
}

/// A vector of `usize` indices denotes the same sequence as a spec-level
/// sequence of `int` indices.
pub open spec fn seq_matches(v: Seq<usize>, s: Seq<int>) -> bool {
    &&& v.len() == s.len()
    &&& forall|j: int| 0 <= j < v.len() ==> #[trigger] v[j] as int == s[j]
}


/// The sum of `f` over the entries of a sequence.
pub open spec fn sum_over<A>(s: Seq<A>, f: spec_fn(A) -> int) -> int
    decreases s.len(),
{
    if s.len() == 0 {
        0
    } else {
        sum_over(s.drop_last(), f) + f(s[s.len() - 1])
    }
}

/// Removing one entry takes exactly its contribution out of the sum.
pub proof fn lemma_sum_over_remove<A>(s: Seq<A>, f: spec_fn(A) -> int, i: int)
    requires
        0 <= i < s.len(),
    ensures
        sum_over(s, f) == sum_over(s.remove(i), f) + f(s[i]),
    decreases s.len(),
{
    if i == s.len() - 1 {
        assert(s.remove(i) =~= s.drop_last());
    } else {
        assert(s.remove(i).drop_last() =~= s.drop_last().remove(i));
        lemma_sum_over_remove(s.drop_last(), f, i);
        assert(s.remove(i)[s.remove(i).len() - 1] == s[s.len() - 1]);
        assert(s.drop_last()[i] == s[i]);
    }
}

/// Sequences with the same multiset of entries have the same sum.
pub proof fn lemma_sum_over_multiset<A>(s1: Seq<A>, s2: Seq<A>, f: spec_fn(A) -> int)
    requires
        s1.to_multiset() == s2.to_multiset(),
    ensures
        sum_over(s1, f) == sum_over(s2, f),
    decreases s2.len(),
{
    broadcast use vstd::seq_lib::group_to_multiset_ensures;

    if s2.len() == 0 {
        assert(s1.to_multiset().len() == 0);
        assert(s1.len() == 0);
    } else {
        let x = s2[s2.len() - 1];
        assert(s2.contains(x));
        assert(s2.to_multiset().count(x) > 0);
        assert(s1.to_multiset().count(x) > 0);
        assert(s1.contains(x));
        let i = choose|i: int| 0 <= i < s1.len() && s1[i] == x;
        lemma_sum_over_remove(s1, f, i);
        assert(s2.drop_last() =~= s2.remove(s2.len() - 1));
        assert(s1.remove(i).to_multiset() =~= s1.to_multiset().remove(x));
        assert(s2.remove(s2.len() - 1).to_multiset() =~= s2.to_multiset().remove(x));
        lemma_sum_over_multiset(s1.remove(i), s2.drop_last(), f);
    }
}


/// A sum of non-negative contributions is non-negative.
pub proof fn lemma_sum_over_nonneg<A>(s: Seq<A>, f: spec_fn(A) -> int)
    requires
        forall|x: A| #[trigger] f(x) >= 0,
    ensures
        sum_over(s, f) >= 0,
    decreases s.len(),
{
    if s.len() > 0 {
        lemma_sum_over_nonneg(s.drop_last(), f);
    }
}

/// With non-negative contributions, a prefix sum never exceeds the total.
pub proof fn lemma_sum_over_prefix<A>(s: Seq<A>, f: spec_fn(A) -> int, k: int)
    requires
        0 <= k <= s.len(),
        forall|x: A| #[trigger] f(x) >= 0,
    ensures
        sum_over(s.take(k), f) <= sum_over(s, f),
    decreases s.len() - k,
{
    if k == s.len() {
        assert(s.take(k) =~= s);
    } else {
        lemma_sum_over_prefix(s, f, k + 1);
        assert(s.take(k + 1).drop_last() =~= s.take(k));
        assert(f(s.take(k + 1)[k]) >= 0);
    }
}

/// Pointwise dominated contributions give a dominated sum.
pub proof fn lemma_sum_over_le<A>(s: Seq<A>, f: spec_fn(A) -> int, g: spec_fn(A) -> int)
    requires
        forall|x: A| #[trigger] f(x) <= #[trigger] g(x),
    ensures
        sum_over(s, f) <= sum_over(s, g),
    decreases s.len(),
{
    if s.len() > 0 {
        lemma_sum_over_le(s.drop_last(), f, g);
    }
}

/// A sum of contributions that are each at most 1 is at most the length.
pub proof fn lemma_sum_over_le_len<A>(s: Seq<A>, f: spec_fn(A) -> int)
    requires
        forall|x: A| #[trigger] f(x) <= 1,
    ensures
        sum_over(s, f) <= s.len(),
    decreases s.len(),
{
    if s.len() > 0 {
        lemma_sum_over_le_len(s.drop_last(), f);
    }
}

} // verus!
