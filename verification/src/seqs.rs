//! Sequence facts shared by the searches, filters and sorts of the library.
use vstd::prelude::*;

verus! {

/// Index of the first element of `s` that satisfies `p`, or `s.len()` when none does.
pub open spec fn first_index<A>(s: Seq<A>, p: spec_fn(A) -> bool) -> int
    decreases s.len(),
{
    if s.len() == 0 {
        0
    } else if p(s[0]) {
        0
    } else {
        1 + first_index(s.drop_first(), p)
    }
}

pub proof fn lemma_first_index_bounds<A>(s: Seq<A>, p: spec_fn(A) -> bool)
    ensures
        0 <= first_index(s, p) <= s.len(),
        first_index(s, p) < s.len() ==> p(s[first_index(s, p)]),
        forall|j: int| 0 <= j < first_index(s, p) ==> !p(#[trigger] s[j]),
    decreases s.len(),
{
    if s.len() > 0 && !p(s[0]) {
        lemma_first_index_bounds(s.drop_first(), p);
        assert forall|j: int| 0 <= j < first_index(s, p) implies !p(#[trigger] s[j]) by {
            if j > 0 {
                assert(s[j] == s.drop_first()[j - 1]);
            }
        }
    }
}

/// An index `i` before which nothing satisfies `p`, and at which `p` holds (or which is
/// the end of `s`), is the first index.
pub proof fn lemma_first_index_is<A>(s: Seq<A>, p: spec_fn(A) -> bool, i: int)
    requires
        0 <= i <= s.len(),
        i < s.len() ==> p(s[i]),
        forall|j: int| 0 <= j < i ==> !p(#[trigger] s[j]),
    ensures
        first_index(s, p) == i,
    decreases s.len(),
{
    if s.len() > 0 && i > 0 {
        assert(!p(s[0]));
        let t = s.drop_first();
        assert forall|j: int| 0 <= j < i - 1 implies !p(#[trigger] t[j]) by {
            assert(t[j] == s[j + 1]);
        }
        lemma_first_index_is(t, p, i - 1);
    }
}

/// No element satisfies `p` exactly when the first index is the end.
pub proof fn lemma_first_index_none<A>(s: Seq<A>, p: spec_fn(A) -> bool)
    requires
        forall|j: int| 0 <= j < s.len() ==> !p(#[trigger] s[j]),
    ensures
        first_index(s, p) == s.len(),
{
    lemma_first_index_is(s, p, s.len() as int);
}

pub proof fn lemma_filter_map_add<A, B>(a: Seq<A>, b: Seq<A>, f: spec_fn(A) -> Option<B>)
    ensures
        (a + b).filter_map(f) == a.filter_map(f) + b.filter_map(f),
    decreases b.len(),
{
    if b.len() == 0 {
        assert(a + b =~= a);
        assert(a.filter_map(f) + b.filter_map(f) =~= a.filter_map(f));
    } else {
        let b0 = b.drop_last();
        lemma_filter_map_add(a, b0, f);
        assert((a + b).drop_last() =~= a + b0);
        assert((a + b).last() == b.last());
        match f(b.last()) {
            Option::Some(x) => {
                assert(a.filter_map(f) + b0.filter_map(f) + seq![x] =~= a.filter_map(f) + (
                b0.filter_map(f) + seq![x]));
            },
            Option::None => {},
        }
    }
}

/// Inserting `x` at position `k` splits a filter into the part before, `x` itself, and the
/// part after.
pub proof fn lemma_filter_insert<A>(s: Seq<A>, k: int, x: A, f: spec_fn(A) -> bool)
    requires
        0 <= k <= s.len(),
    ensures
        s.insert(k, x).filter(f) == s.take(k).filter(f) + (if f(x) {
            seq![x]
        } else {
            Seq::<A>::empty()
        }) + s.skip(k).filter(f),
        s.filter(f) == s.take(k).filter(f) + s.skip(k).filter(f),
{
    let ins = s.insert(k, x);
    assert(ins =~= s.take(k) + seq![x] + s.skip(k));
    assert(s =~= s.take(k) + s.skip(k));
    Seq::filter_distributes_over_add(s.take(k) + seq![x], s.skip(k), f);
    Seq::filter_distributes_over_add(s.take(k), seq![x], f);
    Seq::filter_distributes_over_add(s.take(k), s.skip(k), f);
    reveal_with_fuel(Seq::filter, 2);
    assert(seq![x].drop_last() =~= Seq::<A>::empty());
    if f(x) {
        assert(seq![x].filter(f) =~= seq![x]);
    } else {
        assert(seq![x].filter(f) =~= Seq::<A>::empty());
    }
}

/// A filter keeps nothing when no element satisfies the predicate.
pub proof fn lemma_filter_none<A>(s: Seq<A>, f: spec_fn(A) -> bool)
    requires
        forall|j: int| 0 <= j < s.len() ==> !f(#[trigger] s[j]),
    ensures
        s.filter(f) == Seq::<A>::empty(),
    decreases s.len(),
{
    reveal(Seq::filter);
    if s.len() > 0 {
        let t = s.drop_last();
        assert forall|j: int| 0 <= j < t.len() implies !f(#[trigger] t[j]) by {
            assert(t[j] == s[j]);
        }
        lemma_filter_none(t, f);
        assert(!f(s[s.len() - 1]));
    }
    assert(s.filter(f) =~= Seq::<A>::empty());
}

/// A filter keeps everything when every element satisfies the predicate.
pub proof fn lemma_filter_all<A>(s: Seq<A>, f: spec_fn(A) -> bool)
    requires
        forall|j: int| 0 <= j < s.len() ==> f(#[trigger] s[j]),
    ensures
        s.filter(f) == s,
    decreases s.len(),
{
    reveal(Seq::filter);
    if s.len() > 0 {
        let t = s.drop_last();
        assert forall|j: int| 0 <= j < t.len() implies f(#[trigger] t[j]) by {
            assert(t[j] == s[j]);
        }
        lemma_filter_all(t, f);
        assert(f(s[s.len() - 1]));
        assert(t.push(s.last()) =~= s);
    }
    assert(s.filter(f) =~= s);
}


/// Every element kept by a filter is an element of the filtered sequence.
pub proof fn lemma_filter_contained<A>(s: Seq<A>, f: spec_fn(A) -> bool, i: int)
    requires
        0 <= i < s.filter(f).len(),
    ensures
        s.contains(s.filter(f)[i]),
        f(s.filter(f)[i]),
{
    s.lemma_filter_pred(f, i);
    assert(s.filter(f).contains(s.filter(f)[i]));
    s.lemma_filter_contains_rev(f, s.filter(f)[i]);
}

/// A relation that holds between every earlier and later element of `s` still holds after
/// filtering.
pub proof fn lemma_filter_pairwise<A>(s: Seq<A>, f: spec_fn(A) -> bool, r: spec_fn(A, A) -> bool)
    requires
        forall|i: int, j: int| #![trigger s[i], s[j]] 0 <= i < j < s.len() ==> r(s[i], s[j]),
    ensures
        forall|i: int, j: int|
            #![trigger s.filter(f)[i], s.filter(f)[j]]
            0 <= i < j < s.filter(f).len() ==> r(s.filter(f)[i], s.filter(f)[j]),
    decreases s.len(),
{
    reveal(Seq::filter);
    if s.len() > 0 {
        let t = s.drop_last();
        assert forall|i: int, j: int| #![trigger t[i], t[j]] 0 <= i < j < t.len() implies r(
            t[i],
            t[j],
        ) by {
            assert(t[i] == s[i] && t[j] == s[j]);
        }
        lemma_filter_pairwise(t, f, r);
        let ft = t.filter(f);
        if f(s.last()) {
            let fs = s.filter(f);
            assert(fs == ft.push(s.last()));
            assert forall|i: int, j: int|
                #![trigger fs[i], fs[j]]
                0 <= i < j < fs.len() implies r(fs[i], fs[j]) by {
                if j < ft.len() {
                    assert(fs[i] == ft[i] && fs[j] == ft[j]);
                } else {
                    assert(fs[j] == s.last());
                    assert(fs[i] == ft[i]);
                    lemma_filter_contained(t, f, i);
                    let k = choose|k: int| 0 <= k < t.len() && t[k] == ft[i];
                    assert(s[k] == t[k]);
                    assert(s[s.len() - 1] == s.last());
                }
            }
        }
    }
}

/// Sequences whose elements satisfy the two predicates alike have the same first index.
pub proof fn lemma_first_index_congruent<A, B>(
    s1: Seq<A>,
    p1: spec_fn(A) -> bool,
    s2: Seq<B>,
    p2: spec_fn(B) -> bool,
)
    requires
        s1.len() == s2.len(),
        forall|i: int| 0 <= i < s1.len() ==> p1(#[trigger] s1[i]) == p2(s2[i]),
    ensures
        first_index(s1, p1) == first_index(s2, p2),
{
    lemma_first_index_bounds(s1, p1);
    let i = first_index(s1, p1);
    assert forall|j: int| 0 <= j < i implies !p2(#[trigger] s2[j]) by {
        assert(!p1(s1[j]));
    }
    if i < s1.len() {
        assert(p1(s1[i]));
    }
    lemma_first_index_is(s2, p2, i);
}

} // verus!
