//! Lexicographic order of strings by character, the order in which `String`s compare, and a
//! sort of strings in that order.
use crate::seqs::{lemma_filter_insert, lemma_filter_none};
use vstd::prelude::*;
use vstd::string::StrSliceExecFns;

verus! {

/// `a` comes strictly before `b`: at the first position where they differ `a` has the
/// smaller character, or `a` is a proper prefix of `b`.
pub open spec fn lex_lt(a: Seq<char>, b: Seq<char>) -> bool
    decreases a.len(),
{
    if a.len() == 0 {
        b.len() > 0
    } else if b.len() == 0 {
        false
    } else if a[0] != b[0] {
        (a[0] as int) < (b[0] as int)
    } else {
        lex_lt(a.drop_first(), b.drop_first())
    }
}

pub proof fn lemma_lex_irreflexive(a: Seq<char>)
    ensures
        !lex_lt(a, a),
    decreases a.len(),
{
    if a.len() > 0 {
        lemma_lex_irreflexive(a.drop_first());
    }
}

pub proof fn lemma_lex_total(a: Seq<char>, b: Seq<char>)
    ensures
        a == b || lex_lt(a, b) || lex_lt(b, a),
        !(lex_lt(a, b) && lex_lt(b, a)),
    decreases a.len(),
{
    if a.len() == 0 {
        if b.len() == 0 {
            assert(a =~= b);
        }
    } else if b.len() == 0 {
    } else if a[0] != b[0] {
        assert((a[0] as int) != (b[0] as int));
    } else {
        lemma_lex_total(a.drop_first(), b.drop_first());
        if a.drop_first() == b.drop_first() {
            assert(a =~= seq![a[0]] + a.drop_first());
            assert(b =~= seq![b[0]] + b.drop_first());
        }
    }
}

pub proof fn lemma_lex_transitive(a: Seq<char>, b: Seq<char>, c: Seq<char>)
    requires
        lex_lt(a, b),
        lex_lt(b, c),
    ensures
        lex_lt(a, c),
    decreases a.len(),
{
    if a.len() > 0 && b.len() > 0 && c.len() > 0 {
        if a[0] == b[0] && b[0] == c[0] {
            lemma_lex_transitive(a.drop_first(), b.drop_first(), c.drop_first());
        }
    }
}

/// With equal prefixes of length `i`, the order is decided by what follows.
proof fn lemma_lex_skip(a: Seq<char>, b: Seq<char>, i: int)
    requires
        0 <= i <= a.len(),
        i <= b.len(),
        a.take(i) == b.take(i),
    ensures
        lex_lt(a, b) == lex_lt(a.skip(i), b.skip(i)),
    decreases i,
{
    if i > 0 {
        assert(a[0] == a.take(i)[0] && b[0] == b.take(i)[0]);
        assert(a.drop_first().take(i - 1) =~= a.take(i).drop_first());
        assert(b.drop_first().take(i - 1) =~= b.take(i).drop_first());
        lemma_lex_skip(a.drop_first(), b.drop_first(), i - 1);
        assert(a.drop_first().skip(i - 1) =~= a.skip(i));
        assert(b.drop_first().skip(i - 1) =~= b.skip(i));
    } else {
        assert(a.skip(0) =~= a);
        assert(b.skip(0) =~= b);
    }
}

/// Whether `a` comes strictly before `b`.
pub fn lex_less(a: &String, b: &String) -> (r: bool)
    ensures
        r == lex_lt(a@, b@),
{
    let sa = a.as_str();
    let sb = b.as_str();
    let la = sa.unicode_len();
    let lb = sb.unicode_len();
    let mut i: usize = 0;
    while i < la && i < lb
        invariant
            i <= la,
            i <= lb,
            la == a@.len(),
            lb == b@.len(),
            sa@ == a@,
            sb@ == b@,
            a@.take(i as int) == b@.take(i as int),
        decreases la - i,
    {
        let ca = sa.get_char(i);
        let cb = sb.get_char(i);
        if ca != cb {
            proof {
                lemma_lex_skip(a@, b@, i as int);
                assert(a@.skip(i as int)[0] == ca);
                assert(b@.skip(i as int)[0] == cb);
            }
            return (ca as u32) < (cb as u32);
        }
        proof {
            assert(a@.take(i + 1) =~= a@.take(i as int).push(ca));
            assert(b@.take(i + 1) =~= b@.take(i as int).push(cb));
        }
        i += 1;
    }
    proof {
        lemma_lex_skip(a@, b@, i as int);
    }
    la < lb
}

pub open spec fn views(s: Seq<String>) -> Seq<Seq<char>> {
    s.map_values(|x: String| x@)
}

pub open spec fn view_is(k: Seq<char>) -> spec_fn(Seq<char>) -> bool {
    |x: Seq<char>| x == k
}

/// Every string comes no later than the strings after it.
pub open spec fn lex_sorted(s: Seq<Seq<char>>) -> bool {
    forall|i: int, j: int| #![trigger s[i], s[j]] 0 <= i < j < s.len() ==> !lex_lt(s[j], s[i])
}

/// `out` holds the strings of `inp`, each as often, in lexicographic order.
pub open spec fn is_lex_sort(out: Seq<Seq<char>>, inp: Seq<Seq<char>>) -> bool {
    &&& out.len() == inp.len()
    &&& lex_sorted(out)
    &&& forall|k: Seq<char>| #[trigger] out.filter(view_is(k)) == inp.filter(view_is(k))
}

proof fn lemma_lex_insert(out: Seq<Seq<char>>, pos: int, x: Seq<char>, pre: Seq<Seq<char>>)
    requires
        0 <= pos <= out.len(),
        lex_sorted(out),
        forall|i: int| 0 <= i < pos ==> !lex_lt(x, #[trigger] out[i]),
        forall|i: int| pos <= i < out.len() ==> lex_lt(x, #[trigger] out[i]),
        forall|k: Seq<char>| #[trigger] out.filter(view_is(k)) == pre.filter(view_is(k)),
    ensures
        lex_sorted(out.insert(pos, x)),
        forall|k: Seq<char>| #[trigger] out.insert(pos, x).filter(view_is(k)) == pre.push(
            x,
        ).filter(view_is(k)),
{
    let ins = out.insert(pos, x);
    assert forall|i: int, j: int| #![trigger ins[i], ins[j]] 0 <= i < j < ins.len() implies !lex_lt(
        ins[j],
        ins[i],
    ) by {
        if j < pos {
            assert(ins[i] == out[i] && ins[j] == out[j]);
        } else if j == pos {
            assert(ins[i] == out[i]);
        } else if i < pos {
            assert(ins[i] == out[i] && ins[j] == out[j - 1]);
            if lex_lt(out[j - 1], out[i]) {
                lemma_lex_transitive(x, out[j - 1], out[i]);
            }
        } else if i == pos {
            assert(ins[j] == out[j - 1]);
            lemma_lex_total(x, out[j - 1]);
        } else {
            assert(ins[i] == out[i - 1] && ins[j] == out[j - 1]);
        }
    }
    assert forall|k: Seq<char>| #[trigger] ins.filter(view_is(k)) == pre.push(x).filter(
        view_is(k),
    ) by {
        let f = view_is(k);
        lemma_filter_insert(out, pos, x, f);
        pre.lemma_filter_push(x, f);
        assert(out.filter(f) == pre.filter(f));
        if k == x {
            assert forall|j: int| 0 <= j < out.skip(pos).len() implies !f(
                #[trigger] out.skip(pos)[j],
            ) by {
                assert(out.skip(pos)[j] == out[pos + j]);
                lemma_lex_irreflexive(x);
            }
            lemma_filter_none(out.skip(pos), f);
            assert(ins.filter(f) =~= pre.filter(f).push(x));
        } else {
            assert(ins.filter(f) =~= out.filter(f));
        }
    }
}

/// The strings of `v` in lexicographic order.
pub fn sort_strings(v: Vec<String>) -> (out: Vec<String>)
    ensures
        is_lex_sort(views(out@), views(v@)),
{
    let mut out: Vec<String> = Vec::new();
    let mut i: usize = 0;
    let ghost inp = views(v@);
    proof {
        assert forall|k: Seq<char>| #[trigger] views(out@).filter(view_is(k)) == inp.take(
            0,
        ).filter(view_is(k)) by {
            reveal(Seq::filter);
            assert(inp.take(0) =~= Seq::<Seq<char>>::empty());
            assert(views(out@) =~= Seq::<Seq<char>>::empty());
        }
    }
    while i < v.len()
        invariant
            i <= v@.len(),
            inp == views(v@),
            out@.len() == i,
            lex_sorted(views(out@)),
            forall|k: Seq<char>| #[trigger] views(out@).filter(view_is(k)) == inp.take(
                i as int,
            ).filter(view_is(k)),
        decreases v@.len() - i,
    {
        let x = &v[i];
        let mut pos: usize = 0;
        while pos < out.len() && !lex_less(x, &out[pos])
            invariant
                pos <= out@.len(),
                forall|a: int| 0 <= a < pos ==> !lex_lt(x@, #[trigger] views(out@)[a]),
            decreases out@.len() - pos,
        {
            pos += 1;
        }
        proof {
            let o = views(out@);
            assert forall|a: int| pos <= a < o.len() implies lex_lt(x@, #[trigger] o[a]) by {
                if a > pos {
                    assert(!lex_lt(o[a], o[pos as int]));
                    lemma_lex_total(o[pos as int], o[a]);
                    if o[pos as int] != o[a] {
                        lemma_lex_transitive(x@, o[pos as int], o[a]);
                    }
                }
            }
            lemma_lex_insert(o, pos as int, x@, inp.take(i as int));
            assert(inp.take(i + 1) =~= inp.take(i as int).push(x@));
        }
        let ghost before = out@;
        out.insert(pos, x.clone());
        proof {
            assert(views(out@) =~= views(before).insert(pos as int, x@));
        }
        i += 1;
    }
    proof {
        assert(inp.take(v@.len() as int) =~= inp);
    }
    out
}

} // verus!
