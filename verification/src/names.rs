//! Directory names in the order the listings show them: the order in which
//! `str` values compare (character by character by code point, a proper
//! prefix first).

use vstd::prelude::*;
use crate::text::chars_of;

verus! {

broadcast use crate::text::lemma_chars_deep_view;

/// `a` sorts strictly before `b`.
pub open spec fn str_lt(a: Seq<char>, b: Seq<char>) -> bool
    decreases a.len(),
{
    if a.len() == 0 {
        b.len() > 0
    } else if b.len() == 0 {
        false
    } else if a[0] != b[0] {
        a[0] < b[0]
    } else {
        str_lt(a.drop_first(), b.drop_first())
    }
}

/// The order is transitive.
pub proof fn lemma_str_lt_transitive(a: Seq<char>, b: Seq<char>, c: Seq<char>)
    requires
        str_lt(a, b),
        str_lt(b, c),
    ensures
        str_lt(a, c),
    decreases a.len(),
{
    if a.len() > 0 && b.len() > 0 && c.len() > 0 && a[0] == b[0] && b[0] == c[0] {
        lemma_str_lt_transitive(a.drop_first(), b.drop_first(), c.drop_first());
    }
}

/// No string sorts before itself, and of two different strings one sorts
/// before the other.
pub proof fn lemma_str_lt_total(a: Seq<char>, b: Seq<char>)
    ensures
        !str_lt(a, a),
        a != b ==> (str_lt(a, b) || str_lt(b, a)),
        !(str_lt(a, b) && str_lt(b, a)),
    decreases a.len(),
{
    if a.len() > 0 {
        lemma_str_lt_total(a.drop_first(), a.drop_first());
        if b.len() > 0 {
            lemma_str_lt_total(a.drop_first(), b.drop_first());
            if a[0] == b[0] && a != b {
                assert(a.drop_first() != b.drop_first()) by {
                    if a.drop_first() == b.drop_first() {
                        assert(a =~= seq![a[0]] + a.drop_first());
                        assert(b =~= seq![b[0]] + b.drop_first());
                    }
                }
            }
        }
    } else {
        if b.len() == 0 {
            assert(a =~= b);
        }
    }
}

/// Whether `a` sorts strictly before `b`.
pub fn str_less(a: &str, b: &str) -> (r: bool)
    ensures
        r == str_lt(a@, b@),
{
    let x = chars_of(a);
    let y = chars_of(b);
    let mut i: usize = 0;
    assert(a@.skip(0) =~= a@);
    assert(b@.skip(0) =~= b@);
    while i < x.len() && i < y.len()
        invariant
            i <= x.len(),
            i <= y.len(),
            x@ == a@,
            y@ == b@,
            str_lt(a@, b@) == str_lt(a@.skip(i as int), b@.skip(i as int)),
        decreases x.len() - i,
    {
        let ghost s = a@.skip(i as int);
        let ghost t = b@.skip(i as int);
        assert(s[0] == x@[i as int]);
        assert(t[0] == y@[i as int]);
        if x[i] != y[i] {
            return x[i] < y[i];
        }
        assert(s.drop_first() =~= a@.skip(i + 1));
        assert(t.drop_first() =~= b@.skip(i + 1));
        i += 1;
    }
    x.len() - i < y.len() - i
}

/// Each string sorts before none of the strings before it.
pub open spec fn sorted(s: Seq<Seq<char>>) -> bool {
    forall|i: int, j: int| 0 <= i < j < s.len() ==> !str_lt(#[trigger] s[j], #[trigger] s[i])
}

/// The names in sorted order (the same names, as often as they occur).
pub fn sort_names(v: &Vec<String>) -> (r: Vec<String>)
    ensures
        sorted(r.deep_view()),
        r.deep_view().to_multiset() == v.deep_view().to_multiset(),
{
    let ghost vv = v.deep_view();
    let mut r: Vec<String> = Vec::new();
    let mut i: usize = 0;
    assert(vv.take(0) =~= Seq::<Seq<char>>::empty());
    assert(r.deep_view() =~= Seq::<Seq<char>>::empty());
    while i < v.len()
        invariant
            i <= v.len(),
            vv == v.deep_view(),
            sorted(r.deep_view()),
            r.deep_view().to_multiset() == vv.take(i as int).to_multiset(),
        decreases v.len() - i,
    {
        let x = v[i].as_str();
        let ghost rv = r.deep_view();
        let mut p: usize = 0;
        while p < r.len() && !str_less(x, r[p].as_str())
            invariant
                p <= r.len(),
                rv == r.deep_view(),
                forall|j: int| 0 <= j < p ==> !str_lt(x@, #[trigger] rv[j]),
            decreases r.len() - p,
        {
            assert(rv[p as int] == r@[p as int]@);
            p += 1;
        }
        proof {
            if p < r.len() {
                assert(rv[p as int] == r@[p as int]@);
            }
        }
        r.insert(p, v[i].clone());
        let ghost nv = rv.insert(p as int, x@);
        assert(r.deep_view() =~= nv);
        proof {
            assert forall|a: int, b: int| 0 <= a < b < nv.len() implies !str_lt(
                #[trigger] nv[b],
                #[trigger] nv[a],
            ) by {
                if a < p && b == p {
                    assert(nv[a] == rv[a]);
                } else if a == p && b > p {
                    assert(nv[b] == rv[b - 1]);
                    assert(str_lt(x@, rv[p as int]));
                    if str_lt(rv[b - 1], x@) {
                        lemma_str_lt_transitive(rv[b - 1], x@, rv[p as int]);
                        if b - 1 > p {
                            assert(!str_lt(rv[b - 1], rv[p as int]));
                        } else {
                            lemma_str_lt_total(rv[p as int], rv[p as int]);
                        }
                    }
                } else if a < p && b > p {
                    assert(nv[a] == rv[a]);
                    assert(nv[b] == rv[b - 1]);
                } else if b < p {
                    assert(nv[a] == rv[a]);
                    assert(nv[b] == rv[b]);
                } else {
                    assert(nv[a] == rv[a - 1]);
                    assert(nv[b] == rv[b - 1]);
                }
            }
            assert(vv.take(i + 1) =~= vv.take(i as int).push(vv[i as int]));
            assert(vv[i as int] == x@);
            vstd::seq_lib::to_multiset_insert(rv, p as int, x@);
            vstd::seq_lib::to_multiset_build(vv.take(i as int), x@);
        }
        i += 1;
    }
    assert(vv.take(v.len() as int) =~= vv);
    r
}

} // verus!
