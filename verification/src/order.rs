use vstd::prelude::*;
use vstd::string::*;
use vstd::assert_multisets_equal;
use vstd::multiset::Multiset;

verus! {

/// Lexicographic order on strings by character code: the order of the sort
/// operation on floating point and text columns.
pub open spec fn lex_le(a: Seq<char>, b: Seq<char>) -> bool
    decreases a.len(),
{
    if a.len() == 0 {
        true
    } else if b.len() == 0 {
        false
    } else if (a[0] as u32) == (b[0] as u32) {
        lex_le(a.drop_first(), b.drop_first())
    } else {
        (a[0] as u32) < (b[0] as u32)
    }
}

/// Any two strings compare.
pub proof fn lemma_lex_total(a: Seq<char>, b: Seq<char>)
    ensures
        lex_le(a, b) || lex_le(b, a),
    decreases a.len(),
{
    if a.len() > 0 && b.len() > 0 && (a[0] as u32) == (b[0] as u32) {
        lemma_lex_total(a.drop_first(), b.drop_first());
    }
}

/// The order is transitive.
pub proof fn lemma_lex_trans(a: Seq<char>, b: Seq<char>, c: Seq<char>)
    requires
        lex_le(a, b),
        lex_le(b, c),
    ensures
        lex_le(a, c),
    decreases a.len(),
{
    if a.len() > 0 && b.len() > 0 && c.len() > 0 {
        if (a[0] as u32) == (b[0] as u32) && (b[0] as u32) == (c[0] as u32) {
            lemma_lex_trans(a.drop_first(), b.drop_first(), c.drop_first());
        }
    }
}

/// A sequence of integers in ascending order.
pub open spec fn sorted_ints(s: Seq<int>) -> bool {
    forall|i: int, j: int| 0 <= i < j < s.len() ==> s[i] <= s[j]
}

/// A sequence of strings in ascending lexicographic order.
pub open spec fn sorted_lex(s: Seq<Seq<char>>) -> bool {
    forall|i: int, j: int| 0 <= i < j < s.len() ==> lex_le(s[i], s[j])
}

/// Compares two strings lexicographically by character code.
pub fn str_lex_le(a: &String, b: &String) -> (r: bool)
    ensures
        r == lex_le(a@, b@),
{
    let sa = a.as_str();
    let sb = b.as_str();
    let na = sa.unicode_len();
    let nb = sb.unicode_len();
    let mut i: usize = 0;
    proof {
        assert(a@.skip(0) =~= a@);
        assert(b@.skip(0) =~= b@);
    }
    while i < na && i < nb
        invariant
            0 <= i,
            i <= na,
            i <= nb,
            na == a@.len(),
            nb == b@.len(),
            sa@ == a@,
            sb@ == b@,
            lex_le(a@, b@) == lex_le(a@.skip(i as int), b@.skip(i as int)),
        decreases na - i,
    {
        let ca = sa.get_char(i);
        let cb = sb.get_char(i);
        proof {
            assert(a@.skip(i as int)[0] == a@[i as int]);
            assert(b@.skip(i as int)[0] == b@[i as int]);
            assert(a@.skip(i as int).drop_first() =~= a@.skip(i + 1));
            assert(b@.skip(i as int).drop_first() =~= b@.skip(i + 1));
        }
        if ca as u32 != cb as u32 {
            return (ca as u32) < (cb as u32);
        }
        i = i + 1;
    }
    proof {
        if i == na {
            assert(a@.skip(i as int).len() == 0);
        } else {
            assert(b@.skip(i as int).len() == 0);
            assert(a@.skip(i as int).len() > 0);
        }
    }
    i == na
}

/// Inserting an element anywhere adds exactly it to the multiset of elements.
pub proof fn lemma_insert_to_multiset<A>(s: Seq<A>, p: int, x: A)
    requires
        0 <= p <= s.len(),
    ensures
        s.insert(p, x).to_multiset() == s.to_multiset().insert(x),
{
    broadcast use vstd::multiset::group_multiset_axioms;

    let t = s.insert(p, x);
    t.to_multiset_ensures();
    assert(t.remove(p) =~= s);
    assert(t[p] == x);
    assert(s.to_multiset() =~= t.to_multiset().remove(x));
    assert(t.contains(x));
    assert(t.to_multiset().count(x) > 0);
    assert_multisets_equal!(t.to_multiset(), s.to_multiset().insert(x));
}

/// A prefix grows by one element at a time.
proof fn lemma_take_push_to_multiset<A>(s: Seq<A>, i: int)
    requires
        0 <= i < s.len(),
    ensures
        s.take(i + 1).to_multiset() == s.take(i).to_multiset().insert(s[i]),
{
    assert(s.take(i + 1) =~= s.take(i).push(s[i]));
    s.take(i).to_multiset_ensures();
}

/// Sorts integers ascending; the result holds exactly the input's values.
pub fn sort_ints(v: &Vec<i64>) -> (r: Vec<i64>)
    ensures
        sorted_ints(r@.map_values(|x: i64| x as int)),
        r@.map_values(|x: i64| x as int).to_multiset() == v@.map_values(
            |x: i64| x as int,
        ).to_multiset(),
{
    let ghost sv = v@.map_values(|x: i64| x as int);
    let mut out: Vec<i64> = Vec::new();
    let n = v.len();
    let mut i: usize = 0;
    proof {
        assert(out@.map_values(|x: i64| x as int) =~= sv.take(0));
    }
    while i < n
        invariant
            0 <= i <= n,
            n == v@.len(),
            sv == v@.map_values(|x: i64| x as int),
            sv.len() == n,
            sorted_ints(out@.map_values(|x: i64| x as int)),
            out@.map_values(|x: i64| x as int).to_multiset() == sv.take(i as int).to_multiset(),
        decreases n - i,
    {
        let x = v[i];
        let m = out.len();
        let mut p: usize = 0;
        while p < m && out[p] <= x
            invariant
                0 <= p <= m,
                m == out@.len(),
                forall|q: int| 0 <= q < p ==> out@[q] <= x,
            decreases m - p,
        {
            p = p + 1;
        }
        let ghost sout = out@.map_values(|y: i64| y as int);
        out.insert(p, x);
        proof {
            assert(out@.map_values(|y: i64| y as int) =~= sout.insert(p as int, x as int));
            lemma_insert_to_multiset(sout, p as int, x as int);
            lemma_take_push_to_multiset(sv, i as int);
            assert(sv[i as int] == v@[i as int] as int);
            let snew = out@.map_values(|y: i64| y as int);
            assert forall|a: int, b: int| 0 <= a < b < snew.len() implies snew[a] <= snew[b] by {
                if b < p {
                    assert(snew[a] == sout[a] && snew[b] == sout[b]);
                } else if a > p {
                    assert(snew[a] == sout[a - 1] && snew[b] == sout[b - 1]);
                } else if a < p && b == p {
                    assert(snew[a] == sout[a] && sout[a] <= x);
                } else if a == p && b > p {
                    assert(snew[b] == sout[b - 1]);
                    assert(p < m);
                    assert(sout[p as int] > x as int);
                    if p < b - 1 {
                        assert(sout[p as int] <= sout[b - 1]);
                    }
                } else if a < p && b > p {
                    assert(snew[a] == sout[a] && snew[b] == sout[b - 1]);
                    assert(sout[a] <= x as int);
                    assert(p < m);
                    assert(sout[p as int] > x as int);
                    if p < b - 1 {
                        assert(sout[p as int] <= sout[b - 1]);
                    }
                }
            }
        }
        i = i + 1;
    }
    proof {
        assert(sv.take(n as int) =~= sv);
    }
    out
}

/// Sorts strings ascending lexicographically; the result holds exactly the
/// input's values.
pub fn sort_lexemes(v: &Vec<String>) -> (r: Vec<String>)
    ensures
        sorted_lex(r.deep_view()),
        r.deep_view().to_multiset() == v.deep_view().to_multiset(),
{
    let ghost sv = v.deep_view();
    let mut out: Vec<String> = Vec::new();
    let n = v.len();
    let mut i: usize = 0;
    proof {
        assert(out.deep_view() =~= sv.take(0));
    }
    while i < n
        invariant
            0 <= i <= n,
            n == v@.len(),
            sv == v.deep_view(),
            sv.len() == n,
            sorted_lex(out.deep_view()),
            out.deep_view().to_multiset() == sv.take(i as int).to_multiset(),
        decreases n - i,
    {
        let x = v[i].clone();
        let ghost gx = sv[i as int];
        proof {
            assert(gx == v@[i as int]@);
        }
        let m = out.len();
        let mut p: usize = 0;
        while p < m && str_lex_le(&out[p], &x)
            invariant
                0 <= p <= m,
                m == out@.len(),
                out.deep_view().len() == m,
                gx == x@,
                forall|q: int| 0 <= q < p ==> lex_le(#[trigger] out.deep_view()[q], gx),
            decreases m - p,
        {
            proof {
                assert(out.deep_view()[p as int] == out@[p as int]@);
            }
            p = p + 1;
        }
        let ghost sout = out.deep_view();
        proof {
            if p < m {
                assert(sout[p as int] == out@[p as int]@);
                assert(!lex_le(sout[p as int], gx));
                lemma_lex_total(sout[p as int], gx);
            }
        }
        out.insert(p, x);
        proof {
            assert(out.deep_view() =~= sout.insert(p as int, gx));
            lemma_insert_to_multiset(sout, p as int, gx);
            lemma_take_push_to_multiset(sv, i as int);
            let snew = out.deep_view();
            assert forall|a: int, b: int| 0 <= a < b < snew.len() implies lex_le(
                snew[a],
                snew[b],
            ) by {
                if b < p {
                    assert(snew[a] == sout[a] && snew[b] == sout[b]);
                } else if a > p {
                    assert(snew[a] == sout[a - 1] && snew[b] == sout[b - 1]);
                } else if a < p && b == p {
                    assert(snew[a] == sout[a] && lex_le(sout[a], gx));
                } else if a == p && b > p {
                    assert(snew[b] == sout[b - 1]);
                    assert(lex_le(gx, sout[p as int]));
                    if p < b - 1 {
                        assert(lex_le(sout[p as int], sout[b - 1]));
                        lemma_lex_trans(gx, sout[p as int], sout[b - 1]);
                    }
                } else if a < p && b > p {
                    assert(snew[a] == sout[a] && snew[b] == sout[b - 1]);
                    assert(lex_le(sout[a], gx));
                    assert(lex_le(gx, sout[p as int]));
                    if p < b - 1 {
                        assert(lex_le(sout[p as int], sout[b - 1]));
                        lemma_lex_trans(gx, sout[p as int], sout[b - 1]);
                    }
                    lemma_lex_trans(sout[a], gx, sout[b - 1]);
                }
            }
        }
        i = i + 1;
    }
    proof {
        assert(sv.take(n as int) =~= sv);
    }
    out
}

} // verus!
