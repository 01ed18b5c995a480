//! Alphabetical order on names (lexicographic by character code, which is
//! the order of `String`'s `Ord`), and a stable sort of named rows by it.

use vstd::prelude::*;
use crate::text::chars_of;

verus! {

broadcast use vstd::seq_lib::group_to_multiset_ensures;

/// `a` comes strictly before `b`: at the first position where they differ
/// `a` has the smaller character, or `a` is a proper prefix of `b`.
pub open spec fn lex_lt(a: Seq<char>, b: Seq<char>) -> bool
    decreases a.len(),
{
    if a.len() == 0 {
        b.len() > 0
    } else if b.len() == 0 {
        false
    } else if a[0] != b[0] {
        (a[0] as u32) < (b[0] as u32)
    } else {
        lex_lt(a.drop_first(), b.drop_first())
    }
}

/// `a` comes no later than `b`.
pub open spec fn lex_le(a: Seq<char>, b: Seq<char>) -> bool {
    !lex_lt(b, a)
}

/// No name comes strictly before itself.
pub proof fn lemma_lex_irreflexive(a: Seq<char>)
    ensures
        !lex_lt(a, a),
    decreases a.len(),
{
    if a.len() > 0 {
        lemma_lex_irreflexive(a.drop_first());
    }
}

/// If `a` comes strictly before `b`, `b` does not come strictly before `a`.
pub proof fn lemma_lex_asymmetric(a: Seq<char>, b: Seq<char>)
    ensures
        lex_lt(a, b) ==> !lex_lt(b, a),
    decreases a.len(),
{
    if a.len() > 0 && b.len() > 0 && a[0] == b[0] {
        lemma_lex_asymmetric(a.drop_first(), b.drop_first());
    }
}

/// Of two different names, one comes strictly before the other.
pub proof fn lemma_lex_total(a: Seq<char>, b: Seq<char>)
    ensures
        a != b ==> lex_lt(a, b) || lex_lt(b, a),
    decreases a.len(),
{
    if a.len() > 0 && b.len() > 0 && a[0] == b[0] {
        lemma_lex_total(a.drop_first(), b.drop_first());
        if a.drop_first() == b.drop_first() {
            assert(a =~= seq![a[0]] + a.drop_first());
            assert(b =~= seq![b[0]] + b.drop_first());
        }
    } else if a.len() == 0 && b.len() == 0 {
        assert(a =~= b);
    } else if a.len() > 0 && b.len() > 0 {
        if (a[0] as u32) == (b[0] as u32) {
            vstd::utf8::char_u32_cast(a[0], a[0] as u32);
            vstd::utf8::char_u32_cast(b[0], b[0] as u32);
        }
    }
}

/// Coming strictly before is transitive.
pub proof fn lemma_lex_transitive(a: Seq<char>, b: Seq<char>, c: Seq<char>)
    requires
        lex_lt(a, b),
        lex_lt(b, c),
    ensures
        lex_lt(a, c),
    decreases a.len(),
{
    if a.len() > 0 && b.len() > 0 && c.len() > 0 && a[0] == b[0] && b[0] == c[0] {
        lemma_lex_transitive(a.drop_first(), b.drop_first(), c.drop_first());
    }
}

/// `lex_le` is a total preorder that is also antisymmetric: a total order.
pub proof fn lemma_lex_le_total_order(a: Seq<char>, b: Seq<char>, c: Seq<char>)
    ensures
        lex_le(a, a),
        lex_le(a, b) || lex_le(b, a),
        lex_le(a, b) && lex_le(b, a) ==> a == b,
        lex_le(a, b) && lex_le(b, c) ==> lex_le(a, c),
{
    lemma_lex_irreflexive(a);
    lemma_lex_asymmetric(a, b);
    lemma_lex_total(a, b);
    lemma_lex_total(a, c);
    lemma_lex_total(b, c);
    lemma_lex_asymmetric(b, a);
    if lex_le(a, b) && lex_le(b, c) && lex_lt(c, a) {
        if a != b {
            lemma_lex_transitive(a, b, c);
            lemma_lex_asymmetric(a, c);
        } else {
            lemma_lex_asymmetric(b, c);
        }
    }
}

/// Whether `a` comes strictly before `b`.
pub fn str_lt(a: &str, b: &str) -> (r: bool)
    ensures
        r == lex_lt(a@, b@),
{
    let av = chars_of(a);
    let bv = chars_of(b);
    let mut i: usize = 0;
    assert(av@.skip(0) =~= av@);
    assert(bv@.skip(0) =~= bv@);
    while i < av.len() && i < bv.len()
        invariant
            i <= av.len(),
            i <= bv.len(),
            lex_lt(av@, bv@) == lex_lt(av@.skip(i as int), bv@.skip(i as int)),
            av@ == a@,
            bv@ == b@,
        decreases av.len() - i,
    {
        assert(av@.skip(i as int)[0] == av@[i as int]);
        assert(bv@.skip(i as int)[0] == bv@[i as int]);
        if av[i] != bv[i] {
            return (av[i] as u32) < (bv[i] as u32);
        }
        assert(av@.skip(i as int).drop_first() =~= av@.skip(i + 1));
        assert(bv@.skip(i as int).drop_first() =~= bv@.skip(i + 1));
        i = i + 1;
    }
    av.len() == i && bv.len() > i
}

/// Rows that carry a name to be sorted by.
pub trait Named {
    spec fn name_view(&self) -> Seq<char>;

    fn name_str(&self) -> (r: &str)
        ensures
            r@ == self.name_view(),
    ;
}

/// Every row's name comes no later than the names of the rows after it.
pub open spec fn sorted_by_name<T: Named>(s: Seq<T>) -> bool {
    forall|i: int, j: int| 0 <= i < j < s.len() ==> lex_le(#[trigger] s[i].name_view(), #[trigger] s[j].name_view())
}

/// Where a row whose key is `n` goes among the rows of `s`: after every
/// leading row whose key is not later than `n`.
pub open spec fn insertion_point<T>(s: Seq<T>, key: spec_fn(T) -> Seq<char>, n: Seq<char>) -> int
    decreases s.len(),
{
    if s.len() == 0 {
        0
    } else if lex_lt(n, key(s[0])) {
        0
    } else {
        1 + insertion_point(s.drop_first(), key, n)
    }
}

/// `s` stably sorted by `key`: the rows taken in order, each placed after
/// every row already placed whose key is not later than its own, so rows
/// with equal keys keep their order.
pub open spec fn sort_by_key<T>(s: Seq<T>, key: spec_fn(T) -> Seq<char>) -> Seq<T>
    decreases s.len(),
{
    if s.len() == 0 {
        s
    } else {
        let t = sort_by_key(s.drop_last(), key);
        t.insert(insertion_point(t, key, key(s.last())), s.last())
    }
}

proof fn lemma_insertion_point_bounds<T>(s: Seq<T>, key: spec_fn(T) -> Seq<char>, n: Seq<char>)
    ensures
        0 <= insertion_point(s, key, n) <= s.len(),
    decreases s.len(),
{
    if s.len() > 0 && !lex_lt(n, key(s[0])) {
        lemma_insertion_point_bounds(s.drop_first(), key, n);
    }
}

proof fn lemma_insertion_point_map<A, B>(
    s: Seq<A>,
    f: spec_fn(A) -> B,
    ka: spec_fn(A) -> Seq<char>,
    kb: spec_fn(B) -> Seq<char>,
    n: Seq<char>,
)
    requires
        forall|x: A| #[trigger] kb(f(x)) == ka(x),
    ensures
        insertion_point(s.map_values(f), kb, n) == insertion_point(s, ka, n),
    decreases s.len(),
{
    if s.len() > 0 {
        assert(s.map_values(f)[0] == f(s[0]));
        assert(s.map_values(f).drop_first() =~= s.drop_first().map_values(f));
        lemma_insertion_point_map(s.drop_first(), f, ka, kb, n);
    }
}

/// Sorting by a key and then mapping each row is mapping and then sorting
/// by the key read off the mapped rows.
pub proof fn lemma_sort_by_key_map<A, B>(
    s: Seq<A>,
    f: spec_fn(A) -> B,
    ka: spec_fn(A) -> Seq<char>,
    kb: spec_fn(B) -> Seq<char>,
)
    requires
        forall|x: A| #[trigger] kb(f(x)) == ka(x),
    ensures
        sort_by_key(s, ka).map_values(f) == sort_by_key(s.map_values(f), kb),
    decreases s.len(),
{
    if s.len() > 0 {
        let t = sort_by_key(s.drop_last(), ka);
        assert(s.map_values(f).drop_last() =~= s.drop_last().map_values(f));
        assert(s.map_values(f).last() == f(s.last()));
        lemma_sort_by_key_map(s.drop_last(), f, ka, kb);
        lemma_insertion_point_map(t, f, ka, kb, ka(s.last()));
        lemma_insertion_point_bounds(t, ka, ka(s.last()));
        let p = insertion_point(t, ka, ka(s.last()));
        assert(t.insert(p, s.last()).map_values(f) =~= t.map_values(f).insert(p, f(s.last())));
    }
}

/// Keys of `t` never decrease.
pub open spec fn keys_sorted<T>(t: Seq<T>, key: spec_fn(T) -> Seq<char>) -> bool {
    forall|i: int, j: int| 0 <= i < j < t.len() ==> lex_le(#[trigger] key(t[i]), #[trigger] key(t[j]))
}

/// Coming strictly before, then no later, is coming strictly before.
proof fn lemma_lt_le(a: Seq<char>, b: Seq<char>, c: Seq<char>)
    requires
        lex_lt(a, b),
        lex_le(b, c),
    ensures
        lex_lt(a, c),
{
    if b != c {
        lemma_lex_total(b, c);
        lemma_lex_transitive(a, b, c);
    }
}

/// What `insertion_point` is: the first position whose key comes strictly
/// after `n`.
proof fn lemma_insertion_point_char<T>(s: Seq<T>, key: spec_fn(T) -> Seq<char>, n: Seq<char>)
    ensures
        0 <= insertion_point(s, key, n) <= s.len(),
        forall|j: int| 0 <= j < insertion_point(s, key, n) ==> !lex_lt(n, #[trigger] key(s[j])),
        insertion_point(s, key, n) < s.len() ==> lex_lt(n, key(s[insertion_point(s, key, n)])),
    decreases s.len(),
{
    if s.len() > 0 && !lex_lt(n, key(s[0])) {
        let d = s.drop_first();
        lemma_insertion_point_char(d, key, n);
        assert forall|j: int| 0 <= j < insertion_point(s, key, n) implies !lex_lt(n, #[trigger] key(s[j])) by {
            if j > 0 {
                assert(s[j] == d[j - 1]);
            }
        }
        if insertion_point(s, key, n) < s.len() {
            assert(s[insertion_point(s, key, n)] == d[insertion_point(d, key, n)]);
        }
    }
}

/// A position with no key after `n` before it and a key after `n` at it
/// (or at the end) is the insertion point.
proof fn lemma_insertion_point_is<T>(s: Seq<T>, key: spec_fn(T) -> Seq<char>, n: Seq<char>, m: int)
    requires
        0 <= m <= s.len(),
        forall|j: int| 0 <= j < m ==> !lex_lt(n, #[trigger] key(s[j])),
        m < s.len() ==> lex_lt(n, key(s[m])),
    ensures
        insertion_point(s, key, n) == m,
    decreases s.len(),
{
    if s.len() > 0 && m > 0 {
        let d = s.drop_first();
        assert(!lex_lt(n, key(s[0])));
        assert forall|j: int| 0 <= j < m - 1 implies !lex_lt(n, #[trigger] key(d[j])) by {
            assert(d[j] == s[j + 1]);
        }
        if m - 1 < d.len() {
            assert(d[m - 1] == s[m]);
        }
        lemma_insertion_point_is(d, key, n, m - 1);
    }
}

/// The stable sort keeps the length and puts keys in order.
pub proof fn lemma_sort_by_key_sorted<T>(s: Seq<T>, key: spec_fn(T) -> Seq<char>)
    ensures
        sort_by_key(s, key).len() == s.len(),
        keys_sorted(sort_by_key(s, key), key),
    decreases s.len(),
{
    if s.len() > 0 {
        let t = sort_by_key(s.drop_last(), key);
        let x = s.last();
        let n = key(x);
        lemma_sort_by_key_sorted(s.drop_last(), key);
        lemma_insertion_point_char(t, key, n);
        let i = insertion_point(t, key, n);
        let u = t.insert(i, x);
        assert forall|a: int, b: int| 0 <= a < b < u.len() implies lex_le(#[trigger] key(u[a]), #[trigger] key(u[b])) by {
            if b < i {
                assert(u[a] == t[a] && u[b] == t[b]);
            } else if b == i {
                assert(u[b] == x);
                assert(u[a] == t[a]);
                assert(!lex_lt(n, key(t[a])));
            } else if a == i {
                assert(u[a] == x && u[b] == t[b - 1]);
                if i < b - 1 {
                    assert(lex_le(key(t[i]), key(t[b - 1])));
                } else {
                    lemma_lex_irreflexive(key(t[i]));
                }
                lemma_lt_le(n, key(t[i]), key(t[b - 1]));
                lemma_lex_asymmetric(n, key(t[b - 1]));
            } else if a < i {
                assert(u[a] == t[a] && u[b] == t[b - 1]);
            } else {
                assert(u[a] == t[a - 1] && u[b] == t[b - 1]);
            }
        }
    }
}

/// Sorting the rows that pass `p` gives the sorted rows that pass `p`, in
/// the same order: the stable sort commutes with filtering.
pub proof fn lemma_sort_by_key_filter<T>(s: Seq<T>, key: spec_fn(T) -> Seq<char>, p: spec_fn(T) -> bool)
    ensures
        sort_by_key(s.filter(p), key) == sort_by_key(s, key).filter(p),
    decreases s.len(),
{
    reveal(Seq::filter);
    if s.len() == 0 {
        assert(s.filter(p) =~= s);
        assert(sort_by_key(s, key).filter(p) =~= s);
    } else {
        let s1 = s.drop_last();
        let x = s.last();
        let n = key(x);
        let t = sort_by_key(s1, key);
        lemma_sort_by_key_filter(s1, key, p);
        lemma_sort_by_key_sorted(s1, key);
        lemma_insertion_point_char(t, key, n);
        let i = insertion_point(t, key, n);
        let a = t.take(i);
        let b = t.skip(i);
        assert(t =~= a + b);
        assert(t.insert(i, x) =~= a + (seq![x] + b));
        Seq::filter_distributes_over_add(a, b, p);
        Seq::filter_distributes_over_add(a, seq![x] + b, p);
        Seq::filter_distributes_over_add(seq![x], b, p);
        let sx = seq![x];
        assert(sx.drop_last() =~= Seq::<T>::empty());
        assert(Seq::<T>::empty().filter(p) =~= Seq::<T>::empty());
        let f = t.filter(p);
        let fa = a.filter(p);
        let fb = b.filter(p);
        if p(x) {
            assert(s.filter(p) =~= s1.filter(p).push(x));
            assert(s.filter(p).drop_last() =~= s1.filter(p));
            assert(sx.filter(p) =~= sx);
            // the insertion point in the filtered rows is after the filtered head
            let m = fa.len() as int;
            assert(f =~= fa + fb);
            assert forall|j: int| 0 <= j < m implies !lex_lt(n, #[trigger] key(f[j])) by {
                assert(f[j] == fa[j]);
                a.lemma_filter_contains_rev(p, fa[j]);
                let k = choose|k: int| 0 <= k < a.len() && a[k] == fa[j];
                assert(a[k] == t[k]);
            }
            if m < f.len() {
                assert(f[m] == fb[0]);
                b.lemma_filter_contains_rev(p, fb[0]);
                let k = choose|k: int| 0 <= k < b.len() && b[k] == fb[0];
                assert(b[k] == t[i + k]);
                if k > 0 {
                    assert(lex_le(key(t[i]), key(t[i + k])));
                } else {
                    lemma_lex_irreflexive(key(t[i]));
                }
                lemma_lt_le(n, key(t[i]), key(t[i + k]));
            }
            lemma_insertion_point_is(f, key, n, m);
            assert(f.insert(m, x) =~= fa + (sx + fb));
        } else {
            assert(s.filter(p) =~= s1.filter(p));
            assert(sx.filter(p) =~= Seq::<T>::empty());
            assert(sort_by_key(s, key).filter(p) =~= fa + fb);
        }
    }
}

/// Sorts `v` alphabetically by name (insertion sort: each row is placed
/// after every row already placed whose name is not later). The result
/// holds exactly the rows of `v`.
pub fn sort_by_name<T: Named>(v: Vec<T>) -> (r: Vec<T>)
    ensures
        r@ == sort_by_key(v@, |x: T| x.name_view()),
        r@.to_multiset() == v@.to_multiset(),
        sorted_by_name(r@),
{
    let ghost key = |x: T| x.name_view();
    let ghost all_rows = v@;
    let mut input = v;
    let mut out: Vec<T> = Vec::new();
    let ghost mut consumed: Seq<T> = Seq::empty();
    while input.len() > 0
        invariant
            all_rows == consumed + input@,
            out@.to_multiset() == consumed.to_multiset(),
            sorted_by_name(out@),
            out@ == sort_by_key(consumed, key),
            key == (|x: T| x.name_view()),
        decreases input.len(),
    {
        let ghost before_input = input@;
        let x = input.remove(0);
        proof {
            assert(before_input =~= seq![x] + input@);
        }
        // find first position whose name is strictly after x
        let mut p: usize = 0;
        assert(out@.skip(0) =~= out@);
        while p < out.len() && !str_lt(x.name_str(), out[p].name_str())
            invariant
                p <= out.len(),
                forall|k: int| 0 <= k < p ==> lex_le(#[trigger] out@[k].name_view(), x.name_view()),
                insertion_point(out@, key, x.name_view()) == p + insertion_point(out@.skip(p as int), key, x.name_view()),
                key == (|x: T| x.name_view()),
            decreases out.len() - p,
        {
            proof {
                assert(out@.skip(p as int)[0] == out@[p as int]);
                assert(out@.skip(p as int).drop_first() =~= out@.skip(p + 1));
            }
            p = p + 1;
        }
        proof {
            if p < out.len() {
                assert(out@.skip(p as int)[0] == out@[p as int]);
            }
            assert(insertion_point(out@, key, x.name_view()) == p);
        }
        let ghost old_out = out@;
        out.insert(p, x);
        proof {
            assert(out@ == old_out.insert(p as int, x));
            assert(out@.remove(p as int) =~= old_out);
            assert(out@[p as int] == x);
            assert(out@.to_multiset().remove(x) == old_out.to_multiset());
            assert(out@.to_multiset().count(x) > 0) by {
                assert(out@.contains(x));
            }
            assert(out@.to_multiset() =~= old_out.to_multiset().insert(x));
            let new_consumed = consumed.push(x);
            assert(new_consumed.drop_last() =~= consumed);
            assert(new_consumed.last() == x);
            assert(out@ == sort_by_key(new_consumed, key));
            assert(new_consumed.to_multiset() =~= consumed.to_multiset().insert(x));
            assert(all_rows =~= new_consumed + input@);
            consumed = new_consumed;
            // sortedness
            assert forall|i: int, j: int| 0 <= i < j < out@.len() implies lex_le(
                #[trigger] out@[i].name_view(),
                #[trigger] out@[j].name_view(),
            ) by {
                let xn = x.name_view();
                if j < p {
                    assert(out@[i] == old_out[i] && out@[j] == old_out[j]);
                } else if j == p {
                    assert(out@[i] == old_out[i]);
                } else if i == p {
                    // x before old_out[j - 1] which is after position p - 1
                    assert(out@[j] == old_out[j - 1]);
                    assert(lex_lt(xn, old_out[p as int].name_view()));
                    lemma_lex_le_total_order(xn, old_out[p as int].name_view(), old_out[j - 1].name_view());
                    lemma_lex_asymmetric(xn, old_out[p as int].name_view());
                } else if i < p {
                    assert(out@[i] == old_out[i] && out@[j] == old_out[j - 1]);
                } else {
                    assert(out@[i] == old_out[i - 1] && out@[j] == old_out[j - 1]);
                }
            }
        }
    }
    proof {
        assert(all_rows =~= consumed);
    }
    out
}

/// Permuting a sequence permutes its image under any map the same way.
pub proof fn lemma_multiset_map_values<A, B>(a: Seq<A>, b: Seq<A>, f: spec_fn(A) -> B)
    requires
        a.to_multiset() == b.to_multiset(),
    ensures
        a.map_values(f).to_multiset() == b.map_values(f).to_multiset(),
    decreases a.len(),
{
    if a.len() == 0 {
        assert(a.to_multiset().len() == 0);
        assert(b.to_multiset().len() == b.len());
        assert(b.len() == 0);
        assert(a.map_values(f) =~= Seq::<B>::empty());
        assert(b.map_values(f) =~= Seq::<B>::empty());
    } else {
        let x = a[0];
        assert(a.contains(x));
        assert(b.to_multiset().count(x) > 0);
        assert(b.contains(x));
        let j = b.index_of(x);
        assert(a.remove(0).to_multiset() == a.to_multiset().remove(x));
        assert(b.remove(j).to_multiset() == b.to_multiset().remove(b[j]));
        lemma_multiset_map_values(a.remove(0), b.remove(j), f);
        assert(a.map_values(f).remove(0) =~= a.remove(0).map_values(f));
        assert(b.map_values(f).remove(j) =~= b.remove(j).map_values(f));
        assert(a.map_values(f).to_multiset().remove(f(x)) == a.map_values(f).remove(0).to_multiset());
        assert(b.map_values(f).to_multiset().remove(f(x)) == b.map_values(f).remove(j).to_multiset());
        assert(a.map_values(f).contains(f(x))) by { assert(a.map_values(f)[0] == f(x)); }
        assert(b.map_values(f).contains(f(x))) by { assert(b.map_values(f)[j] == f(x)); }
        assert(a.map_values(f).to_multiset() =~= a.map_values(f).to_multiset().remove(f(x)).insert(f(x)));
        assert(b.map_values(f).to_multiset() =~= b.map_values(f).to_multiset().remove(f(x)).insert(f(x)));
    }
}

} // verus!
