//! Byte-lexicographic order of strings (the order of `str`'s `Ord`) and a stable
//! insertion sort specified exactly by `sort_by`.

use vstd::prelude::*;
use vstd::string::StringSliceAdditionalSpecFns;

verus! {

broadcast use vstd::utf8::group_utf8_lib;

/// Three-way byte-lexicographic comparison: -1, 0 or 1.
pub open spec fn lex_order(a: Seq<u8>, b: Seq<u8>) -> int
    decreases a.len(),
{
    if a.len() == 0 && b.len() == 0 {
        0
    } else if a.len() == 0 {
        -1
    } else if b.len() == 0 {
        1
    } else if a[0] < b[0] {
        -1
    } else if a[0] > b[0] {
        1
    } else {
        lex_order(a.drop_first(), b.drop_first())
    }
}

/// Comparison of two texts by their UTF-8 bytes.
pub open spec fn text_order(a: Seq<char>, b: Seq<char>) -> int {
    lex_order(vstd::utf8::encode_utf8(a), vstd::utf8::encode_utf8(b))
}

pub proof fn lemma_lex_order_range(a: Seq<u8>, b: Seq<u8>)
    ensures
        -1 <= lex_order(a, b) <= 1,
    decreases a.len(),
{
    if a.len() > 0 && b.len() > 0 && a[0] == b[0] {
        lemma_lex_order_range(a.drop_first(), b.drop_first());
    }
}

/// Swapping the arguments negates the comparison.
pub proof fn lemma_lex_order_antisym(a: Seq<u8>, b: Seq<u8>)
    ensures
        lex_order(a, b) == -lex_order(b, a),
    decreases a.len(),
{
    if a.len() > 0 && b.len() > 0 && a[0] == b[0] {
        lemma_lex_order_antisym(a.drop_first(), b.drop_first());
    }
}

/// Equal comparison means equal sequences.
pub proof fn lemma_lex_order_eq(a: Seq<u8>, b: Seq<u8>)
    ensures
        lex_order(a, b) == 0 <==> a == b,
    decreases a.len(),
{
    if a.len() == 0 && b.len() == 0 {
        assert(a =~= b);
    } else if a.len() == 0 || b.len() == 0 {
        assert(a.len() != b.len());
    } else if a[0] != b[0] {
        assert(a[0] != b[0]);
    } else {
        lemma_lex_order_eq(a.drop_first(), b.drop_first());
        assert(a =~= seq![a[0]] + a.drop_first());
        assert(b =~= seq![b[0]] + b.drop_first());
        if a == b {
            assert(a.drop_first() =~= b.drop_first());
        }
    }
}

/// The comparison is transitive.
pub proof fn lemma_lex_order_trans(a: Seq<u8>, b: Seq<u8>, c: Seq<u8>)
    requires
        lex_order(a, b) <= 0,
        lex_order(b, c) <= 0,
    ensures
        lex_order(a, c) <= 0,
    decreases a.len(),
{
    if a.len() > 0 && b.len() > 0 && c.len() > 0 && a[0] == b[0] && b[0] == c[0] {
        lemma_lex_order_trans(a.drop_first(), b.drop_first(), c.drop_first());
    }
}

/// Three-way comparison of two byte slices.
pub fn bytes_order(a: &[u8], b: &[u8]) -> (res: i8)
    ensures
        res as int == lex_order(a@, b@),
{
    let mut i: usize = 0;
    assert(a@.skip(0) =~= a@ && b@.skip(0) =~= b@);
    while i < a.len() && i < b.len() && a[i] == b[i]
        invariant
            i <= a.len(),
            i <= b.len(),
            lex_order(a@.skip(i as int), b@.skip(i as int)) == lex_order(a@, b@),
        decreases a.len() - i,
    {
        proof {
            assert(a@.skip(i as int).drop_first() =~= a@.skip(i + 1));
            assert(b@.skip(i as int).drop_first() =~= b@.skip(i + 1));
        }
        i = i + 1;
    }
    let ghost sa = a@.skip(i as int);
    let ghost sb = b@.skip(i as int);
    if i == a.len() && i == b.len() {
        0
    } else if i == a.len() {
        -1
    } else if i == b.len() {
        1
    } else if a[i] < b[i] {
        assert(sa[0] == a@[i as int]);
        -1
    } else {
        assert(sa[0] == a@[i as int] && sb[0] == b@[i as int]);
        1
    }
}

/// Three-way comparison of two strings in the order of `str`'s `Ord`.
pub fn str_order(a: &str, b: &str) -> (res: i8)
    ensures
        res as int == text_order(a@, b@),
{
    bytes_order(a.as_bytes(), b.as_bytes())
}

/// The first position of `s` holding an element that sorts after `x`, or `s.len()`.
pub open spec fn first_after<T>(s: Seq<T>, x: T, order: spec_fn(T, T) -> int) -> int
    decreases s.len(),
{
    if s.len() == 0 {
        0
    } else if order(s[0], x) > 0 {
        0
    } else {
        1 + first_after(s.drop_first(), x, order)
    }
}

/// Insert `x` after every element that does not sort after it.
pub open spec fn insert_sorted<T>(s: Seq<T>, x: T, order: spec_fn(T, T) -> int) -> Seq<T> {
    s.insert(first_after(s, x, order), x)
}

/// Stable insertion sort of `s`.
pub open spec fn sort_by<T>(s: Seq<T>, order: spec_fn(T, T) -> int) -> Seq<T>
    decreases s.len(),
{
    if s.len() == 0 {
        s
    } else {
        insert_sorted(sort_by(s.drop_last(), order), s.last(), order)
    }
}

/// `first_after` is the least position whose element sorts after `x`.
pub proof fn lemma_first_after<T>(s: Seq<T>, x: T, order: spec_fn(T, T) -> int, p: int)
    requires
        0 <= p <= s.len(),
        forall|q: int| 0 <= q < p ==> order(#[trigger] s[q], x) <= 0,
        p == s.len() || order(s[p], x) > 0,
    ensures
        first_after(s, x, order) == p,
    decreases p,
{
    if p > 0 {
        assert forall|q: int| 0 <= q < p - 1 implies order(#[trigger] s.drop_first()[q], x) <= 0 by {
            assert(s.drop_first()[q] == s[q + 1]);
        }
        lemma_first_after(s.drop_first(), x, order, p - 1);
    }
}

pub proof fn lemma_first_after_bounds<T>(s: Seq<T>, x: T, order: spec_fn(T, T) -> int)
    ensures
        0 <= first_after(s, x, order) <= s.len(),
    decreases s.len(),
{
    if s.len() > 0 {
        lemma_first_after_bounds(s.drop_first(), x, order);
    }
}

/// Text order as a spec closure over character sequences.
pub open spec fn text_order_fn() -> spec_fn(Seq<char>, Seq<char>) -> int {
    |a: Seq<char>, b: Seq<char>| text_order(a, b)
}

/// The character sequences of a sequence of strings.
pub open spec fn views(s: Seq<String>) -> Seq<Seq<char>> {
    s.map_values(|x: String| x@)
}

/// Sort strings in the order of `str`'s `Ord`, keeping equal strings in input order.
pub fn sort_strings(v: &Vec<String>) -> (res: Vec<String>)
    ensures
        views(res@) == sort_by(views(v@), text_order_fn()),
{
    let mut res: Vec<String> = Vec::new();
    let mut i: usize = 0;
    while i < v.len()
        invariant
            i <= v.len(),
            views(res@) == sort_by(views(v@).take(i as int), text_order_fn()),
        decreases v.len() - i,
    {
        let x = v[i].clone();
        let mut p: usize = 0;
        while p < res.len() && str_order(res[p].as_str(), x.as_str()) <= 0
            invariant
                p <= res.len(),
                forall|q: int| 0 <= q < p ==> text_order(#[trigger] views(res@)[q], x@) <= 0,
            decreases res.len() - p,
        {
            p = p + 1;
        }
        proof {
            lemma_first_after(views(res@), x@, text_order_fn(), p as int);
            assert(views(v@).take(i + 1).drop_last() =~= views(v@).take(i as int));
            assert(views(v@).take(i + 1).last() == x@);
        }
        let ghost before = res@;
        res.insert(p, x);
        proof {
            assert(views(res@) =~= views(before).insert(p as int, x@));
        }
        i = i + 1;
    }
    assert(views(v@).take(v.len() as int) =~= views(v@));
    res
}


/// Sorting only rearranges: it keeps the length, and every element of the
/// result occurs in the input.
pub proof fn lemma_sort_by_elements<T>(s: Seq<T>, order: spec_fn(T, T) -> int)
    ensures
        sort_by(s, order).len() == s.len(),
        forall|i: int|
            0 <= i < s.len() ==> exists|j: int| 0 <= j < s.len() && #[trigger] sort_by(s, order)[i] == s[j],
    decreases s.len(),
{
    if s.len() > 0 {
        let prev = sort_by(s.drop_last(), order);
        lemma_sort_by_elements(s.drop_last(), order);
        lemma_first_after_bounds(prev, s.last(), order);
        let p = first_after(prev, s.last(), order);
        let res = prev.insert(p, s.last());
        assert forall|i: int| 0 <= i < s.len() implies exists|j: int|
            0 <= j < s.len() && #[trigger] sort_by(s, order)[i] == s[j] by {
            assert(sort_by(s, order) == res);
            if i < p {
                assert(res[i] == prev[i]);
                let j = choose|j: int| 0 <= j < s.len() - 1 && prev[i] == s.drop_last()[j];
                assert(s.drop_last()[j] == s[j]);
            } else if i == p {
                assert(res[i] == s[s.len() - 1]);
            } else {
                assert(res[i] == prev[i - 1]);
                let j = choose|j: int| 0 <= j < s.len() - 1 && prev[i - 1] == s.drop_last()[j];
                assert(s.drop_last()[j] == s[j]);
            }
        }
    }
}

/// Sorting loses nothing: every element of the input occurs in the result.
pub proof fn lemma_sort_by_covers<T>(s: Seq<T>, order: spec_fn(T, T) -> int)
    ensures
        forall|j: int|
            0 <= j < s.len() ==> exists|i: int|
                0 <= i < sort_by(s, order).len() && sort_by(s, order)[i] == #[trigger] s[j],
    decreases s.len(),
{
    if s.len() > 0 {
        let prev = sort_by(s.drop_last(), order);
        lemma_sort_by_covers(s.drop_last(), order);
        lemma_first_after_bounds(prev, s.last(), order);
        let p = first_after(prev, s.last(), order);
        let res = prev.insert(p, s.last());
        assert(sort_by(s, order) == res);
        assert forall|j: int| 0 <= j < s.len() implies exists|i: int|
            0 <= i < sort_by(s, order).len() && sort_by(s, order)[i] == #[trigger] s[j] by {
            if j == s.len() - 1 {
                assert(res[p] == s[j]);
            } else {
                assert(s.drop_last()[j] == s[j]);
                let i = choose|i: int| 0 <= i < prev.len() && prev[i] == #[trigger] s.drop_last()[j];
                if i < p {
                    assert(res[i] == prev[i]);
                } else {
                    assert(res[i + 1] == prev[i]);
                }
            }
        }
    }
}

/// Whether two strings hold the same text.
pub fn str_equal(a: &str, b: &str) -> (res: bool)
    ensures
        res == (a@ == b@),
{
    let o = bytes_order(a.as_bytes(), b.as_bytes());
    proof {
        lemma_lex_order_eq(a.spec_bytes(), b.spec_bytes());
        assert(vstd::utf8::decode_utf8(vstd::utf8::encode_utf8(a@)) == a@);
        assert(vstd::utf8::decode_utf8(vstd::utf8::encode_utf8(b@)) == b@);
    }
    o == 0
}

/// `order` is a total preorder: antisymmetric in sign and transitive.
pub open spec fn is_total_preorder<T>(order: spec_fn(T, T) -> int) -> bool {
    &&& forall|a: T, b: T| #[trigger] order(a, b) <= 0 || #[trigger] order(b, a) <= 0
    &&& forall|a: T, b: T| #[trigger] order(a, b) > 0 ==> order(b, a) < 0
    &&& forall|a: T, b: T, c: T|
        #[trigger] order(a, b) <= 0 && #[trigger] order(b, c) <= 0 ==> order(a, c) <= 0
}

/// Every earlier element sorts at or before every later one.
pub open spec fn is_sorted_by<T>(s: Seq<T>, order: spec_fn(T, T) -> int) -> bool {
    forall|i: int, j: int| 0 <= i < j < s.len() ==> order(#[trigger] s[i], #[trigger] s[j]) <= 0
}

/// Insertion keeps a sequence sorted.
pub proof fn lemma_insert_sorted<T>(s: Seq<T>, x: T, order: spec_fn(T, T) -> int)
    requires
        is_total_preorder(order),
        is_sorted_by(s, order),
    ensures
        is_sorted_by(insert_sorted(s, x, order), order),
{
    let p = first_after(s, x, order);
    lemma_first_after_bounds(s, x, order);
    lemma_first_after_facts(s, x, order);
    let r = s.insert(p, x);
    assert forall|i: int, j: int| 0 <= i < j < r.len() implies order(#[trigger] r[i], #[trigger] r[j])
        <= 0 by {
        if j < p {
            assert(r[i] == s[i] && r[j] == s[j]);
        } else if j == p {
            assert(r[j] == x && r[i] == s[i]);
        } else if i < p {
            assert(r[i] == s[i] && r[j] == s[j - 1]);
        } else if i == p {
            assert(r[i] == x && r[j] == s[j - 1]);
            assert(order(s[p], x) > 0);
            assert(order(x, s[p]) < 0);
            if j - 1 > p {
                assert(order(s[p], s[j - 1]) <= 0);
            }
        } else {
            assert(r[i] == s[i - 1] && r[j] == s[j - 1]);
        }
    }
}

/// Elements before `first_after` do not sort after `x`; the one at it does.
pub proof fn lemma_first_after_facts<T>(s: Seq<T>, x: T, order: spec_fn(T, T) -> int)
    ensures
        forall|q: int| 0 <= q < first_after(s, x, order) ==> order(#[trigger] s[q], x) <= 0,
        first_after(s, x, order) < s.len() ==> order(s[first_after(s, x, order)], x) > 0,
    decreases s.len(),
{
    lemma_first_after_bounds(s, x, order);
    if s.len() > 0 && order(s[0], x) <= 0 {
        let d = s.drop_first();
        lemma_first_after_facts(d, x, order);
        lemma_first_after_bounds(d, x, order);
        assert forall|q: int| 0 <= q < first_after(s, x, order) implies order(#[trigger] s[q], x) <= 0 by {
            if q > 0 {
                assert(s[q] == d[q - 1]);
            }
        }
        let k = first_after(d, x, order);
        if k < d.len() {
            assert(s[1 + k] == d[k]);
        }
    }
}

/// The insertion sort yields a sorted sequence.
pub proof fn lemma_sort_by_sorted<T>(s: Seq<T>, order: spec_fn(T, T) -> int)
    requires
        is_total_preorder(order),
    ensures
        is_sorted_by(sort_by(s, order), order),
    decreases s.len(),
{
    if s.len() > 0 {
        lemma_sort_by_sorted(s.drop_last(), order);
        lemma_insert_sorted(sort_by(s.drop_last(), order), s.last(), order);
    }
}

/// Text order is a total preorder.
pub proof fn lemma_text_order_total()
    ensures
        is_total_preorder(text_order_fn()),
{
    assert forall|a: Seq<char>, b: Seq<char>| #[trigger] (text_order_fn())(a, b) <= 0 || #[trigger] (
    text_order_fn())(b, a) <= 0 by {
        lemma_lex_order_antisym(vstd::utf8::encode_utf8(a), vstd::utf8::encode_utf8(b));
    }
    assert forall|a: Seq<char>, b: Seq<char>| #[trigger] (text_order_fn())(a, b) > 0 implies (
    text_order_fn())(b, a) < 0 by {
        lemma_lex_order_antisym(vstd::utf8::encode_utf8(a), vstd::utf8::encode_utf8(b));
    }
    assert forall|a: Seq<char>, b: Seq<char>, c: Seq<char>|
        #[trigger] (text_order_fn())(a, b) <= 0 && #[trigger] (text_order_fn())(b, c) <= 0 implies (
    text_order_fn())(a, c) <= 0 by {
        lemma_lex_order_trans(
            vstd::utf8::encode_utf8(a),
            vstd::utf8::encode_utf8(b),
            vstd::utf8::encode_utf8(c),
        );
    }
}
} // verus!
