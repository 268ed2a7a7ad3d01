//! Byte-level text facts shared by the library: UTF-8 boundaries of `str`
//! values, substring search and concatenation of encodings.

use vstd::prelude::*;
use vstd::utf8::*;
use vstd::string::StringSliceAdditionalSpecFns;

verus! {

broadcast use vstd::utf8::group_utf8_lib;

/// The UTF-8 bytes of a character sequence.
pub open spec fn bytes_of(s: Seq<char>) -> Seq<u8> {
    encode_utf8(s)
}

/// Encoding distributes over concatenation.
pub proof fn lemma_encode_concat(a: Seq<char>, b: Seq<char>)
    ensures
        encode_utf8(a + b) == encode_utf8(a) + encode_utf8(b),
    decreases a.len(),
{
    if a.len() == 0 {
        assert(a + b =~= b);
        assert(encode_utf8(a) =~= Seq::<u8>::empty());
        assert(encode_utf8(a) + encode_utf8(b) =~= encode_utf8(b));
    } else {
        lemma_encode_concat(a.drop_first(), b);
        assert((a + b).drop_first() =~= a.drop_first() + b);
        assert((a + b)[0] == a[0]);
        assert(encode_utf8(a + b) =~= encode_scalar(a[0] as u32) + encode_utf8(a.drop_first() + b));
        assert(encode_utf8(a) =~= encode_scalar(a[0] as u32) + encode_utf8(a.drop_first()));
    }
}

/// `pat` occurs in `s` starting at byte `i`.
pub open spec fn matches_at(s: Seq<u8>, pat: Seq<u8>, i: int) -> bool {
    &&& 0 <= i
    &&& i + pat.len() <= s.len()
    &&& s.subrange(i, i + pat.len()) == pat
}

/// `pat` occurs somewhere in `s`.
pub open spec fn contains_bytes(s: Seq<u8>, pat: Seq<u8>) -> bool {
    exists|i: int| #[trigger] matches_at(s, pat, i)
}

/// Whether `pat` occurs in `s` at byte `i` (false when it would run past the end).
pub fn bytes_match_at(s: &[u8], pat: &[u8], i: usize) -> (res: bool)
    ensures
        res == matches_at(s@, pat@, i as int),
{
    if pat.len() > s.len() || i > s.len() - pat.len() {
        return false;
    }
    let mut k: usize = 0;
    while k < pat.len()
        invariant
            i + pat.len() <= s.len(),
            k <= pat.len(),
            forall|j: int| 0 <= j < k ==> s@[i + j] == pat@[j],
        decreases pat.len() - k,
    {
        if s[i + k] != pat[k] {
            assert(s@.subrange(i as int, i + pat.len())[k as int] != pat@[k as int]);
            return false;
        }
        k = k + 1;
    }
    assert(s@.subrange(i as int, i + pat.len()) =~= pat@);
    true
}

/// The first occurrence of `pat` in `s` at or after byte `from`.
pub fn find_bytes(s: &[u8], pat: &[u8], from: usize) -> (res: Option<usize>)
    ensures
        match res {
            Some(i) => from <= i && matches_at(s@, pat@, i as int) && forall|j: int|
                from <= j < i ==> !#[trigger] matches_at(s@, pat@, j),
            None => forall|j: int| from <= j ==> !#[trigger] matches_at(s@, pat@, j),
        },
{
    if pat.len() > s.len() {
        return None;
    }
    let last = s.len() - pat.len();
    let mut i = from;
    while i < last
        invariant
            from <= i,
            last == s@.len() - pat@.len(),
            forall|j: int| from <= j < i ==> !#[trigger] matches_at(s@, pat@, j),
        decreases last - i,
    {
        if bytes_match_at(s, pat, i) {
            return Some(i);
        }
        i = i + 1;
    }
    if i == last && bytes_match_at(s, pat, i) {
        return Some(i);
    }
    assert forall|j: int| from <= j implies !#[trigger] matches_at(s@, pat@, j) by {
        if j > i {
            assert(j + pat@.len() > s@.len());
        }
    }
    None
}

/// Whether `pat` occurs anywhere in `s`.
pub fn contains_str(s: &str, pat: &str) -> (res: bool)
    ensures
        res == contains_bytes(s.spec_bytes(), pat.spec_bytes()),
{
    let found = find_bytes(s.as_bytes(), pat.as_bytes(), 0);
    match found {
        Some(i) => true,
        None => {
            assert forall|j: int| !#[trigger] matches_at(s.spec_bytes(), pat.spec_bytes(), j) by {
                if j >= 0 {
                }
            }
            false
        },
    }
}

/// Whether `s` begins with `pat`.
pub fn starts_with_str(s: &str, pat: &str) -> (res: bool)
    ensures
        res == matches_at(s.spec_bytes(), pat.spec_bytes(), 0),
{
    bytes_match_at(s.as_bytes(), pat.as_bytes(), 0)
}

/// The suffix of `s` from byte `mid`, which must be a character boundary.
pub fn str_from(s: &str, mid: usize) -> (res: &str)
    requires
        mid <= s.spec_bytes().len(),
        is_char_boundary(s.spec_bytes(), mid as int),
    ensures
        res.spec_bytes() == s.spec_bytes().subrange(mid as int, s.spec_bytes().len() as int),
        res@ == decode_utf8(s.spec_bytes().subrange(mid as int, s.spec_bytes().len() as int)),
{
    let (_, tail) = s.split_at(mid);
    proof {
        assert(decode_utf8(encode_utf8(tail@)) == tail@);
    }
    tail
}


/// `parts` separated by `sep`.
pub open spec fn join(parts: Seq<Seq<char>>, sep: Seq<char>) -> Seq<char>
    decreases parts.len(),
{
    if parts.len() == 0 {
        seq![]
    } else if parts.len() == 1 {
        parts[0]
    } else {
        join(parts.drop_last(), sep) + sep + parts.last()
    }
}

/// The strings of `parts` separated by `sep`.
pub fn join_strings(parts: &Vec<String>, sep: &str) -> (res: String)
    ensures
        res@ == join(parts@.map_values(|x: String| x@), sep@),
{
    let ghost pv = parts@.map_values(|x: String| x@);
    let mut res = String::new();
    let mut i: usize = 0;
    assert(pv.take(0) =~= Seq::<Seq<char>>::empty());
    while i < parts.len()
        invariant
            i <= parts.len(),
            pv == parts@.map_values(|x: String| x@),
            res@ == join(pv.take(i as int), sep@),
        decreases parts.len() - i,
    {
        proof {
            assert(pv.take(i + 1).drop_last() =~= pv.take(i as int));
            assert(pv.take(i + 1).last() == parts@[i as int]@);
        }
        if i == 0 {
            res.append(parts[i].as_str());
            assert(res@ =~= pv.take(1)[0]);
        } else {
            res.append(sep);
            res.append(parts[i].as_str());
        }
        i = i + 1;
    }
    assert(pv.take(parts.len() as int) =~= pv);
    res
}

/// A valid encoding that starts with another valid encoding has a character
/// boundary where that prefix ends.
pub proof fn lemma_prefix_boundary(t: Seq<u8>, pat: Seq<u8>)
    requires
        valid_utf8(t),
        valid_utf8(pat),
        pat.len() <= t.len(),
        t.subrange(0, pat.len() as int) == pat,
    ensures
        is_char_boundary(t, pat.len() as int),
    decreases pat.len(),
{
    if pat.len() > 0 {
        assert(t[0] == pat[0]) by {
            assert(t.subrange(0, pat.len() as int)[0] == t[0]);
        }
        let l = length_of_first_scalar(pat);
        assert(length_of_first_scalar(t) == l);
        assert(1 <= l <= pat.len()) by {
            assert(valid_first_scalar(pat));
        }
        let tp = pop_first_scalar(t);
        let pp = pop_first_scalar(pat);
        assert(tp.subrange(0, pp.len() as int) =~= pp) by {
            assert forall|k: int| 0 <= k < pp.len() implies tp.subrange(0, pp.len() as int)[k]
                == pp[k] by {
                assert(t.subrange(0, pat.len() as int)[k + l] == pat[k + l]);
            }
        }
        lemma_prefix_boundary(tp, pp);
    }
}

/// A match of a valid encoding at a character boundary ends at a character boundary.
pub proof fn lemma_match_end_boundary(s: Seq<u8>, pat: Seq<u8>, i: int)
    requires
        valid_utf8(s),
        valid_utf8(pat),
        is_char_boundary(s, i),
        matches_at(s, pat, i),
    ensures
        is_char_boundary(s, i + pat.len()),
{
    let t = s.subrange(i, s.len() as int);
    assert(valid_utf8(t));
    assert(t.subrange(0, pat.len() as int) =~= s.subrange(i, i + pat.len()));
    lemma_prefix_boundary(t, pat);
    if i + pat.len() < s.len() {
        assert(t[pat.len() as int] == s[i + pat.len()]);
        assert(is_char_boundary(t, pat.len() as int) <==> !is_continuation_byte(t[pat.len() as int]));
    }
}

/// A non-empty valid encoding matched in a valid encoding starts at a character boundary.
pub proof fn lemma_match_start_boundary(s: Seq<u8>, pat: Seq<u8>, i: int)
    requires
        valid_utf8(s),
        valid_utf8(pat),
        pat.len() > 0,
        matches_at(s, pat, i),
    ensures
        is_char_boundary(s, i),
{
    assert(is_char_boundary(pat, 0));
    assert(is_char_boundary(pat, 0) <==> !is_continuation_byte(pat[0]));
    assert(s[i] == pat[0]) by {
        assert(s.subrange(i, i + pat.len())[0] == s[i]);
    }
    assert(is_char_boundary(s, i) <==> !is_continuation_byte(s[i]));
}

/// Replace every non-overlapping occurrence of `pat`, scanning left to right.
pub open spec fn replace_bytes(s: Seq<u8>, pat: Seq<u8>, rep: Seq<u8>) -> Seq<u8>
    decreases s.len(),
{
    if s.len() == 0 || pat.len() == 0 {
        s
    } else if matches_at(s, pat, 0) {
        rep + replace_bytes(s.subrange(pat.len() as int, s.len() as int), pat, rep)
    } else {
        seq![s[0]] + replace_bytes(s.drop_first(), pat, rep)
    }
}

/// Without a match before `i`, replacement copies the bytes before `i`.
pub proof fn lemma_replace_skip(s: Seq<u8>, pat: Seq<u8>, rep: Seq<u8>, i: int)
    requires
        pat.len() > 0,
        0 <= i <= s.len(),
        forall|j: int| 0 <= j < i ==> !#[trigger] matches_at(s, pat, j),
    ensures
        replace_bytes(s, pat, rep) == s.subrange(0, i) + replace_bytes(
            s.subrange(i, s.len() as int),
            pat,
            rep,
        ),
    decreases i,
{
    if i == 0 {
        assert(s.subrange(0, 0) =~= Seq::<u8>::empty());
        assert(s.subrange(0, s.len() as int) =~= s);
    } else {
        assert(!matches_at(s, pat, 0));
        let d = s.drop_first();
        assert forall|j: int| 0 <= j < i - 1 implies !#[trigger] matches_at(d, pat, j) by {
            if matches_at(d, pat, j) {
                assert(s.subrange(j + 1, j + 1 + pat.len()) =~= d.subrange(j, j + pat.len()));
                assert(matches_at(s, pat, j + 1));
            }
        }
        lemma_replace_skip(d, pat, rep, i - 1);
        assert(d.subrange(i - 1, d.len() as int) =~= s.subrange(i, s.len() as int));
        assert(s.subrange(0, i) =~= seq![s[0]] + d.subrange(0, i - 1));
    }
}

/// The subrange of `s` between two character boundaries, as a string slice.
pub fn str_slice(s: &str, from: usize, to: usize) -> (res: &str)
    requires
        from <= to <= s.spec_bytes().len(),
        is_char_boundary(s.spec_bytes(), from as int),
        is_char_boundary(s.spec_bytes(), to as int),
    ensures
        res.spec_bytes() == s.spec_bytes().subrange(from as int, to as int),
{
    let (head, _) = s.split_at(to);
    proof {
        let b = s.spec_bytes();
        let h = b.subrange(0, to as int);
        assert(valid_utf8(h));
        if from < to {
            assert(h[from as int] == b[from as int]);
            assert(is_char_boundary(b, from as int) <==> !is_continuation_byte(b[from as int]));
            assert(is_char_boundary(h, from as int) <==> !is_continuation_byte(h[from as int]));
        }
        assert(head.spec_bytes() =~= h);
    }
    let (_, mid) = head.split_at(from);
    proof {
        assert(mid.spec_bytes() =~= s.spec_bytes().subrange(from as int, to as int));
    }
    mid
}

/// `s` with every non-overlapping occurrence of the non-empty `pat` replaced by
/// `rep`, scanning left to right (what `str::replace` returns).
pub fn replace_str(s: &str, pat: &str, rep: &str) -> (res: String)
    requires
        pat@.len() > 0,
    ensures
        bytes_of(res@) == replace_bytes(s.spec_bytes(), pat.spec_bytes(), rep.spec_bytes()),
{
    let sb = s.as_bytes();
    let pb = pat.as_bytes();
    let ghost sv = s.spec_bytes();
    let ghost pv = pat.spec_bytes();
    let ghost rv = rep.spec_bytes();
    proof {
        assert(pv.len() > 0) by {
            if pv.len() == 0 {
                assert(decode_utf8(pv) == pat@);
            }
        }
        assert(valid_utf8(sv));
        assert(valid_utf8(pv));
        assert(sv.subrange(0, sv.len() as int) =~= sv);
    }
    let mut res = String::new();
    let mut pos: usize = 0;
    while pos < sb.len()
        invariant
            sv == s.spec_bytes(),
            pv == pat.spec_bytes(),
            rv == rep.spec_bytes(),
            sb@ == sv,
            pb@ == pv,
            pv.len() > 0,
            valid_utf8(sv),
            valid_utf8(pv),
            pos <= sv.len(),
            is_char_boundary(sv, pos as int),
            bytes_of(res@) + replace_bytes(sv.subrange(pos as int, sv.len() as int), pv, rv)
                == replace_bytes(sv, pv, rv),
        decreases sv.len() - pos,
    {
        let ghost rest = sv.subrange(pos as int, sv.len() as int);
        match find_bytes(sb, pb, pos) {
            Some(i) => {
                proof {
                    lemma_match_start_boundary(sv, pv, i as int);
                    lemma_match_end_boundary(sv, pv, i as int);
                    assert forall|j: int| 0 <= j < i - pos implies !#[trigger] matches_at(rest, pv, j) by {
                        if matches_at(rest, pv, j) {
                            assert(sv.subrange(pos + j, pos + j + pv.len()) =~= rest.subrange(
                                j,
                                j + pv.len(),
                            ));
                            assert(matches_at(sv, pv, pos + j));
                        }
                    }
                    lemma_replace_skip(rest, pv, rv, i - pos);
                    let after = rest.subrange(i - pos, rest.len() as int);
                    assert(after =~= sv.subrange(i as int, sv.len() as int));
                    assert(after.subrange(0, pv.len() as int) =~= sv.subrange(i as int, i + pv.len()));
                    assert(matches_at(after, pv, 0));
                    assert(after.subrange(pv.len() as int, after.len() as int) =~= sv.subrange(
                        i + pv.len(),
                        sv.len() as int,
                    ));
                    assert(rest.subrange(0, i - pos) =~= sv.subrange(pos as int, i as int));
                }
                let piece = str_slice(s, pos, i);
                let ghost before = res@;
                res.append(piece);
                res.append(rep);
                proof {
                    lemma_encode_concat(before, piece@);
                    lemma_encode_concat(before + piece@, rep@);
                    assert(encode_utf8(piece@) == piece.spec_bytes());
                    assert(encode_utf8(rep@) == rv);
                    assert(res@ == before + piece@ + rep@);
                    assert(bytes_of(res@) =~= bytes_of(before) + sv.subrange(pos as int, i as int) + rv);
                }
                pos = i + pb.len();
            },
            None => {
                proof {
                    assert forall|j: int| 0 <= j < rest.len() implies !#[trigger] matches_at(rest, pv, j) by {
                        if matches_at(rest, pv, j) {
                            assert(sv.subrange(pos + j, pos + j + pv.len()) =~= rest.subrange(
                                j,
                                j + pv.len(),
                            ));
                            assert(matches_at(sv, pv, pos + j));
                        }
                    }
                    lemma_replace_skip(rest, pv, rv, rest.len() as int);
                    assert(rest.subrange(rest.len() as int, rest.len() as int) =~= Seq::<u8>::empty());
                    assert(rest.subrange(0, rest.len() as int) =~= rest);
                }
                let piece = str_from(s, pos);
                let ghost before = res@;
                res.append(piece);
                proof {
                    lemma_encode_concat(before, piece@);
                    assert(encode_utf8(piece@) == piece.spec_bytes());
                    assert(bytes_of(res@) =~= bytes_of(before) + rest);
                    assert(sv.subrange(sv.len() as int, sv.len() as int) =~= Seq::<u8>::empty());
                }
                pos = sb.len();
            },
        }
    }
    proof {
        assert(sv.subrange(pos as int, sv.len() as int) =~= Seq::<u8>::empty());
        assert(bytes_of(res@) + Seq::<u8>::empty() =~= bytes_of(res@));
    }
    res
}

/// The decimal digit for `d < 10`.
pub open spec fn digit_char(d: nat) -> char {
    if d == 0 {
        '0'
    } else if d == 1 {
        '1'
    } else if d == 2 {
        '2'
    } else if d == 3 {
        '3'
    } else if d == 4 {
        '4'
    } else if d == 5 {
        '5'
    } else if d == 6 {
        '6'
    } else if d == 7 {
        '7'
    } else if d == 8 {
        '8'
    } else {
        '9'
    }
}

/// The decimal notation of `n`, without sign or leading zeros.
pub open spec fn decimal(n: nat) -> Seq<char>
    decreases n,
{
    if n < 10 {
        seq![digit_char(n)]
    } else {
        decimal(n / 10).push(digit_char(n % 10))
    }
}

fn digit_str(d: u128) -> (res: &'static str)
    requires
        d < 10,
    ensures
        res@ == seq![digit_char(d as nat)],
{
    proof {
        reveal_strlit("0");
        reveal_strlit("1");
        reveal_strlit("2");
        reveal_strlit("3");
        reveal_strlit("4");
        reveal_strlit("5");
        reveal_strlit("6");
        reveal_strlit("7");
        reveal_strlit("8");
        reveal_strlit("9");
    }
    if d == 0 {
        "0"
    } else if d == 1 {
        "1"
    } else if d == 2 {
        "2"
    } else if d == 3 {
        "3"
    } else if d == 4 {
        "4"
    } else if d == 5 {
        "5"
    } else if d == 6 {
        "6"
    } else if d == 7 {
        "7"
    } else if d == 8 {
        "8"
    } else {
        "9"
    }
}

/// `n` in decimal notation (what `n.to_string()` gives).
pub fn decimal_string(n: u128) -> (res: String)
    ensures
        res@ == decimal(n as nat),
    decreases n,
{
    if n < 10 {
        String::from_str(digit_str(n))
    } else {
        let mut s = decimal_string(n / 10);
        s.append(digit_str(n % 10));
        s
    }
}

/// Whether `c` is white space in the sense of `char::is_whitespace` (the
/// Unicode `White_Space` property).
pub open spec fn is_space(c: char) -> bool {
    let u = c as u32;
    (0x09 <= u <= 0x0D) || u == 0x20 || u == 0x85 || u == 0xA0 || u == 0x1680 || (0x2000 <= u
        <= 0x200A) || u == 0x2028 || u == 0x2029 || u == 0x202F || u == 0x205F || u == 0x3000
}

/// Whether `c` is white space (`char::is_whitespace`).
pub fn char_is_space(c: char) -> (res: bool)
    ensures
        res == is_space(c),
{
    let u = c as u32;
    (0x09 <= u && u <= 0x0D) || u == 0x20 || u == 0x85 || u == 0xA0 || u == 0x1680 || (0x2000 <= u
        && u <= 0x200A) || u == 0x2028 || u == 0x2029 || u == 0x202F || u == 0x205F || u == 0x3000
}

/// The number of leading white-space characters of `s`.
pub open spec fn leading_space(s: Seq<char>) -> int
    decreases s.len(),
{
    if s.len() == 0 || !is_space(s[0]) {
        0
    } else {
        1 + leading_space(s.drop_first())
    }
}

/// The number of leading characters of `s` that are not white space.
pub open spec fn leading_word(s: Seq<char>) -> int
    decreases s.len(),
{
    if s.len() == 0 || is_space(s[0]) {
        0
    } else {
        1 + leading_word(s.drop_first())
    }
}

/// `s` without its leading white space (`str::trim_start`).
pub open spec fn trim_start(s: Seq<char>) -> Seq<char> {
    s.subrange(leading_space(s), s.len() as int)
}

/// The first white-space separated word (`split_whitespace().next()`).
pub open spec fn first_word(s: Seq<char>) -> Option<Seq<char>> {
    let t = trim_start(s);
    if t.len() == 0 {
        None
    } else {
        Some(t.subrange(0, leading_word(t)))
    }
}

pub proof fn lemma_leading_space(s: Seq<char>, k: int)
    requires
        0 <= k <= s.len(),
        forall|j: int| 0 <= j < k ==> is_space(#[trigger] s[j]),
        k == s.len() || !is_space(s[k]),
    ensures
        leading_space(s) == k,
    decreases k,
{
    if k > 0 {
        assert forall|j: int| 0 <= j < k - 1 implies is_space(#[trigger] s.drop_first()[j]) by {
            assert(s.drop_first()[j] == s[j + 1]);
        }
        lemma_leading_space(s.drop_first(), k - 1);
    }
}

pub proof fn lemma_leading_word(s: Seq<char>, k: int)
    requires
        0 <= k <= s.len(),
        forall|j: int| 0 <= j < k ==> !is_space(#[trigger] s[j]),
        k == s.len() || is_space(s[k]),
    ensures
        leading_word(s) == k,
    decreases k,
{
    if k > 0 {
        assert forall|j: int| 0 <= j < k - 1 implies !is_space(#[trigger] s.drop_first()[j]) by {
            assert(s.drop_first()[j] == s[j + 1]);
        }
        lemma_leading_word(s.drop_first(), k - 1);
    }
}

/// The number of leading white-space characters of `s`, in characters.
pub fn count_leading_space(s: &str) -> (res: usize)
    ensures
        res as int == leading_space(s@),
        res <= s@.len(),
{
    let n = s.unicode_len();
    let mut k: usize = 0;
    while k < n && char_is_space(s.get_char(k))
        invariant
            n == s@.len(),
            k <= n,
            forall|j: int| 0 <= j < k ==> is_space(#[trigger] s@[j]),
        decreases n - k,
    {
        k = k + 1;
    }
    proof {
        lemma_leading_space(s@, k as int);
    }
    k
}

/// `s` without its leading white space.
pub fn trim_start_str(s: &str) -> (res: &str)
    ensures
        res@ == trim_start(s@),
{
    let k = count_leading_space(s);
    let n = s.unicode_len();
    s.substring_char(k, n)
}

/// The first white-space separated word of `s`, if any.
pub fn first_word_str(s: &str) -> (res: Option<&str>)
    ensures
        match res {
            Some(w) => first_word(s@) == Some(w@),
            None => first_word(s@) is None,
        },
{
    let t = trim_start_str(s);
    let n = t.unicode_len();
    if n == 0 {
        return None;
    }
    let mut k: usize = 0;
    while k < n && !char_is_space(t.get_char(k))
        invariant
            n == t@.len(),
            k <= n,
            forall|j: int| 0 <= j < k ==> !is_space(#[trigger] t@[j]),
        decreases n - k,
    {
        k = k + 1;
    }
    proof {
        lemma_leading_word(t@, k as int);
    }
    Some(t.substring_char(0, k))
}

/// The first occurrence of `pat` in `s` at or after `i`.
pub open spec fn find_from(s: Seq<u8>, pat: Seq<u8>, i: int) -> Option<int>
    decreases s.len() + 1 - i,
{
    if i < 0 || i + pat.len() > s.len() {
        None
    } else if matches_at(s, pat, i) {
        Some(i)
    } else {
        find_from(s, pat, i + 1)
    }
}

/// What `find_from` finds: the first match at or after `from`, or none.
pub proof fn lemma_find_from_first(s: Seq<u8>, pat: Seq<u8>, from: int)
    requires
        0 <= from,
    ensures
        match find_from(s, pat, from) {
            Some(i) => from <= i && matches_at(s, pat, i) && forall|j: int|
                from <= j < i ==> !#[trigger] matches_at(s, pat, j),
            None => forall|j: int| from <= j ==> !#[trigger] matches_at(s, pat, j),
        },
    decreases s.len() + 1 - from,
{
    if from + pat.len() > s.len() {
    } else if matches_at(s, pat, from) {
    } else {
        lemma_find_from_first(s, pat, from + 1);
    }
}

/// `find_from` is the least match at or after `from`.
pub proof fn lemma_find_from(s: Seq<u8>, pat: Seq<u8>, from: int, found: Option<int>)
    requires
        0 <= from,
        match found {
            Some(i) => from <= i && matches_at(s, pat, i) && forall|j: int|
                from <= j < i ==> !#[trigger] matches_at(s, pat, j),
            None => forall|j: int| from <= j ==> !#[trigger] matches_at(s, pat, j),
        },
    ensures
        find_from(s, pat, from) == found,
    decreases s.len() + 1 - from,
{
    if from + pat.len() > s.len() {
        if let Some(i) = found {
            assert(i + pat.len() <= s.len());
        }
    } else if matches_at(s, pat, from) {
    } else {
        lemma_find_from(s, pat, from + 1, found);
    }
}

/// The first occurrence of `pat` in `s` at or after byte `from`, as `find_from`.
pub fn find_str(s: &str, pat: &str, from: usize) -> (res: Option<usize>)
    ensures
        match res {
            Some(i) => find_from(s.spec_bytes(), pat.spec_bytes(), from as int) == Some(i as int),
            None => find_from(s.spec_bytes(), pat.spec_bytes(), from as int) is None,
        },
{
    let r = find_bytes(s.as_bytes(), pat.as_bytes(), from);
    proof {
        match r {
            Some(i) => lemma_find_from(s.spec_bytes(), pat.spec_bytes(), from as int, Some(i as int)),
            None => lemma_find_from(s.spec_bytes(), pat.spec_bytes(), from as int, None),
        }
    }
    r
}

/// The number of trailing white-space characters of `s`.
pub open spec fn trailing_space(s: Seq<char>) -> int
    decreases s.len(),
{
    if s.len() == 0 || !is_space(s.last()) {
        0
    } else {
        1 + trailing_space(s.drop_last())
    }
}

/// `s` without its trailing white space (`str::trim_end`).
pub open spec fn trim_end(s: Seq<char>) -> Seq<char> {
    s.subrange(0, s.len() - trailing_space(s))
}

/// `s` without leading and trailing white space (`str::trim`).
pub open spec fn trim(s: Seq<char>) -> Seq<char> {
    trim_end(trim_start(s))
}

pub proof fn lemma_trailing_space(s: Seq<char>, k: int)
    requires
        0 <= k <= s.len(),
        forall|j: int| s.len() - k <= j < s.len() ==> is_space(#[trigger] s[j]),
        k == s.len() || !is_space(s[s.len() - k - 1]),
    ensures
        trailing_space(s) == k,
    decreases k,
{
    if k > 0 {
        assert forall|j: int| s.drop_last().len() - (k - 1) <= j < s.drop_last().len() implies is_space(
            #[trigger] s.drop_last()[j],
        ) by {
            assert(s.drop_last()[j] == s[j]);
        }
        if k - 1 < s.drop_last().len() {
            assert(s.drop_last()[s.drop_last().len() - (k - 1) - 1] == s[s.len() - k - 1]);
        }
        lemma_trailing_space(s.drop_last(), k - 1);
    }
}

/// `s` without its trailing white space.
pub fn trim_end_str(s: &str) -> (res: &str)
    ensures
        res@ == trim_end(s@),
{
    let n = s.unicode_len();
    let mut k: usize = 0;
    while k < n && char_is_space(s.get_char(n - k - 1))
        invariant
            n == s@.len(),
            k <= n,
            forall|j: int| n - k <= j < n ==> is_space(#[trigger] s@[j]),
        decreases n - k,
    {
        k = k + 1;
    }
    proof {
        lemma_trailing_space(s@, k as int);
    }
    s.substring_char(0, n - k)
}

/// `s` without leading and trailing white space.
pub fn trim_str(s: &str) -> (res: &str)
    ensures
        res@ == trim(s@),
{
    trim_end_str(trim_start_str(s))
}

/// The first `n` characters of `s` (all of it when shorter): what
/// `s.chars().take(n).collect::<String>()` gives.
pub open spec fn take_chars(s: Seq<char>, n: nat) -> Seq<char> {
    if s.len() <= n {
        s
    } else {
        s.subrange(0, n as int)
    }
}

/// The first `n` characters of `s`.
pub fn take_chars_str(s: &str, n: usize) -> (res: String)
    ensures
        res@ == take_chars(s@, n as nat),
{
    let len = s.unicode_len();
    let k = if len <= n {
        len
    } else {
        n
    };
    let prefix = s.substring_char(0, k);
    proof {
        if len <= n {
            assert(s@.subrange(0, len as int) =~= s@);
        }
    }
    String::from_str(prefix)
}
} // verus!
