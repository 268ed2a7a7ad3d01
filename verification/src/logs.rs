//! Log tails, frontend-line detection and diagnostic report assembly.

use vstd::prelude::*;
use vstd::utf8::*;
use vstd::string::StringSliceAdditionalSpecFns;
use crate::order::{
    first_after, lemma_first_after, lemma_sort_by_covers, lemma_sort_by_elements, sort_by,
};
use crate::text::{
    bytes_of, contains_bytes, contains_str, find_from, lemma_encode_concat,
    lemma_find_from_first, lemma_replace_skip, matches_at, replace_bytes, replace_str, str_from,
};

verus! {

broadcast use vstd::utf8::group_utf8_lib;

/// The byte where a tail of at most `max_bytes` bytes of `bytes` begins: the
/// first character boundary at or after `len - max_bytes` (saturating at 0).
pub open spec fn tail_start(bytes: Seq<u8>, max_bytes: nat, i: int) -> bool {
    let start = if bytes.len() >= max_bytes { bytes.len() - max_bytes } else { 0 };
    &&& start <= i <= bytes.len()
    &&& is_char_boundary(bytes, i)
    &&& forall|j: int| start <= j < i ==> !#[trigger] is_char_boundary(bytes, j)
}

/// The tail kept by `tail_bytes`: the bytes from its unique start.
pub open spec fn tail_of(bytes: Seq<u8>, max_bytes: nat) -> Seq<u8> {
    bytes.subrange(choose|i: int| tail_start(bytes, max_bytes, i), bytes.len() as int)
}

/// The start of a tail is unique.
pub proof fn lemma_tail_start_unique(bytes: Seq<u8>, max_bytes: nat, i: int, j: int)
    requires
        tail_start(bytes, max_bytes, i),
        tail_start(bytes, max_bytes, j),
    ensures
        i == j,
{
    if i < j {
        assert(!is_char_boundary(bytes, i));
    } else if j < i {
        assert(!is_char_boundary(bytes, j));
    }
}

/// The last `max_bytes` bytes of `s`, moved forward to the next character
/// boundary so that no character is split.
pub fn tail_bytes(s: &str, max_bytes: usize) -> (res: &str)
    ensures
        exists|i: int|
            tail_start(s.spec_bytes(), max_bytes as nat, i) && res.spec_bytes() == s.spec_bytes().subrange(
                i,
                s.spec_bytes().len() as int,
            ),
        res.spec_bytes() == tail_of(s.spec_bytes(), max_bytes as nat),
        res.spec_bytes().len() <= max_bytes,
        exists|k: int| 0 <= k <= s@.len() && res@ == s@.subrange(k, s@.len() as int),
{
    let len = s.as_bytes().len();
    let start = len.saturating_sub(max_bytes);
    let mut i = start;
    proof {
        assert(valid_utf8(s.spec_bytes()));
    }
    while i < len && !s.is_char_boundary(i)
        invariant
            len == s.spec_bytes().len(),
            start == (if len >= max_bytes { len - max_bytes } else { 0 }),
            start <= i <= len,
            valid_utf8(s.spec_bytes()),
            forall|j: int| start <= j < i ==> !#[trigger] is_char_boundary(s.spec_bytes(), j),
        decreases len - i,
    {
        i = i + 1;
    }
    let res = str_from(s, i);
    proof {
        let b = s.spec_bytes();
        assert(tail_start(b, max_bytes as nat, i as int));
        let c = choose|c: int| tail_start(b, max_bytes as nat, c);
        lemma_tail_start_unique(b, max_bytes as nat, i as int, c);
        lemma_char_suffix(s@, i as int);
    }
    res
}

/// Splitting the encoding of `chars` at a character boundary splits `chars` too.
pub proof fn lemma_char_suffix(chars: Seq<char>, i: int)
    requires
        0 <= i <= encode_utf8(chars).len(),
        is_char_boundary(encode_utf8(chars), i),
    ensures
        exists|k: int|
            0 <= k <= chars.len() && decode_utf8(
                encode_utf8(chars).subrange(i, encode_utf8(chars).len() as int),
            ) == chars.subrange(k, chars.len() as int),
{
    let b = encode_utf8(chars);
    let pre = decode_utf8(b.subrange(0, i));
    let post = decode_utf8(b.subrange(i, b.len() as int));
    assert(decode_utf8(b) == chars);
    assert(decode_utf8(b) =~= pre + post);
    let k = pre.len() as int;
    assert(chars.subrange(k, chars.len() as int) =~= post);
}


/// The log levels written before the target of a log line.
pub open spec fn frontend_marker(level: int) -> Seq<char> {
    if level == 0 {
        "TRACE frontend:"@
    } else if level == 1 {
        "DEBUG frontend:"@
    } else if level == 2 {
        "INFO frontend:"@
    } else if level == 3 {
        "WARN frontend:"@
    } else {
        "ERROR frontend:"@
    }
}

/// Whether a log line was written by the frontend: some level is directly
/// followed by the `frontend` target. Leading blanks are irrelevant because a
/// marker never starts with one.
pub open spec fn is_frontend_line(line: Seq<u8>) -> bool {
    exists|level: int| 0 <= level < 5 && contains_bytes(line, bytes_of(#[trigger] frontend_marker(level)))
}

/// Whether `line` is a frontend log line (`LEVEL frontend:` follows the timestamp).
pub fn is_frontend_log_line(line: &str) -> (res: bool)
    ensures
        res == is_frontend_line(line.spec_bytes()),
{
    let found = contains_str(line, "TRACE frontend:") || contains_str(line, "DEBUG frontend:")
        || contains_str(line, "INFO frontend:") || contains_str(line, "WARN frontend:")
        || contains_str(line, "ERROR frontend:");
    proof {
        let b = line.spec_bytes();
        assert(frontend_marker(0) == "TRACE frontend:"@);
        assert(frontend_marker(1) == "DEBUG frontend:"@);
        assert(frontend_marker(2) == "INFO frontend:"@);
        assert(frontend_marker(3) == "WARN frontend:"@);
        assert(frontend_marker(4) == "ERROR frontend:"@);
        if !found {
            assert forall|level: int| 0 <= level < 5 implies !contains_bytes(
                b,
                bytes_of(#[trigger] frontend_marker(level)),
            ) by {
                if level == 0 {
                } else if level == 1 {
                } else if level == 2 {
                } else if level == 3 {
                } else {
                }
            }
        }
    }
    found
}

/// The pattern of secrets in diagnostic text: a credential-like key, a `:` or
/// `=` separator, then the value up to whitespace, `,` or `;`.
pub const SECRET_PATTERN: &'static str =
    r"(?i)(authorization|cookie|api[_-]?key|access[_-]?token|control[_-]?token|token|password|secret)(\s*[:=]\s*)([^\s,;]+)";

/// What replaces a matched secret: the key and separator, then `<REDACTED>`.
pub const SECRET_REPLACEMENT: &'static str = "$1$2<REDACTED>";

/// What `regex::Regex::new(pattern)` and then `replace_all(text, replacement)`
/// give: `None` when the pattern does not compile.
pub uninterp spec fn regex_replacement(
    pattern: Seq<char>,
    text: Seq<char>,
    replacement: Seq<char>,
) -> Option<Seq<char>>;

/// Compile `pattern` with `regex::Regex::new` and replace all its matches in
/// `text` by `replacement` (with `$n` group references); `None` when the
/// pattern does not compile. The result is named, not described.
#[verifier::external_body]
fn regex_replace_all(pattern: &str, text: &str, replacement: &str) -> (res: Option<String>)
    ensures
        match res {
            Some(out) => regex_replacement(pattern@, text@, replacement@) == Some(out@),
            None => regex_replacement(pattern@, text@, replacement@) is None,
        },
{
    match regex::Regex::new(pattern) {
        Ok(re) => Some(re.replace_all(text, replacement).into_owned()),
        Err(_) => None,
    }
}

/// Replacement pairs as character sequences.
pub open spec fn pair_views(s: Seq<(String, String)>) -> Seq<(Seq<char>, Seq<char>)> {
    s.map_values(|p: (String, String)| (p.0@, p.1@))
}

/// The pairs whose path is not empty, in order.
pub open spec fn nonempty_roots(s: Seq<(Seq<char>, Seq<char>)>) -> Seq<(Seq<char>, Seq<char>)>
    decreases s.len(),
{
    if s.len() == 0 {
        s
    } else {
        let prev = nonempty_roots(s.drop_last());
        if s.last().0.len() == 0 {
            prev
        } else {
            prev.push(s.last())
        }
    }
}

pub proof fn lemma_nonempty_roots(s: Seq<(Seq<char>, Seq<char>)>)
    ensures
        forall|i: int| 0 <= i < nonempty_roots(s).len() ==> (#[trigger] nonempty_roots(s)[i]).0.len() > 0,
    decreases s.len(),
{
    if s.len() > 0 {
        lemma_nonempty_roots(s.drop_last());
        let prev = nonempty_roots(s.drop_last());
        assert forall|i: int| 0 <= i < nonempty_roots(s).len() implies (#[trigger] nonempty_roots(
            s,
        )[i]).0.len() > 0 by {
            if i < prev.len() {
                assert(nonempty_roots(s)[i] == prev[i]);
            }
        }
    }
}

/// Longer paths first; equal lengths keep their order.
pub open spec fn longest_path_first() -> spec_fn((Seq<char>, Seq<char>), (Seq<char>, Seq<char>)) -> int {
    |a: (Seq<char>, Seq<char>), b: (Seq<char>, Seq<char>)|
        if bytes_of(a.0).len() > bytes_of(b.0).len() {
            -1int
        } else if bytes_of(a.0).len() < bytes_of(b.0).len() {
            1int
        } else {
            0int
        }
}

/// The spelling of a path with `/` for every `\`.
pub open spec fn slashed(path: Seq<char>) -> Seq<u8> {
    replace_bytes(bytes_of(path), bytes_of("\\"@), bytes_of("/"@))
}

/// Replace a path, and its spelling with `/` for `\`, by its placeholder.
pub open spec fn replace_root(text: Seq<u8>, path: Seq<char>, placeholder: Seq<char>) -> Seq<u8> {
    replace_bytes(
        replace_bytes(text, bytes_of(path), bytes_of(placeholder)),
        slashed(path),
        bytes_of(placeholder),
    )
}

/// Apply `replace_root` for each pair in order.
pub open spec fn replace_roots(text: Seq<u8>, roots: Seq<(Seq<char>, Seq<char>)>) -> Seq<u8>
    decreases roots.len(),
{
    if roots.len() == 0 {
        text
    } else {
        let prev = replace_roots(text, roots.drop_last());
        replace_root(prev, roots.last().0, roots.last().1)
    }
}

/// Replacing a pattern by one of the same length keeps the length.
pub proof fn lemma_replace_same_len(s: Seq<u8>, pat: Seq<u8>, rep: Seq<u8>)
    requires
        pat.len() == rep.len(),
    ensures
        replace_bytes(s, pat, rep).len() == s.len(),
    decreases s.len(),
{
    if s.len() > 0 && pat.len() > 0 {
        if matches_at_zero(s, pat) {
            lemma_replace_same_len(s.subrange(pat.len() as int, s.len() as int), pat, rep);
        } else {
            lemma_replace_same_len(s.drop_first(), pat, rep);
        }
    }
}

pub open spec fn matches_at_zero(s: Seq<u8>, pat: Seq<u8>) -> bool {
    crate::text::matches_at(s, pat, 0)
}

/// Stable sort of the replacement pairs, longest path first.
fn sort_longest_first(v: &Vec<(String, String)>) -> (res: Vec<(String, String)>)
    ensures
        pair_views(res@) == sort_by(pair_views(v@), longest_path_first()),
{
    let mut res: Vec<(String, String)> = Vec::new();
    let mut i: usize = 0;
    while i < v.len()
        invariant
            i <= v.len(),
            pair_views(res@) == sort_by(pair_views(v@).take(i as int), longest_path_first()),
        decreases v.len() - i,
    {
        let x = (v[i].0.clone(), v[i].1.clone());
        let xlen = x.0.as_str().as_bytes().len();
        let mut p: usize = 0;
        while p < res.len() && res[p].0.as_str().as_bytes().len() >= xlen
            invariant
                p <= res.len(),
                xlen == bytes_of(x.0@).len(),
                forall|q: int|
                    0 <= q < p ==> (longest_path_first())(#[trigger] pair_views(res@)[q], (x.0@, x.1@))
                        <= 0,
            decreases res.len() - p,
        {
            p = p + 1;
        }
        proof {
            lemma_first_after(pair_views(res@), (x.0@, x.1@), longest_path_first(), p as int);
            assert(pair_views(v@).take(i + 1).drop_last() =~= pair_views(v@).take(i as int));
            assert(pair_views(v@).take(i + 1).last() == (x.0@, x.1@));
        }
        let ghost before = res@;
        res.insert(p, x);
        proof {
            assert(pair_views(res@) =~= pair_views(before).insert(p as int, (x.0@, x.1@)));
        }
        i = i + 1;
    }
    assert(pair_views(v@).take(v.len() as int) =~= pair_views(v@));
    res
}

/// The text with every root path (and its `/` spelling) replaced by its
/// placeholder, longest paths first, before secrets are redacted.
pub open spec fn paths_redacted(input: Seq<char>, roots: Seq<(String, String)>) -> Seq<u8> {
    replace_roots(
        bytes_of(input),
        sort_by(nonempty_roots(pair_views(roots)), longest_path_first()),
    )
}

/// The redacted text: roots replaced, then secrets (when the secret pattern
/// compiles, which it does).
pub open spec fn redacted_text(input: Seq<char>, roots: Seq<(String, String)>) -> Seq<char> {
    let replaced = decode_utf8(paths_redacted(input, roots));
    match regex_replacement(SECRET_PATTERN@, replaced, SECRET_REPLACEMENT@) {
        Some(out) => out,
        None => replaced,
    }
}

/// Redact diagnostic text for pasting into a bug report: each `(path,
/// placeholder)` root is replaced (longest path first, also in its `/`
/// spelling), then every credential-like `key: value` keeps its key and loses
/// its value to `<REDACTED>`.
pub fn redact_diagnostic_text(input: &str, roots: &Vec<(String, String)>) -> (res: String)
    ensures
        res@ == redacted_text(input@, roots@),
{
    let mut kept: Vec<(String, String)> = Vec::new();
    let mut i: usize = 0;
    while i < roots.len()
        invariant
            i <= roots.len(),
            pair_views(kept@) == nonempty_roots(pair_views(roots@).take(i as int)),
        decreases roots.len() - i,
    {
        proof {
            assert(pair_views(roots@).take(i + 1).drop_last() =~= pair_views(roots@).take(i as int));
            assert(pair_views(roots@).take(i + 1).last() == (roots@[i as int].0@, roots@[i as int].1@));
        }
        if !roots[i].0.as_str().is_empty() {
            let ghost before = kept@;
            kept.push((roots[i].0.clone(), roots[i].1.clone()));
            proof {
                assert(pair_views(kept@) =~= pair_views(before).push(
                    (roots@[i as int].0@, roots@[i as int].1@),
                ));
            }
        }
        i = i + 1;
    }
    assert(pair_views(roots@).take(roots.len() as int) =~= pair_views(roots@));
    let sorted = sort_longest_first(&kept);
    let ghost order = pair_views(sorted@);
    let mut output = String::from_str(input);
    let mut k: usize = 0;
    assert(order.take(0) =~= Seq::<(Seq<char>, Seq<char>)>::empty());
    proof {
        let ne = nonempty_roots(pair_views(roots@));
        lemma_nonempty_roots(pair_views(roots@));
        lemma_sort_by_elements(ne, longest_path_first());
        assert forall|q: int| 0 <= q < sorted.len() implies (#[trigger] order[q]).0.len() > 0 by {
            let j = choose|j: int| 0 <= j < ne.len() && sort_by(ne, longest_path_first())[q] == ne[j];
        }
    }
    while k < sorted.len()
        invariant
            k <= sorted.len(),
            order == pair_views(sorted@),
            forall|q: int| 0 <= q < sorted.len() ==> (#[trigger] order[q]).0.len() > 0,
            bytes_of(output@) == replace_roots(bytes_of(input@), order.take(k as int)),
        decreases sorted.len() - k,
    {
        let path = &sorted[k].0;
        let placeholder = &sorted[k].1;
        proof {
            assert(order.take(k + 1).drop_last() =~= order.take(k as int));
            assert(order.take(k + 1).last() == (path@, placeholder@));
            assert(order[k as int].0.len() > 0);
            reveal_strlit("\\");
            assert("\\"@.len() > 0);
        }
        let once = replace_str(output.as_str(), path.as_str(), placeholder.as_str());
        let slashed = replace_str(path.as_str(), "\\", "/");
        proof {
            reveal_strlit("\\");
            reveal_strlit("/");
            assert(bytes_of("\\"@).len() == bytes_of("/"@).len()) by {
                assert(vstd::utf8::is_ascii_chars("\\"@));
                assert(vstd::utf8::is_ascii_chars("/"@));
            }
            lemma_replace_same_len(bytes_of(path@), bytes_of("\\"@), bytes_of("/"@));
            assert(bytes_of(path@).len() > 0) by {
                assert(vstd::utf8::decode_utf8(bytes_of(path@)) == path@);
                if bytes_of(path@).len() == 0 {
                    assert(bytes_of(path@) =~= Seq::<u8>::empty());
                }
            }
            assert(slashed@.len() > 0) by {
                if slashed@.len() == 0 {
                    assert(bytes_of(slashed@) =~= Seq::<u8>::empty());
                }
            }
        }
        output = replace_str(once.as_str(), slashed.as_str(), placeholder.as_str());
        k = k + 1;
    }
    assert(order.take(sorted.len() as int) =~= order);
    proof {
        assert(decode_utf8(bytes_of(output@)) == output@);
    }
    match regex_replace_all(SECRET_PATTERN, output.as_str(), SECRET_REPLACEMENT) {
        Some(out) => out,
        None => output,
    }
}
/// A placeholder that cannot help spell `q`: it is not empty, it does not
/// contain `q`, and neither its first nor its last byte occurs in `q` (as
/// with `<APP_DATA>` and a path without `<` or `>`).
pub open spec fn placeholder_safe(q: Seq<u8>, rep: Seq<u8>) -> bool {
    &&& rep.len() > 0
    &&& !contains_bytes(rep, q)
    &&& forall|k: int| 0 <= k < q.len() ==> #[trigger] q[k] != rep[0] && q[k] != rep[rep.len() - 1]
}

/// An occurrence of `q` after replacing `pat` by a placeholder safe for `q`
/// was already in the text, and it is never `pat` itself.
proof fn lemma_replace_occurrence(s: Seq<u8>, pat: Seq<u8>, rep: Seq<u8>, q: Seq<u8>, j: int)
    requires
        pat.len() > 0,
        placeholder_safe(q, rep),
        matches_at(replace_bytes(s, pat, rep), q, j),
    ensures
        contains_bytes(s, q),
        q != pat,
    decreases s.len(),
{
    let r = replace_bytes(s, pat, rep);
    let lq = q.len() as int;
    lemma_find_from_first(s, pat, 0);
    match find_from(s, pat, 0) {
        None => {
            lemma_replace_skip(s, pat, rep, s.len() as int);
            assert(s.subrange(s.len() as int, s.len() as int) =~= Seq::<u8>::empty());
            assert(s.subrange(0, s.len() as int) =~= s);
            assert(r =~= s);
            assert(matches_at(s, q, j));
        },
        Some(i) => {
            let lp = pat.len() as int;
            lemma_replace_skip(s, pat, rep, i);
            let u = s.subrange(i, s.len() as int);
            let t = s.subrange(i + lp, s.len() as int);
            assert(u.subrange(0, lp) =~= s.subrange(i, i + lp));
            assert(matches_at(u, pat, 0));
            assert(u.subrange(lp, u.len() as int) =~= t);
            let rt = replace_bytes(t, pat, rep);
            assert(r =~= s.subrange(0, i) + rep + rt);
            let a = i;
            let b = i + rep.len();
            assert(r.subrange(j, j + lq) == q);
            if j + lq <= a {
                assert(s.subrange(j, j + lq) =~= r.subrange(j, j + lq));
                assert(matches_at(s, q, j));
                if q == pat {
                    assert(!matches_at(s, pat, j));
                }
            } else if j < a {
                assert(r[a] == rep[0]);
                assert(q[a - j] == r.subrange(j, j + lq)[a - j]);
                assert(q[a - j] != rep[0]);
            } else if j + lq <= b {
                assert(rep.subrange(j - a, j - a + lq) =~= r.subrange(j, j + lq));
                assert(matches_at(rep, q, j - a));
            } else if j < b {
                assert(r[b - 1] == rep[rep.len() - 1]);
                assert(q[b - 1 - j] == r.subrange(j, j + lq)[b - 1 - j]);
                assert(q[b - 1 - j] != rep[rep.len() - 1]);
            } else {
                assert(rt.subrange(j - b, j - b + lq) =~= r.subrange(j, j + lq));
                lemma_replace_occurrence(t, pat, rep, q, j - b);
                let k = choose|k: int| matches_at(t, q, k);
                assert(s.subrange(i + lp + k, i + lp + k + lq) =~= t.subrange(k, k + lq));
                assert(matches_at(s, q, i + lp + k));
            }
        },
    }
}

/// Replacing `pat` by a placeholder safe for `q` creates no occurrence of
/// `q`.
proof fn lemma_replace_keeps_absent(s: Seq<u8>, pat: Seq<u8>, rep: Seq<u8>, q: Seq<u8>)
    requires
        pat.len() > 0,
        placeholder_safe(q, rep),
        !contains_bytes(s, q),
    ensures
        !contains_bytes(replace_bytes(s, pat, rep), q),
{
    assert forall|j: int| !matches_at(replace_bytes(s, pat, rep), q, j) by {
        if matches_at(replace_bytes(s, pat, rep), q, j) {
            lemma_replace_occurrence(s, pat, rep, q, j);
        }
    }
}

/// Replacing `pat` by a placeholder safe for it leaves no `pat`.
proof fn lemma_replace_clears(s: Seq<u8>, pat: Seq<u8>, rep: Seq<u8>)
    requires
        pat.len() > 0,
        placeholder_safe(pat, rep),
    ensures
        !contains_bytes(replace_bytes(s, pat, rep), pat),
{
    assert forall|j: int| !matches_at(replace_bytes(s, pat, rep), pat, j) by {
        if matches_at(replace_bytes(s, pat, rep), pat, j) {
            lemma_replace_occurrence(s, pat, rep, pat, j);
        }
    }
}

/// A non-empty path keeps a non-empty `/` spelling.
proof fn lemma_slashed_nonempty(path: Seq<char>)
    requires
        path.len() > 0,
    ensures
        bytes_of(path).len() > 0,
        slashed(path).len() > 0,
{
    assert(decode_utf8(bytes_of(path)) == path);
    if bytes_of(path).len() == 0 {
        assert(bytes_of(path) =~= Seq::<u8>::empty());
    }
    reveal_strlit("\\");
    reveal_strlit("/");
    assert(bytes_of("\\"@).len() == bytes_of("/"@).len()) by {
        assert(vstd::utf8::is_ascii_chars("\\"@));
        assert(vstd::utf8::is_ascii_chars("/"@));
    }
    lemma_replace_same_len(bytes_of(path), bytes_of("\\"@), bytes_of("/"@));
}

/// Whether every placeholder of `roots` is safe for every path of `roots`
/// and for its `/` spelling.
pub open spec fn placeholders_safe(roots: Seq<(Seq<char>, Seq<char>)>) -> bool {
    forall|a: int, b: int|
        0 <= a < roots.len() && 0 <= b < roots.len() ==> placeholder_safe(
            bytes_of(#[trigger] roots[a].0),
            bytes_of(#[trigger] roots[b].1),
        ) && placeholder_safe(slashed(roots[a].0), bytes_of(roots[b].1))
}

/// Replacing roots in turn leaves none of them, in either spelling.
proof fn lemma_replace_roots_clears(text: Seq<u8>, roots: Seq<(Seq<char>, Seq<char>)>)
    requires
        forall|a: int| 0 <= a < roots.len() ==> (#[trigger] roots[a]).0.len() > 0,
        placeholders_safe(roots),
    ensures
        forall|a: int|
            0 <= a < roots.len() ==> !contains_bytes(
                replace_roots(text, roots),
                bytes_of(#[trigger] roots[a].0),
            ) && !contains_bytes(replace_roots(text, roots), slashed(roots[a].0)),
    decreases roots.len(),
{
    if roots.len() > 0 {
        let prev_roots = roots.drop_last();
        assert forall|a: int| 0 <= a < prev_roots.len() implies #[trigger] prev_roots[a]
            == roots[a] by {}
        assert(placeholders_safe(prev_roots)) by {
            assert forall|a: int, b: int|
                0 <= a < prev_roots.len() && 0 <= b < prev_roots.len() implies placeholder_safe(
                bytes_of(#[trigger] prev_roots[a].0),
                bytes_of(#[trigger] prev_roots[b].1),
            ) && placeholder_safe(slashed(prev_roots[a].0), bytes_of(prev_roots[b].1)) by {
                assert(prev_roots[a] == roots[a]);
                assert(prev_roots[b] == roots[b]);
            }
        }
        lemma_replace_roots_clears(text, prev_roots);
        let prev = replace_roots(text, prev_roots);
        let n = roots.len() - 1;
        let last = roots[n];
        assert(roots.last() == last);
        let ph = bytes_of(last.1);
        let p = bytes_of(last.0);
        let sl = slashed(last.0);
        lemma_slashed_nonempty(last.0);
        let mid = replace_bytes(prev, p, ph);
        let out = replace_bytes(mid, sl, ph);
        assert(replace_roots(text, roots) == out);
        assert forall|a: int| 0 <= a < roots.len() implies !contains_bytes(
            out,
            bytes_of(#[trigger] roots[a].0),
        ) && !contains_bytes(out, slashed(roots[a].0)) by {
            let pa = bytes_of(roots[a].0);
            let sa = slashed(roots[a].0);
            assert(placeholder_safe(pa, ph) && placeholder_safe(sa, ph)) by {
                assert(roots[n] == last);
            }
            if a < n {
                assert(prev_roots[a] == roots[a]);
                lemma_replace_keeps_absent(prev, p, ph, pa);
                lemma_replace_keeps_absent(mid, sl, ph, pa);
                lemma_replace_keeps_absent(prev, p, ph, sa);
                lemma_replace_keeps_absent(mid, sl, ph, sa);
            } else {
                lemma_replace_clears(prev, p, ph);
                lemma_replace_keeps_absent(mid, sl, ph, pa);
                lemma_replace_clears(mid, sl, ph);
            }
        }
    }
}

/// After the roots are replaced, no non-empty root path remains in the
/// text, in its own or its `/` spelling, provided every placeholder is safe
/// for every root (non-empty, not containing a root, and beginning and ending
/// with bytes no root contains).
pub proof fn lemma_roots_do_not_survive(input: Seq<char>, roots: Seq<(String, String)>)
    requires
        placeholders_safe(nonempty_roots(pair_views(roots))),
    ensures
        forall|a: int|
            0 <= a < nonempty_roots(pair_views(roots)).len() ==> !contains_bytes(
                paths_redacted(input, roots),
                bytes_of(#[trigger] nonempty_roots(pair_views(roots))[a].0),
            ) && !contains_bytes(
                paths_redacted(input, roots),
                slashed(nonempty_roots(pair_views(roots))[a].0),
            ),
{
    let ne = nonempty_roots(pair_views(roots));
    let order = sort_by(ne, longest_path_first());
    lemma_nonempty_roots(pair_views(roots));
    lemma_sort_by_elements(ne, longest_path_first());
    lemma_sort_by_covers(ne, longest_path_first());
    assert forall|a: int| 0 <= a < order.len() implies (#[trigger] order[a]).0.len() > 0 by {
        let j = choose|j: int| 0 <= j < ne.len() && order[a] == ne[j];
    }
    assert(placeholders_safe(order)) by {
        assert forall|a: int, b: int|
            0 <= a < order.len() && 0 <= b < order.len() implies placeholder_safe(
            bytes_of(#[trigger] order[a].0),
            bytes_of(#[trigger] order[b].1),
        ) && placeholder_safe(slashed(order[a].0), bytes_of(order[b].1)) by {
            let ja = choose|j: int| 0 <= j < ne.len() && order[a] == ne[j];
            let jb = choose|j: int| 0 <= j < ne.len() && order[b] == ne[j];
            assert(placeholder_safe(bytes_of(ne[ja].0), bytes_of(ne[jb].1)));
        }
    }
    lemma_replace_roots_clears(bytes_of(input), order);
    assert forall|a: int| 0 <= a < ne.len() implies !contains_bytes(
        paths_redacted(input, roots),
        bytes_of(#[trigger] ne[a].0),
    ) && !contains_bytes(paths_redacted(input, roots), slashed(ne[a].0)) by {
        let i = choose|i: int| 0 <= i < order.len() && order[i] == #[trigger] ne[a];
        assert(order[i].0 == ne[a].0);
    }
}

} // verus!
