//! The allow-list of directories that the shell lets the frontend reveal or
//! open: a canonical path is allowed when one allowed root is a prefix of it,
//! component by component, with the separators of the platform the shell
//! runs on (`/` everywhere, and also `\` on Windows).

use vstd::prelude::*;
use vstd::string::StringSliceAdditionalSpecFns;
use vstd::utf8::encode_utf8;

verus! {

/// A path separator: `/`, and on Windows also `\`.
pub open spec fn is_sep(c: u8, windows: bool) -> bool {
    c == 47u8 || (windows && c == 92u8)
}

/// The first separator at or after `i` (the length when there is none).
pub open spec fn sep_from(b: Seq<u8>, i: int, windows: bool) -> int
    decreases b.len() - i,
{
    if i < 0 || i >= b.len() {
        b.len() as int
    } else if is_sep(b[i], windows) {
        i
    } else {
        sep_from(b, i + 1, windows)
    }
}

/// `sep_from` is the first separator at or after `i`.
pub proof fn lemma_sep_from(b: Seq<u8>, i: int, windows: bool)
    requires
        0 <= i <= b.len(),
    ensures
        i <= sep_from(b, i, windows) <= b.len(),
        sep_from(b, i, windows) < b.len() ==> is_sep(b[sep_from(b, i, windows)], windows),
        forall|j: int| i <= j < sep_from(b, i, windows) ==> !is_sep(b[j], windows),
    decreases b.len() - i,
{
    if i < b.len() && !is_sep(b[i], windows) {
        lemma_sep_from(b, i + 1, windows);
    }
}

/// Whether the name between `pos` and `k` adds no component: it is empty, or
/// it is `.` anywhere but at the very start of the path.
pub open spec fn skipped_name(b: Seq<u8>, pos: int, k: int) -> bool {
    k == pos || (pos > 0 && k == pos + 1 && b[pos] == 46u8)
}

/// The names between separators from byte `pos` on, without empty names and
/// without `.` past the start.
pub open spec fn segments_from(b: Seq<u8>, pos: int, windows: bool) -> Seq<Seq<u8>>
    decreases b.len() - pos,
{
    if pos < 0 || pos >= b.len() {
        Seq::empty()
    } else {
        let k = sep_from(b, pos, windows);
        proof {
            lemma_sep_from(b, pos, windows);
        }
        let rest = if k < b.len() {
            segments_from(b, k + 1, windows)
        } else {
            Seq::empty()
        };
        if skipped_name(b, pos, k) {
            rest
        } else {
            seq![b.subrange(pos, k)] + rest
        }
    }
}

/// The components of a path: a root marker when it starts with a separator,
/// then its names; repeated and trailing separators and inner `.` names add
/// nothing.
pub open spec fn path_components(b: Seq<u8>, windows: bool) -> Seq<Seq<u8>> {
    if b.len() > 0 && is_sep(b[0], windows) {
        seq![seq![47u8]] + segments_from(b, 0, windows)
    } else {
        segments_from(b, 0, windows)
    }
}

/// Whether the components of `root` begin the components of `path`.
pub open spec fn component_prefix(path: Seq<u8>, root: Seq<u8>, windows: bool) -> bool {
    let p = path_components(path, windows);
    let r = path_components(root, windows);
    r.len() <= p.len() && p.subrange(0, r.len() as int) == r
}

/// Byte vectors as sequences.
pub open spec fn byte_views(v: Seq<Vec<u8>>) -> Seq<Seq<u8>> {
    v.map_values(|x: Vec<u8>| x@)
}

/// The bytes of `b` from `from` to `to`.
fn copy_range(b: &[u8], from: usize, to: usize) -> (res: Vec<u8>)
    requires
        from <= to <= b@.len(),
    ensures
        res@ == b@.subrange(from as int, to as int),
{
    let mut res: Vec<u8> = Vec::new();
    let mut i: usize = from;
    while i < to
        invariant
            from <= i <= to,
            to <= b@.len(),
            res@ == b@.subrange(from as int, i as int),
        decreases to - i,
    {
        res.push(b[i]);
        assert(res@ =~= b@.subrange(from as int, i + 1));
        i = i + 1;
    }
    res
}

/// Whether `c` separates path names.
fn separates(c: u8, windows: bool) -> (res: bool)
    ensures
        res == is_sep(c, windows),
{
    c == 47u8 || (windows && c == 92u8)
}

/// The components of the path spelled by `b`.
pub fn components(b: &[u8], windows: bool) -> (res: Vec<Vec<u8>>)
    ensures
        byte_views(res@) == path_components(b@, windows),
{
    let len = b.len();
    let mut res: Vec<Vec<u8>> = Vec::new();
    let rooted = len > 0 && separates(b[0], windows);
    if rooted {
        let mut marker: Vec<u8> = Vec::new();
        marker.push(47u8);
        res.push(marker);
        assert(byte_views(res@) =~= seq![seq![47u8]]);
    } else {
        assert(byte_views(res@) =~= Seq::<Seq<u8>>::empty());
    }
    let ghost head = byte_views(res@);
    let mut pos: usize = 0;
    while pos < len
        invariant
            len == b@.len(),
            pos <= len,
            head + segments_from(b@, 0, windows) == byte_views(res@) + segments_from(
                b@,
                pos as int,
                windows,
            ),
        decreases len - pos,
    {
        let mut k: usize = pos;
        while k < len && !separates(b[k], windows)
            invariant
                len == b@.len(),
                pos <= k <= len,
                forall|j: int| pos <= j < k ==> !is_sep(b@[j], windows),
            decreases len - k,
        {
            k = k + 1;
        }
        proof {
            lemma_sep_from(b@, pos as int, windows);
            let sf = sep_from(b@, pos as int, windows);
            if sf < k {
                assert(!is_sep(b@[sf], windows));
            }
            if k < sf {
                assert(is_sep(b@[k as int], windows));
            }
        }
        let ghost before = byte_views(res@);
        let ghost rest = if k < len {
            segments_from(b@, k + 1, windows)
        } else {
            Seq::<Seq<u8>>::empty()
        };
        let skip = k == pos || (pos > 0 && k == pos + 1 && b[pos] == 46u8);
        if !skip {
            let seg = copy_range(b, pos, k);
            res.push(seg);
            proof {
                assert(byte_views(res@) =~= before.push(b@.subrange(pos as int, k as int)));
                assert(byte_views(res@) + rest =~= before + (seq![
                    b@.subrange(pos as int, k as int),
                ] + rest));
            }
        }
        if k < len {
            pos = k + 1;
        } else {
            proof {
                assert(segments_from(b@, len as int, windows) =~= Seq::<Seq<u8>>::empty());
                assert(byte_views(res@) + segments_from(b@, len as int, windows) =~= byte_views(
                    res@,
                ) + rest);
            }
            pos = len;
        }
    }
    proof {
        assert(segments_from(b@, pos as int, windows) =~= Seq::<Seq<u8>>::empty());
        assert(byte_views(res@) + segments_from(b@, pos as int, windows) =~= byte_views(res@));
    }
    res
}

/// Whether two byte vectors are equal.
fn same_bytes(a: &Vec<u8>, b: &Vec<u8>) -> (res: bool)
    ensures
        res == (a@ == b@),
{
    if a.len() != b.len() {
        return false;
    }
    let mut i: usize = 0;
    while i < a.len()
        invariant
            a.len() == b.len(),
            i <= a.len(),
            forall|j: int| 0 <= j < i ==> a@[j] == b@[j],
        decreases a.len() - i,
    {
        if a[i] != b[i] {
            return false;
        }
        i = i + 1;
    }
    assert(a@ =~= b@);
    true
}

/// Whether `root` is a prefix of `path` component by component, so that
/// `/data/app` covers `/data/app/x` but not `/data/app2/x`; `windows` says
/// whether `\` separates names too.
pub fn path_starts_with(path: &str, root: &str, windows: bool) -> (res: bool)
    ensures
        res == component_prefix(path.spec_bytes(), root.spec_bytes(), windows),
{
    let p = components(path.as_bytes(), windows);
    let r = components(root.as_bytes(), windows);
    let ghost pv = byte_views(p@);
    let ghost rv = byte_views(r@);
    if r.len() > p.len() {
        return false;
    }
    let mut i: usize = 0;
    while i < r.len()
        invariant
            r.len() <= p.len(),
            i <= r.len(),
            pv == byte_views(p@),
            rv == byte_views(r@),
            pv == path_components(path.spec_bytes(), windows),
            rv == path_components(root.spec_bytes(), windows),
            forall|j: int| 0 <= j < i ==> pv[j] == rv[j],
        decreases r.len() - i,
    {
        if !same_bytes(&p[i], &r[i]) {
            proof {
                assert(pv[i as int] != rv[i as int]);
                if pv.subrange(0, rv.len() as int) == rv {
                    assert(pv.subrange(0, rv.len() as int)[i as int] == rv[i as int]);
                }
            }
            return false;
        }
        i = i + 1;
    }
    assert(pv.subrange(0, rv.len() as int) =~= rv);
    true
}

/// Whether some allowed root covers the canonical path.
pub fn within_allowed_roots(path: &str, roots: &Vec<String>, windows: bool) -> (res: bool)
    ensures
        res == exists|i: int|
            0 <= i < roots.len() && component_prefix(
                encode_utf8(path@),
                encode_utf8(#[trigger] roots@[i]@),
                windows,
            ),
{
    let mut i: usize = 0;
    while i < roots.len()
        invariant
            i <= roots.len(),
            forall|j: int|
                0 <= j < i ==> !component_prefix(
                    encode_utf8(path@),
                    encode_utf8(#[trigger] roots@[j]@),
                    windows,
                ),
        decreases roots.len() - i,
    {
        if path_starts_with(path, roots[i].as_str(), windows) {
            return true;
        }
        i = i + 1;
    }
    false
}

} // verus!
