//! The diagnostic report: lines of log tails, frontend log batches, log
//! capacity summaries and the assembled, redacted markdown bundle.

use vstd::prelude::*;
use vstd::utf8::*;
use vstd::string::StringSliceAdditionalSpecFns;
use crate::order::views;
use crate::text::{
    bytes_of, decimal, decimal_string, join, join_strings, lemma_match_end_boundary, matches_at,
    replace_bytes, replace_str, starts_with_str, str_slice, take_chars, take_chars_str, trim_end,
    trim_end_str,
};
use crate::logs::{
    is_frontend_line, is_frontend_log_line, redact_diagnostic_text, redacted_text, tail_bytes,
    tail_of, tail_start,
};
use crate::diagnostics::DiagnosticsSnapshot;

verus! {

broadcast use vstd::utf8::group_utf8_lib;

/// The first `\n` byte at or after `i` (the length when there is none).
pub open spec fn newline_from(b: Seq<u8>, i: int) -> int
    decreases b.len() - i,
{
    if i < 0 || i >= b.len() {
        b.len() as int
    } else if b[i] == 10u8 {
        i
    } else {
        newline_from(b, i + 1)
    }
}

/// `newline_from` is the first `\n` at or after `i`.
pub proof fn lemma_newline_from(b: Seq<u8>, i: int)
    requires
        0 <= i <= b.len(),
    ensures
        i <= newline_from(b, i) <= b.len(),
        newline_from(b, i) < b.len() ==> b[newline_from(b, i)] == 10u8,
        forall|j: int| i <= j < newline_from(b, i) ==> b[j] != 10u8,
    decreases b.len() - i,
{
    if i < b.len() && b[i] != 10u8 {
        lemma_newline_from(b, i + 1);
    }
}

/// A line without its `\r` before the line feed.
pub open spec fn chomp_cr(line: Seq<u8>) -> Seq<u8> {
    if line.len() > 0 && line.last() == 13u8 {
        line.drop_last()
    } else {
        line
    }
}

/// The lines of `b` from byte `pos` on, as `str::lines` splits them: at each
/// `\n`, dropping a `\r` just before it; a last line without `\n` is kept as
/// it is, and a final `\n` starts no further line.
pub open spec fn lines_from(b: Seq<u8>, pos: int) -> Seq<Seq<u8>>
    decreases b.len() - pos,
{
    if pos < 0 || pos >= b.len() {
        Seq::empty()
    } else {
        let k = newline_from(b, pos);
        if k < b.len() {
            proof {
                lemma_newline_from(b, pos);
            }
            seq![chomp_cr(b.subrange(pos, k))] + lines_from(b, k + 1)
        } else {
            seq![b.subrange(pos, b.len() as int)]
        }
    }
}

/// The lines of a text.
pub open spec fn text_lines(s: Seq<char>) -> Seq<Seq<char>> {
    lines_from(bytes_of(s), 0).map_values(|l: Seq<u8>| decode_utf8(l))
}

/// The last `n` items of `s` (all of them when there are fewer).
pub open spec fn last_n<T>(s: Seq<T>, n: nat) -> Seq<T> {
    if s.len() <= n {
        s
    } else {
        s.subrange(s.len() - n, s.len() as int)
    }
}

/// The last `max_lines` lines of a text, joined by `\n`.
pub open spec fn tail_lines(s: Seq<char>, max_lines: nat) -> Seq<char> {
    join(last_n(text_lines(s), max_lines), "\n"@)
}

/// Whether a line of text is not a frontend log line.
pub open spec fn is_backend_line(line: Seq<char>) -> bool {
    !is_frontend_line(bytes_of(line))
}

/// The lines of a text that are not frontend log lines, joined by `\n`.
pub open spec fn backend_lines(s: Seq<char>) -> Seq<char> {
    join(text_lines(s).filter(|l: Seq<char>| is_backend_line(l)), "\n"@)
}

/// The byte after a `\n` in a valid encoding is a character boundary.
proof fn lemma_after_newline(b: Seq<u8>, k: int)
    requires
        valid_utf8(b),
        0 <= k < b.len(),
        b[k] == 10u8,
    ensures
        is_char_boundary(b, k),
        is_char_boundary(b, k + 1),
{
    let nl = seq![10u8];
    assert(valid_utf8(nl)) by {
        assert(pop_first_scalar(nl) =~= Seq::<u8>::empty());
        reveal_with_fuel(valid_utf8, 2);
    }
    assert(is_char_boundary(b, k) <==> !is_continuation_byte(b[k]));
    assert(b.subrange(k, k + 1) =~= nl);
    assert(matches_at(b, nl, k));
    lemma_match_end_boundary(b, nl, k);
}

/// The lines of `s`, as `str::lines` gives them.
pub fn split_lines(s: &str) -> (res: Vec<String>)
    ensures
        views(res@) == text_lines(s@),
{
    let b = s.as_bytes();
    let len = b.len();
    let ghost bs = s.spec_bytes();
    let ghost dec = |l: Seq<u8>| decode_utf8(l);
    let mut res: Vec<String> = Vec::new();
    let mut pos: usize = 0;
    assert(b@ == bs);
    while pos < len
        invariant
            b@ == bs,
            bs == s.spec_bytes(),
            len == bs.len(),
            valid_utf8(bs),
            pos <= len,
            is_char_boundary(bs, pos as int),
            dec == (|l: Seq<u8>| decode_utf8(l)),
            views(res@) + lines_from(bs, pos as int).map_values(dec) == lines_from(bs, 0).map_values(
                dec,
            ),
        decreases len - pos,
    {
        let mut k: usize = pos;
        while k < len && b[k] != 10u8
            invariant
                b@ == bs,
                len == bs.len(),
                pos <= k <= len,
                forall|j: int| pos <= j < k ==> bs[j] != 10u8,
            decreases len - k,
        {
            k = k + 1;
        }
        proof {
            lemma_newline_from(bs, pos as int);
            let nf = newline_from(bs, pos as int);
            if nf < k {
                assert(bs[nf] != 10u8);
            }
            if k < nf {
                assert(bs[k as int] == 10u8);
            }
        }
        let ghost before = res@;
        let ghost rest = lines_from(bs, pos as int);
        if k < len {
            let end: usize = if k > pos && b[k - 1] == 13u8 {
                k - 1
            } else {
                k
            };
            proof {
                lemma_after_newline(bs, k as int);
                if end < k {
                    assert(is_char_boundary(bs, end as int) <==> !is_continuation_byte(
                        bs[end as int],
                    ));
                    assert(bs.subrange(pos as int, k as int).drop_last() =~= bs.subrange(
                        pos as int,
                        end as int,
                    ));
                } else {
                    assert(chomp_cr(bs.subrange(pos as int, k as int)) =~= bs.subrange(
                        pos as int,
                        end as int,
                    ));
                }
            }
            let line = str_slice(s, pos, end);
            res.push(String::from_str(line));
            proof {
                assert(line@ == decode_utf8(bs.subrange(pos as int, end as int)));
                assert(rest == seq![chomp_cr(bs.subrange(pos as int, k as int))] + lines_from(
                    bs,
                    k + 1,
                ));
                assert(views(res@) =~= views(before).push(line@));
                assert(rest.map_values(dec) =~= seq![line@] + lines_from(bs, k + 1).map_values(
                    dec,
                ));
                assert(views(res@) + lines_from(bs, k + 1).map_values(dec) =~= views(before)
                    + rest.map_values(dec));
            }
            pos = k + 1;
        } else {
            let line = str_slice(s, pos, len);
            res.push(String::from_str(line));
            proof {
                assert(is_char_boundary(bs, len as int));
                assert(rest == seq![bs.subrange(pos as int, len as int)]);
                assert(views(res@) =~= views(before).push(line@));
                assert(lines_from(bs, len as int) =~= Seq::<Seq<u8>>::empty());
                assert(rest.map_values(dec) =~= seq![line@]);
                assert(views(res@) + lines_from(bs, len as int).map_values(dec) =~= views(before)
                    + rest.map_values(dec));
            }
            pos = len;
        }
    }
    proof {
        assert(lines_from(bs, pos as int) =~= Seq::<Seq<u8>>::empty());
        assert(views(res@) + lines_from(bs, pos as int).map_values(dec) =~= views(res@));
    }
    res
}

/// The last `max_lines` lines of `content`, joined by `\n`.
pub fn last_lines(content: &str, max_lines: usize) -> (res: String)
    ensures
        res@ == tail_lines(content@, max_lines as nat),
{
    let lines = split_lines(content);
    let n = lines.len();
    let start: usize = if n <= max_lines {
        0
    } else {
        n - max_lines
    };
    let mut kept: Vec<String> = Vec::new();
    let mut i: usize = start;
    while i < n
        invariant
            start <= i <= n,
            n == lines.len(),
            views(kept@) == views(lines@).subrange(start as int, i as int),
        decreases n - i,
    {
        let ghost before = kept@;
        let line = lines[i].clone();
        assert(line@ == lines@[i as int]@);
        kept.push(line);
        assert(views(kept@) =~= views(before).push(line@));
        assert(views(kept@) =~= views(lines@).subrange(start as int, i + 1));
        i = i + 1;
    }
    proof {
        let all = views(lines@);
        if n <= max_lines {
            assert(all.subrange(0, n as int) =~= all);
        }
        assert(last_n(all, max_lines as nat) =~= all.subrange(start as int, n as int));
    }
    join_strings(&kept, "\n")
}

/// The lines of `text` that are not frontend log lines, joined by `\n`.
pub fn backend_log_lines(text: &str) -> (res: String)
    ensures
        res@ == backend_lines(text@),
{
    let lines = split_lines(text);
    let ghost all = views(lines@);
    let ghost keep = |l: Seq<char>| is_backend_line(l);
    let mut kept: Vec<String> = Vec::new();
    let mut i: usize = 0;
    assert(all.take(0) =~= Seq::<Seq<char>>::empty());
    assert(all.take(0).filter(keep) =~= Seq::<Seq<char>>::empty()) by {
        reveal(Seq::filter);
    }
    while i < lines.len()
        invariant
            i <= lines.len(),
            all == views(lines@),
            keep == (|l: Seq<char>| is_backend_line(l)),
            views(kept@) == all.take(i as int).filter(keep),
        decreases lines.len() - i,
    {
        let line = lines[i].as_str();
        proof {
            assert(all.take(i + 1) =~= all.take(i as int).push(all[i as int]));
            all.take(i as int).lemma_filter_push(all[i as int], keep);
            assert(line.spec_bytes() == bytes_of(all[i as int]));
        }
        if !is_frontend_log_line(line) {
            kept.push(lines[i].clone());
            assert(views(kept@) =~= all.take(i + 1).filter(keep));
        } else {
            assert(views(kept@) =~= all.take(i + 1).filter(keep));
        }
        i = i + 1;
    }
    assert(all.take(lines.len() as int) =~= all);
    join_strings(&kept, "\n")
}

/// Most entries taken from one frontend log batch.
pub const MAX_BATCH_ENTRIES: usize = 256;

/// Most bytes kept of one frontend log message (its tail).
pub const MAX_MESSAGE_BYTES: usize = 16384;

/// Most message bytes accepted from one frontend log batch.
pub const MAX_BATCH_BYTES: usize = 262144;

/// Most characters kept of a frontend log target.
pub const MAX_TARGET_CHARS: usize = 80;

/// One log entry sent by the frontend.
#[derive(Debug, Clone)]
pub struct FrontendLogEntry {
    pub level: String,
    pub target: String,
    pub message: String,
}

/// An entry as its level, target and message text.
pub open spec fn entry_view(e: FrontendLogEntry) -> (Seq<char>, Seq<char>, Seq<char>) {
    (e.level@, e.target@, e.message@)
}

/// Entries as their texts.
pub open spec fn entry_views(s: Seq<FrontendLogEntry>) -> Seq<(Seq<char>, Seq<char>, Seq<char>)> {
    s.map_values(|e: FrontendLogEntry| entry_view(e))
}

/// The tail of a message that is kept.
pub open spec fn kept_message(message: Seq<char>) -> Seq<u8> {
    tail_of(bytes_of(message), MAX_MESSAGE_BYTES as nat)
}

/// The entries accepted from `s` when `total` message bytes were accepted
/// before: each keeps its level, the first characters of its target and the
/// tail of its message; the batch stops at the first message that would take
/// the total over the batch limit.
pub open spec fn normalized_from(s: Seq<(Seq<char>, Seq<char>, Seq<char>)>, total: nat) -> Seq<
    (Seq<char>, Seq<char>, Seq<char>),
>
    decreases s.len(),
{
    if s.len() == 0 {
        Seq::empty()
    } else {
        let m = kept_message(s[0].2);
        if total + m.len() > MAX_BATCH_BYTES {
            Seq::empty()
        } else {
            seq![(s[0].0, take_chars(s[0].1, MAX_TARGET_CHARS as nat), decode_utf8(m))]
                + normalized_from(s.drop_first(), total + m.len())
        }
    }
}

/// The entries accepted from a batch: of its first entries, those that fit.
pub open spec fn normalized_batch(s: Seq<(Seq<char>, Seq<char>, Seq<char>)>) -> Seq<
    (Seq<char>, Seq<char>, Seq<char>),
> {
    normalized_from(
        if s.len() <= MAX_BATCH_ENTRIES {
            s
        } else {
            s.take(MAX_BATCH_ENTRIES as int)
        },
        0,
    )
}

/// Bound a frontend log batch: at most the first 256 entries, each message cut
/// to its last 16 KiB (at a character boundary) and each target to 80
/// characters, and the batch ended before the message that would take it over
/// 256 KiB of messages.
pub fn normalize_frontend_batch(entries: &Vec<FrontendLogEntry>) -> (res: Vec<FrontendLogEntry>)
    ensures
        entry_views(res@) == normalized_batch(entry_views(entries@)),
{
    let ghost all = entry_views(entries@);
    let lim: usize = if entries.len() <= MAX_BATCH_ENTRIES {
        entries.len()
    } else {
        MAX_BATCH_ENTRIES
    };
    let ghost taken = all.take(lim as int);
    proof {
        if entries.len() <= MAX_BATCH_ENTRIES {
            assert(all.take(lim as int) =~= all);
        }
    }
    let mut res: Vec<FrontendLogEntry> = Vec::new();
    let mut total: usize = 0;
    let mut i: usize = 0;
    assert(taken.subrange(0, lim as int) =~= taken);
    while i < lim
        invariant_except_break
            i <= lim,
            lim <= entries.len(),
            all == entry_views(entries@),
            taken == all.take(lim as int),
            total <= MAX_BATCH_BYTES,
            entry_views(res@) + normalized_from(taken.subrange(i as int, lim as int), total as nat)
                == normalized_from(taken, 0),
        ensures
            entry_views(res@) == normalized_from(taken, 0),
        decreases lim - i,
    {
        let entry = &entries[i];
        let ghost rest = taken.subrange(i as int, lim as int);
        proof {
            assert(rest[0] == entry_view(*entry));
            assert(rest.drop_first() =~= taken.subrange(i + 1, lim as int));
        }
        let tail = tail_bytes(entry.message.as_str(), MAX_MESSAGE_BYTES);
        let n = tail.as_bytes().len();
        if total + n > MAX_BATCH_BYTES {
            proof {
                assert(normalized_from(rest, total as nat) =~= Seq::empty());
                assert(entry_views(res@) + Seq::empty() =~= entry_views(res@));
            }
            break;
        }
        let kept = FrontendLogEntry {
            level: entry.level.clone(),
            target: take_chars_str(entry.target.as_str(), MAX_TARGET_CHARS),
            message: String::from_str(tail),
        };
        let ghost before = res@;
        res.push(kept);
        proof {
            assert(entry_view(kept) == (
                rest[0].0,
                take_chars(rest[0].1, MAX_TARGET_CHARS as nat),
                decode_utf8(kept_message(rest[0].2)),
            ));
            assert(entry_views(res@) =~= entry_views(before).push(entry_view(kept)));
            assert(entry_views(res@) + normalized_from(rest.drop_first(), (total + n) as nat)
                =~= entry_views(before) + normalized_from(rest, total as nat));
        }
        total = total + n;
        i = i + 1;
    }
    proof {
        if i == lim {
            assert(taken.subrange(lim as int, lim as int) =~= Seq::<(Seq<char>, Seq<char>, Seq<char>)>::empty());
            assert(entry_views(res@) + Seq::empty() =~= entry_views(res@));
        }
    }
    res
}

/// The message bytes of accepted entries.
pub open spec fn batch_bytes(s: Seq<(Seq<char>, Seq<char>, Seq<char>)>) -> nat
    decreases s.len(),
{
    if s.len() == 0 {
        0
    } else {
        bytes_of(s[0].2).len() + batch_bytes(s.drop_first())
    }
}

/// A valid encoding has a tail start for every limit.
pub proof fn lemma_tail_start_exists(bytes: Seq<u8>, max_bytes: nat, j: int)
    requires
        valid_utf8(bytes),
        (if bytes.len() >= max_bytes { bytes.len() - max_bytes } else { 0 }) <= j <= bytes.len(),
        forall|k: int|
            (if bytes.len() >= max_bytes { bytes.len() - max_bytes } else { 0 }) <= k < j
                ==> !#[trigger] is_char_boundary(bytes, k),
    ensures
        exists|i: int| tail_start(bytes, max_bytes, i),
    decreases bytes.len() - j,
{
    if is_char_boundary(bytes, j) {
        assert(tail_start(bytes, max_bytes, j));
    } else {
        assert(is_char_boundary(bytes, bytes.len() as int));
        lemma_tail_start_exists(bytes, max_bytes, j + 1);
    }
}

/// The kept tail of a message is itself a valid encoding of at most the
/// message limit, and its text encodes back to it.
pub proof fn lemma_kept_message(message: Seq<char>)
    ensures
        kept_message(message).len() <= MAX_MESSAGE_BYTES,
        bytes_of(decode_utf8(kept_message(message))) == kept_message(message),
{
    let b = bytes_of(message);
    let max = MAX_MESSAGE_BYTES as nat;
    let start = if b.len() >= max { b.len() - max } else { 0 };
    lemma_tail_start_exists(b, max, start);
    let i = choose|i: int| tail_start(b, max, i);
    assert(valid_utf8(b.subrange(i, b.len() as int)));
}

/// Accepted entries never take the running total over the batch limit, keep
/// messages within the message limit and targets within the target limit,
/// and are at most as many as offered.
proof fn lemma_normalized_from_bounds(s: Seq<(Seq<char>, Seq<char>, Seq<char>)>, total: nat)
    requires
        total <= MAX_BATCH_BYTES,
    ensures
        total + batch_bytes(normalized_from(s, total)) <= MAX_BATCH_BYTES,
        normalized_from(s, total).len() <= s.len(),
        forall|i: int|
            0 <= i < normalized_from(s, total).len() ==> bytes_of(
                (#[trigger] normalized_from(s, total)[i]).2,
            ).len() <= MAX_MESSAGE_BYTES && normalized_from(s, total)[i].1.len() <= MAX_TARGET_CHARS,
    decreases s.len(),
{
    if s.len() > 0 {
        let m = kept_message(s[0].2);
        lemma_kept_message(s[0].2);
        if total + m.len() <= MAX_BATCH_BYTES {
            let head = (s[0].0, take_chars(s[0].1, MAX_TARGET_CHARS as nat), decode_utf8(m));
            let rest = normalized_from(s.drop_first(), total + m.len());
            lemma_normalized_from_bounds(s.drop_first(), total + m.len());
            let r = normalized_from(s, total);
            assert(r == seq![head] + rest);
            assert(r.drop_first() =~= rest);
            assert(batch_bytes(r) == m.len() + batch_bytes(rest));
            assert forall|i: int| 0 <= i < r.len() implies bytes_of((#[trigger] r[i]).2).len()
                <= MAX_MESSAGE_BYTES && r[i].1.len() <= MAX_TARGET_CHARS by {
                if i > 0 {
                    assert(r[i] == rest[i - 1]);
                }
            }
        }
    }
}

/// A frontend batch is bounded: at most 256 entries (and no more than were
/// sent), at most 256 KiB of messages in all, at most 16 KiB per message and
/// 80 characters per target.
pub proof fn lemma_batch_bounds(entries: Seq<(Seq<char>, Seq<char>, Seq<char>)>)
    ensures
        normalized_batch(entries).len() <= MAX_BATCH_ENTRIES,
        normalized_batch(entries).len() <= entries.len(),
        batch_bytes(normalized_batch(entries)) <= MAX_BATCH_BYTES,
        forall|i: int|
            0 <= i < normalized_batch(entries).len() ==> bytes_of(
                (#[trigger] normalized_batch(entries)[i]).2,
            ).len() <= MAX_MESSAGE_BYTES && normalized_batch(entries)[i].1.len() <= MAX_TARGET_CHARS,
{
    let taken = if entries.len() <= MAX_BATCH_ENTRIES {
        entries
    } else {
        entries.take(MAX_BATCH_ENTRIES as int)
    };
    lemma_normalized_from_bounds(taken, 0);
}

/// A tail of lines holds at most the requested number of lines.
pub proof fn lemma_last_n_bound<T>(s: Seq<T>, n: nat)
    ensures
        last_n(s, n).len() <= n,
        last_n(s, n).len() <= s.len(),
        forall|i: int| 0 <= i < last_n(s, n).len() ==> #[trigger] last_n(s, n)[i] == s[s.len()
            - last_n(s, n).len() + i],
{
}

/// The capacity line of one log stream.
pub open spec fn log_summary(current_bytes: nat, backups: nat, max_backups: nat) -> Seq<char> {
    "currentBytes="@ + decimal(current_bytes) + "; maxBytes=5242880; backups="@ + decimal(backups)
        + "/"@ + decimal(max_backups)
}

/// The capacity line of one log stream: the current size and how many of the
/// allowed backups exist.
pub fn log_file_summary(current_bytes: u64, backups: usize, max_backups: usize) -> (res: String)
    ensures
        res@ == log_summary(current_bytes as nat, backups as nat, max_backups as nat),
{
    let mut s = String::from_str("currentBytes=");
    let c = decimal_string(current_bytes as u128);
    s.append(c.as_str());
    s.append("; maxBytes=5242880; backups=");
    let b = decimal_string(backups as u128);
    s.append(b.as_str());
    s.append("/");
    let m = decimal_string(max_backups as u128);
    s.append(m.as_str());
    s
}

/// The capacity section: one line per stream.
pub open spec fn capacity_text(
    service: Seq<char>,
    frontend: Seq<char>,
    backend: Seq<char>,
    trace: Seq<char>,
) -> Seq<char> {
    "service: "@ + service + "\nfrontend: "@ + frontend + "\nbackend: "@ + backend
        + "\ncontrolTrace: "@ + trace
}

/// The capacity section of the report.
pub fn log_capacity_text(service: &str, frontend: &str, backend: &str, trace: &str) -> (res: String)
    ensures
        res@ == capacity_text(service@, frontend@, backend@, trace@),
{
    let mut s = String::from_str("service: ");
    s.append(service);
    s.append("\nfrontend: ");
    s.append(frontend);
    s.append("\nbackend: ");
    s.append(backend);
    s.append("\ncontrolTrace: ");
    s.append(trace);
    s
}

/// The environment section of the report.
pub open spec fn environment(
    app: Seq<char>,
    dsh: Option<Seq<char>>,
    node: Seq<char>,
    os: Seq<char>,
    arch: Seq<char>,
) -> Seq<char> {
    let dsh_line = match dsh {
        Some(v) => "dsh: "@ + v + "\n"@,
        None => Seq::empty(),
    };
    "app: "@ + app + "\n"@ + dsh_line + "node: "@ + node + "\nos: "@ + os + " ("@ + arch
        + ")\nprofile: <ACTIVE_PROFILE>\nlogPolicy: 5 MiB current + 3 backups per stream"@
}

/// The environment section: versions of the shell, DSH (when known) and Node,
/// the platform, and the log policy; the profile is never named.
pub fn environment_text(app: &str, dsh: Option<&str>, node: &str, os: &str, arch: &str) -> (res:
    String)
    ensures
        res@ == environment(app@, option_str(dsh), node@, os@, arch@),
{
    let mut s = String::from_str("app: ");
    s.append(app);
    s.append("\n");
    match dsh {
        Some(v) => {
            s.append("dsh: ");
            s.append(v);
            s.append("\n");
        },
        None => {},
    }
    s.append("node: ");
    s.append(node);
    s.append("\nos: ");
    s.append(os);
    s.append(" (");
    s.append(arch);
    s.append(")\nprofile: <ACTIVE_PROFILE>\nlogPolicy: 5 MiB current + 3 backups per stream");
    s
}

/// An optional string slice as text.
pub open spec fn option_str(o: Option<&str>) -> Option<Seq<char>> {
    match o {
        Some(v) => Some(v@),
        None => None,
    }
}

/// The report before redaction: environment, snapshot, capacity and the four
/// log tails (trailing white space removed) as markdown sections.
pub open spec fn report_body(
    env: Seq<char>,
    snapshot: Seq<char>,
    capacity: Seq<char>,
    trace: Seq<char>,
    service: Seq<char>,
    frontend: Seq<char>,
    backend: Seq<char>,
) -> Seq<char> {
    "### 环境信息\n\n"@ + env + "\n\n### 诊断快照\n\n```json\n"@ + snapshot
        + "\n```\n\n### 日志容量\n\n"@ + capacity
        + "\n\n### 控制调用轨迹（尾部）\n\n```jsonl\n"@ + trim_end(trace)
        + "\n```\n\n### 服务日志（尾部）\n\n```\n"@ + trim_end(service)
        + "\n```\n\n### 前台日志（尾部）\n\n```\n"@ + trim_end(frontend)
        + "\n```\n\n### 后台日志（尾部）\n\n```\n"@ + trim_end(backend) + "\n```"@
}

/// The finished report: the body redacted, then the active profile's name
/// (when there is one) replaced by `<ACTIVE_PROFILE>`.
pub open spec fn finished_report(redacted: Seq<char>, profile: Seq<char>) -> Seq<char> {
    if profile.len() == 0 {
        redacted
    } else {
        decode_utf8(replace_bytes(bytes_of(redacted), bytes_of(profile), bytes_of("<ACTIVE_PROFILE>"@)))
    }
}

/// The texts that go into a diagnostic report.
pub struct ReportParts {
    pub environment: String,
    pub snapshot: String,
    pub capacity: String,
    pub trace: String,
    pub service: String,
    pub frontend: String,
    pub backend: String,
}

/// Assemble the redacted diagnostic bundle for a bug report: every root path is
/// replaced by its placeholder, credential values are redacted and the active
/// profile is not named.
pub fn run_log_report(parts: &ReportParts, roots: &Vec<(String, String)>, profile: &str) -> (res:
    String)
    ensures
        res@ == finished_report(
            redacted_text(
                report_body(
                    parts.environment@,
                    parts.snapshot@,
                    parts.capacity@,
                    parts.trace@,
                    parts.service@,
                    parts.frontend@,
                    parts.backend@,
                ),
                roots@,
            ),
            profile@,
        ),
{
    let mut s = String::from_str("### 环境信息\n\n");
    s.append(parts.environment.as_str());
    s.append("\n\n### 诊断快照\n\n```json\n");
    s.append(parts.snapshot.as_str());
    s.append("\n```\n\n### 日志容量\n\n");
    s.append(parts.capacity.as_str());
    s.append("\n\n### 控制调用轨迹（尾部）\n\n```jsonl\n");
    s.append(trim_end_str(parts.trace.as_str()));
    s.append("\n```\n\n### 服务日志（尾部）\n\n```\n");
    s.append(trim_end_str(parts.service.as_str()));
    s.append("\n```\n\n### 前台日志（尾部）\n\n```\n");
    s.append(trim_end_str(parts.frontend.as_str()));
    s.append("\n```\n\n### 后台日志（尾部）\n\n```\n");
    s.append(trim_end_str(parts.backend.as_str()));
    s.append("\n```");
    let report = redact_diagnostic_text(s.as_str(), roots);
    if profile.is_empty() {
        report
    } else {
        let out = replace_str(report.as_str(), profile, "<ACTIVE_PROFILE>");
        proof {
            assert(decode_utf8(bytes_of(out@)) == out@);
        }
        out
    }
}

/// The snapshot as it goes into a report: the core and profile paths are
/// replaced by placeholders.
pub fn anonymized_snapshot(snapshot: DiagnosticsSnapshot) -> (res: DiagnosticsSnapshot)
    ensures
        res.core_path@ == "<ACTIVE_CORE>"@,
        res.profile_path@ == "<ACTIVE_PROFILE_PATH>"@,
        res.active_core_tag == snapshot.active_core_tag,
        res.recorded_release_tag == snapshot.recorded_release_tag,
        res.recorded_source_commit == snapshot.recorded_source_commit,
        res.core == snapshot.core,
        res.core_compatibility == snapshot.core_compatibility,
        res.plugin_compatibility == snapshot.plugin_compatibility,
        res.webview_route == snapshot.webview_route,
        res.surface == snapshot.surface,
{
    let mut out = snapshot;
    out.core_path = String::from_str("<ACTIVE_CORE>");
    out.profile_path = String::from_str("<ACTIVE_PROFILE_PATH>");
    out
}

/// Whether a link may be opened in the system browser: only `https://` and
/// `http://` links are.
pub open spec fn is_web_link(url: Seq<u8>) -> bool {
    matches_at(url, bytes_of("https://"@), 0) || matches_at(url, bytes_of("http://"@), 0)
}

/// Check a link before it is handed to the system browser; anything but an
/// `http(s)` link is refused with `EXTERNAL_URL_INVALID` and the link.
pub fn validate_external_url(url: &str) -> (res: Result<(), String>)
    ensures
        res is Ok <==> is_web_link(url.spec_bytes()),
        res matches Err(e) ==> e@ == "EXTERNAL_URL_INVALID: "@ + url@,
{
    if starts_with_str(url, "https://") || starts_with_str(url, "http://") {
        Ok(())
    } else {
        let mut e = String::from_str("EXTERNAL_URL_INVALID: ");
        e.append(url);
        Err(e)
    }
}

} // verus!
