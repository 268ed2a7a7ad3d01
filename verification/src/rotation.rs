//! Rotation of the DSH service log.
//!
//! The log and its backups are numbered files: `0` is the current log and `n`
//! the file whose name carries the suffix `.n`. A rotation is a plan of steps
//! over those numbers; the shell carries the steps out on disk.

use vstd::prelude::*;
use crate::text::{decimal, decimal_string, digit_char};

verus! {

/// Size above which the current service log is rotated while DSH runs.
pub const DSH_MAX_LOG_BYTES: u64 = 5242880;

/// Number of backups kept by the size rotation.
pub const DSH_MAX_BACKUPS: usize = 3;

/// One file operation on the numbered log files.
#[derive(Clone, Copy, Debug, PartialEq, Eq)]
pub enum RotationStep {
    /// Delete the file, if it exists.
    Remove(usize),
    /// If the first file exists: delete the second, then rename the first to it.
    Shift(usize, usize),
    /// Create the file empty, or empty it.
    Truncate(usize),
    /// Delete every file numbered from this number on.
    RemoveFrom(usize),
}

/// The numbered files on disk, by number, with their contents.
pub type LogFiles = Map<nat, Seq<u8>>;

/// The content of file `i`, if it exists.
pub open spec fn file_at(files: LogFiles, i: nat) -> Option<Seq<u8>> {
    if files.dom().contains(i) {
        Some(files[i])
    } else {
        None
    }
}

/// The files after one step.
pub open spec fn apply_step(files: LogFiles, step: RotationStep) -> LogFiles {
    match step {
        RotationStep::Remove(i) => files.remove(i as nat),
        RotationStep::Shift(from, to) => if files.dom().contains(from as nat) {
            files.remove(to as nat).insert(to as nat, files[from as nat]).remove(from as nat)
        } else {
            files
        },
        RotationStep::Truncate(i) => files.insert(i as nat, Seq::<u8>::empty()),
        RotationStep::RemoveFrom(i) => files.restrict(Set::new(|j: nat| j < i)),
    }
}

/// The files after the steps, in order.
pub open spec fn apply_plan(files: LogFiles, steps: Seq<RotationStep>) -> LogFiles
    decreases steps.len(),
{
    if steps.len() == 0 {
        files
    } else {
        apply_plan(apply_step(files, steps[0]), steps.drop_first())
    }
}

/// Moving each backup one number up, from `top - 1` down to `1`.
pub open spec fn shift_down(top: nat) -> Seq<RotationStep>
    decreases top,
{
    if top <= 1 {
        Seq::empty()
    } else {
        seq![RotationStep::Shift((top - 1) as usize, top as usize)] + shift_down((top - 1) as nat)
    }
}

/// The steps that rotate the log before a start so that the files of the
/// last `keep` starts remain: with no file kept the current log and every
/// backup are deleted; otherwise the oldest kept number is freed, the backups move up and the
/// current log becomes backup `1`.
pub open spec fn rotation_steps(keep: nat) -> Seq<RotationStep> {
    if keep == 0 {
        seq![RotationStep::RemoveFrom(0)]
    } else {
        seq![RotationStep::Remove((keep - 1) as usize)] + shift_down(keep) + seq![
            RotationStep::Shift(0, 1),
        ]
    }
}

/// The steps that rotate an oversized current log: the oldest backup goes,
/// the backups move up, the current log becomes backup `1` and a new empty
/// current log is created.
pub open spec fn overflow_steps() -> Seq<RotationStep> {
    seq![RotationStep::Remove(DSH_MAX_BACKUPS)] + shift_down(DSH_MAX_BACKUPS as nat) + seq![
        RotationStep::Shift(0, 1),
        RotationStep::Truncate(0),
    ]
}

/// Applying two plans in turn is applying their concatenation.
pub proof fn lemma_apply_plan_concat(files: LogFiles, a: Seq<RotationStep>, b: Seq<RotationStep>)
    ensures
        apply_plan(files, a + b) == apply_plan(apply_plan(files, a), b),
    decreases a.len(),
{
    if a.len() == 0 {
        assert(a + b =~= b);
    } else {
        assert((a + b).drop_first() =~= a.drop_first() + b);
        assert((a + b)[0] == a[0]);
        lemma_apply_plan_concat(apply_step(files, a[0]), a.drop_first(), b);
    }
}

/// What one step does to each file.
pub proof fn lemma_apply_single(files: LogFiles, step: RotationStep)
    ensures
        apply_plan(files, seq![step]) == apply_step(files, step),
{
    assert(seq![step].drop_first() =~= Seq::<RotationStep>::empty());
    assert(apply_plan(apply_step(files, step), Seq::<RotationStep>::empty()) == apply_step(
        files,
        step,
    ));
}

/// Moving the backups up: file `1` is gone, each `j` in `2..top` holds what
/// `j - 1` held, `top` receives `top - 1` if that existed, and the others are
/// untouched.
pub proof fn lemma_shift_down(files: LogFiles, top: nat)
    requires
        2 <= top <= usize::MAX,
    ensures
        ({
            let g = apply_plan(files, shift_down(top));
            &&& file_at(g, 0) == file_at(files, 0)
            &&& file_at(g, 1) is None
            &&& forall|j: nat| 2 <= j < top ==> #[trigger] file_at(g, j) == file_at(files, (j - 1) as nat)
            &&& file_at(g, top) == (if files.dom().contains((top - 1) as nat) {
                Some(files[(top - 1) as nat])
            } else {
                file_at(files, top)
            })
            &&& forall|j: nat| j > top ==> #[trigger] file_at(g, j) == file_at(files, j)
        }),
    decreases top,
{
    let step = RotationStep::Shift((top - 1) as usize, top as usize);
    let f1 = apply_step(files, step);
    let rest = shift_down((top - 1) as nat);
    assert(shift_down(top) == seq![step] + rest);
    lemma_apply_plan_concat(files, seq![step], rest);
    lemma_apply_single(files, step);
    let g = apply_plan(f1, rest);
    if top == 2 {
        assert(rest =~= Seq::<RotationStep>::empty());
        assert(g == f1);
    } else {
        lemma_shift_down(f1, (top - 1) as nat);
        assert forall|j: nat| 2 <= j < top implies #[trigger] file_at(g, j) == file_at(
            files,
            (j - 1) as nat,
        ) by {
            if j < top - 1 {
                assert(file_at(g, j) == file_at(f1, (j - 1) as nat));
            } else {
                assert(file_at(g, j) == (if f1.dom().contains((j - 1) as nat) {
                    Some(f1[(j - 1) as nat])
                } else {
                    file_at(f1, j)
                }));
            }
        }
        assert(file_at(g, top) == file_at(f1, top));
        assert forall|j: nat| j > top implies #[trigger] file_at(g, j) == file_at(files, j) by {
            assert(file_at(g, j) == file_at(f1, j));
        }
    }
}

/// Rotating before a start keeps the logs of the last `keep` starts: the
/// current log is gone, each backup `j` below `keep` holds what `j - 1` held,
/// the files from `keep` on are untouched, and with no file kept no file
/// remains at all. When every file numbered below `keep` was all there
/// was, only backups `1..keep` remain.
pub proof fn lemma_rotation_keeps_last_starts(files: LogFiles, keep: usize)
    ensures
        ({
            let g = apply_plan(files, rotation_steps(keep as nat));
            &&& keep == 0 ==> g.dom() =~= Set::<nat>::empty()
            &&& keep >= 1 ==> {
                &&& file_at(g, 0) is None
                &&& forall|j: nat| 1 <= j < keep ==> #[trigger] file_at(g, j) == file_at(
                    files,
                    (j - 1) as nat,
                )
                &&& forall|j: nat| j >= keep ==> #[trigger] file_at(g, j) == file_at(files, j)
            }
            &&& (forall|j: nat| files.dom().contains(j) ==> j < keep) ==> (forall|j: nat|
                #[trigger] g.dom().contains(j) ==> 1 <= j < keep)
        }),
{
    let g = apply_plan(files, rotation_steps(keep as nat));
    if keep == 0 {
        lemma_apply_single(files, RotationStep::RemoveFrom(0));
        assert(g.dom() =~= Set::<nat>::empty());
    } else {
        let first = RotationStep::Remove((keep - 1) as usize);
        let last = RotationStep::Shift(0, 1);
        let f1 = files.remove((keep - 1) as nat);
        lemma_apply_single(files, first);
        lemma_apply_plan_concat(files, seq![first] + shift_down(keep as nat), seq![last]);
        lemma_apply_plan_concat(files, seq![first], shift_down(keep as nat));
        let f2 = apply_plan(f1, shift_down(keep as nat));
        lemma_apply_single(f2, last);
        assert(g == apply_step(f2, last));
        if keep == 1 {
            assert(shift_down(1) =~= Seq::<RotationStep>::empty());
            assert(f2 == f1);
            assert(!f1.dom().contains(0));
            assert(g == f1);
            assert forall|j: nat| j >= keep implies #[trigger] file_at(g, j) == file_at(files, j) by {}
        } else {
            lemma_shift_down(f1, keep as nat);
            assert(file_at(f2, 1) is None);
            assert(file_at(g, 1) == file_at(files, 0));
            assert forall|j: nat| 1 <= j < keep implies #[trigger] file_at(g, j) == file_at(
                files,
                (j - 1) as nat,
            ) by {
                if j >= 2 {
                    assert(file_at(f2, j) == file_at(f1, (j - 1) as nat));
                }
            }
            assert forall|j: nat| j >= keep implies #[trigger] file_at(g, j) == file_at(files, j) by {
                if j == keep {
                    assert(file_at(f2, keep as nat) == file_at(f1, keep as nat));
                } else {
                    assert(file_at(f2, j) == file_at(f1, j));
                }
            }
        }
        assert forall|j: nat|
            (forall|j: nat| files.dom().contains(j) ==> j < keep) && #[trigger] g.dom().contains(j)
            implies 1 <= j < keep by {
            assert(file_at(g, j) is Some);
            if j == 0 {
            } else if j >= keep {
                assert(file_at(g, j) == file_at(files, j));
            }
        }
    }
}

/// Rotating an oversized log: a new empty current log, the old one as backup
/// `1`, backups `1` and `2` moved up to `2` and `3`, and the files above the
/// last backup untouched.
pub proof fn lemma_overflow_rotation(files: LogFiles)
    ensures
        ({
            let g = apply_plan(files, overflow_steps());
            &&& file_at(g, 0) == Some(Seq::<u8>::empty())
            &&& file_at(g, 1) == file_at(files, 0)
            &&& file_at(g, 2) == file_at(files, 1)
            &&& file_at(g, 3) == file_at(files, 2)
            &&& forall|j: nat| j > 3 ==> #[trigger] file_at(g, j) == file_at(files, j)
        }),
{
    let first = RotationStep::Remove(3);
    let tail = seq![RotationStep::Shift(0, 1), RotationStep::Truncate(0)];
    let f1 = files.remove(3);
    lemma_apply_single(files, first);
    lemma_apply_plan_concat(files, seq![first] + shift_down(3), tail);
    lemma_apply_plan_concat(files, seq![first], shift_down(3));
    let f2 = apply_plan(f1, shift_down(3));
    lemma_shift_down(f1, 3);
    let f3 = apply_step(f2, RotationStep::Shift(0, 1));
    assert(tail.drop_first() =~= seq![RotationStep::Truncate(0)]);
    lemma_apply_single(f3, RotationStep::Truncate(0));
    let g = apply_plan(files, overflow_steps());
    assert(g == f3.insert(0, Seq::<u8>::empty()));
    assert(file_at(f2, 3) == file_at(files, 2));
    assert(file_at(f2, 2) == file_at(files, 1));
    assert forall|j: nat| j > 3 implies #[trigger] file_at(g, j) == file_at(files, j) by {
        assert(file_at(f2, j) == file_at(f1, j));
    }
}

/// Appends the moves of the backups from `top - 1` down to `1`.
fn push_shift_down(plan: &mut Vec<RotationStep>, top: usize)
    ensures
        final(plan)@ == old(plan)@ + shift_down(top as nat),
{
    if top == 0 {
        assert(old(plan)@ + shift_down(0) =~= old(plan)@);
        return;
    }
    let mut i: usize = top - 1;
    assert(plan@ + shift_down(top as nat) == old(plan)@ + shift_down(top as nat));
    while i >= 1
        invariant
            i < top,
            old(plan)@ + shift_down(top as nat) == plan@ + shift_down((i + 1) as nat),
        decreases i,
    {
        let step = RotationStep::Shift(i, i + 1);
        let ghost before = plan@;
        assert(shift_down((i + 1) as nat) == seq![step] + shift_down(i as nat));
        plan.push(step);
        assert(before + (seq![step] + shift_down(i as nat)) =~= plan@ + shift_down(i as nat));
        i = i - 1;
    }
    assert(shift_down(1) =~= Seq::<RotationStep>::empty());
    assert(plan@ + shift_down(1) =~= plan@);
}

/// The steps that rotate the service log before a start, keeping the logs of
/// the last `keep` starts.
pub fn rotation_plan(keep: usize) -> (plan: Vec<RotationStep>)
    ensures
        plan@ == rotation_steps(keep as nat),
{
    let mut plan: Vec<RotationStep> = Vec::new();
    if keep == 0 {
        plan.push(RotationStep::RemoveFrom(0));
        assert(plan@ =~= rotation_steps(0));
        return plan;
    }
    plan.push(RotationStep::Remove(keep - 1));
    push_shift_down(&mut plan, keep);
    plan.push(RotationStep::Shift(0, 1));
    assert(plan@ =~= rotation_steps(keep as nat));
    plan
}

/// Whether the current log has outgrown its limit.
pub fn size_rotation_due(len: u64) -> (res: bool)
    ensures
        res == (len > DSH_MAX_LOG_BYTES),
{
    len > DSH_MAX_LOG_BYTES
}

/// The steps that rotate an oversized current log.
pub fn overflow_plan() -> (plan: Vec<RotationStep>)
    ensures
        plan@ == overflow_steps(),
{
    let mut plan: Vec<RotationStep> = Vec::new();
    plan.push(RotationStep::Remove(DSH_MAX_BACKUPS));
    push_shift_down(&mut plan, DSH_MAX_BACKUPS);
    plan.push(RotationStep::Shift(0, 1));
    plan.push(RotationStep::Truncate(0));
    assert(plan@ =~= overflow_steps());
    plan
}

/// The file name of log file `index`: the log's own name for `0`, else the
/// name followed by `.` and the number.
pub open spec fn indexed_name(file_name: Seq<char>, index: nat) -> Seq<char> {
    if index == 0 {
        file_name
    } else {
        file_name + "."@ + decimal(index)
    }
}

/// The file name of log file `index` (`dsh-web.log`, `dsh-web.log.1`, ...).
pub fn indexed_log_name(file_name: &str, index: usize) -> (res: String)
    ensures
        res@ == indexed_name(file_name@, index as nat),
{
    let mut name = String::from_str(file_name);
    if index == 0 {
        return name;
    }
    name.append(".");
    let digits = decimal_string(index as u128);
    name.append(digits.as_str());
    name
}

/// Whether `c` is a decimal digit.
pub open spec fn is_digit_char(c: char) -> bool {
    '0' <= c <= '9'
}

/// The value of a digit character.
pub open spec fn digit_value(c: char) -> nat {
    ((c as u32) - ('0' as u32)) as nat
}

/// The value of a string of digits.
pub open spec fn digits_value(s: Seq<char>) -> nat
    decreases s.len(),
{
    if s.len() == 0 {
        0
    } else {
        digits_value(s.drop_last()) * 10 + digit_value(s.last())
    }
}

/// A number written in decimal: digits only, no leading zero.
pub open spec fn is_decimal(s: Seq<char>) -> bool {
    &&& s.len() > 0
    &&& forall|i: int| 0 <= i < s.len() ==> is_digit_char(#[trigger] s[i])
    &&& (s.len() == 1 || s[0] != '0')
}

proof fn lemma_digit_char(d: nat)
    requires
        d < 10,
    ensures
        is_digit_char(digit_char(d)),
        digit_value(digit_char(d)) == d,
        (digit_char(d) == '0') == (d == 0),
{
}

proof fn lemma_digit_of_char(c: char)
    requires
        is_digit_char(c),
    ensures
        digit_value(c) < 10,
        digit_char(digit_value(c)) == c,
{
    assert(c == '0' || c == '1' || c == '2' || c == '3' || c == '4' || c == '5' || c == '6' || c
        == '7' || c == '8' || c == '9') by {
        let u = c as u32;
        assert(48 <= u <= 57);
        if u == 48 {
            assert(c == '0');
        } else if u == 49 {
            assert(c == '1');
        } else if u == 50 {
            assert(c == '2');
        } else if u == 51 {
            assert(c == '3');
        } else if u == 52 {
            assert(c == '4');
        } else if u == 53 {
            assert(c == '5');
        } else if u == 54 {
            assert(c == '6');
        } else if u == 55 {
            assert(c == '7');
        } else if u == 56 {
            assert(c == '8');
        } else {
            assert(c == '9');
        }
    }
}

/// A decimal of two or more digits is at least ten; of one digit, below ten.
proof fn lemma_decimal_size(s: Seq<char>)
    requires
        is_decimal(s),
    ensures
        s.len() >= 2 ==> digits_value(s) >= 10,
        s.len() == 1 ==> digits_value(s) < 10,
        s[0] != '0' ==> digits_value(s) >= 1,
    decreases s.len(),
{
    if s.len() == 1 {
        lemma_digit_of_char(s[0]);
        assert(s.drop_last() =~= Seq::<char>::empty());
        assert(digits_value(s.drop_last()) == 0);
        assert(digits_value(s) == digit_value(s[0]));
        if s[0] != '0' {
            assert(digit_value(s[0]) != 0);
        }
    } else {
        let t = s.drop_last();
        assert(t[0] == s[0]);
        lemma_decimal_size(t);
        lemma_digit_of_char(s.last());
    }
}

/// Reading a decimal and writing the value back gives the same text.
proof fn lemma_decimal_round_trip(s: Seq<char>)
    requires
        is_decimal(s),
    ensures
        decimal(digits_value(s)) == s,
    decreases s.len(),
{
    lemma_digit_of_char(s.last());
    if s.len() == 1 {
        assert(s.drop_last() =~= Seq::<char>::empty());
        assert(digits_value(s.drop_last()) == 0);
        assert(digits_value(s) == digit_value(s[0]));
        assert(decimal(digits_value(s)) =~= s);
    } else {
        let t = s.drop_last();
        assert(t[0] == s[0]);
        lemma_decimal_size(t);
        lemma_decimal_round_trip(t);
        let v = digits_value(t);
        let d = digit_value(s.last());
        let n = v * 10 + d;
        assert(n / 10 == v && n % 10 == d) by (nonlinear_arith)
            requires
                n == v * 10 + d,
                d < 10,
        ;
        assert(n >= 10);
        assert(decimal(n) == decimal(n / 10).push(digit_char(n % 10)));
        assert(decimal(n) =~= s);
    }
}

/// The decimal of a number is a decimal worth that number.
proof fn lemma_decimal_of(n: nat)
    ensures
        is_decimal(decimal(n)),
        digits_value(decimal(n)) == n,
        n >= 1 ==> decimal(n)[0] != '0',
    decreases n,
{
    if n < 10 {
        lemma_digit_char(n);
        assert(decimal(n) =~= seq![digit_char(n)]);
        assert(seq![digit_char(n)].drop_last() =~= Seq::<char>::empty());
        assert(digits_value(Seq::<char>::empty()) == 0);
        assert(digits_value(decimal(n)) == digit_value(digit_char(n)));
    } else {
        let m = n / 10;
        let d = n % 10;
        lemma_decimal_of(m);
        lemma_digit_char(d);
        let s = decimal(n);
        assert(s == decimal(m).push(digit_char(d)));
        assert(s.drop_last() =~= decimal(m));
        assert(s[0] == decimal(m)[0]);
        assert(n == m * 10 + d);
    }
}

/// A prefix of digits is worth no more than the whole.
proof fn lemma_digits_prefix(s: Seq<char>, k: int)
    requires
        0 <= k <= s.len(),
        forall|i: int| 0 <= i < s.len() ==> is_digit_char(#[trigger] s[i]),
    ensures
        digits_value(s.take(k)) <= digits_value(s),
    decreases s.len(),
{
    if k < s.len() {
        let t = s.drop_last();
        assert(t.take(k) =~= s.take(k));
        lemma_digits_prefix(t, k);
    } else {
        assert(s.take(k) =~= s);
    }
}

/// Which log file a directory entry named `candidate` is: `0` for the log's
/// own name, `n` for the name followed by `.` and `n` in decimal (no leading
/// zero); none for any other name.
pub fn log_number(file_name: &str, candidate: &str) -> (res: Option<usize>)
    ensures
        match res {
            Some(n) => candidate@ == indexed_name(file_name@, n as nat),
            None => forall|n: usize| candidate@ != #[trigger] indexed_name(file_name@, n as nat),
        },
{
    let nl = file_name.unicode_len();
    let cl = candidate.unicode_len();
    let ghost name = file_name@;
    let ghost cand = candidate@;
    if cl < nl {
        proof {
            assert forall|n: usize| cand != #[trigger] indexed_name(name, n as nat) by {
                if n != 0 {
                    assert(indexed_name(name, n as nat).len() >= name.len());
                }
            }
        }
        return None;
    }
    let mut i: usize = 0;
    while i < nl
        invariant
            i <= nl,
            nl == name.len(),
            cl == cand.len(),
            nl <= cl,
            name == file_name@,
            cand == candidate@,
            forall|j: int| 0 <= j < i ==> cand[j] == name[j],
        decreases nl - i,
    {
        if candidate.get_char(i) != file_name.get_char(i) {
            proof {
                assert forall|n: usize| cand != #[trigger] indexed_name(name, n as nat) by {
                    if cand == indexed_name(name, n as nat) {
                        assert(indexed_name(name, n as nat)[i as int] == name[i as int]);
                    }
                }
            }
            return None;
        }
        i = i + 1;
    }
    if cl == nl {
        assert(cand =~= name);
        return Some(0);
    }
    // From here the candidate is longer than the name.
    if candidate.get_char(nl) != '.' || cl - nl < 2 {
        proof {
            assert forall|n: usize| cand != #[trigger] indexed_name(name, n as nat) by {
                if cand == indexed_name(name, n as nat) {
                    if n == 0 {
                    } else {
                        lemma_decimal_of(n as nat);
                        let full = name + "."@ + decimal(n as nat);
                        assert(full[nl as int] == '.') by {
                            reveal_strlit(".");
                        }
                        reveal_strlit(".");
                        assert(full.len() >= nl + 2);
                    }
                }
            }
        }
        return None;
    }
    let ghost digits = cand.subrange(nl + 1, cl as int);
    let first = candidate.get_char(nl + 1);
    assert(first == digits[0]);
    let mut value: u128 = 0;
    let mut k: usize = nl + 1;
    let mut ok = true;
    assert(digits.take(0) =~= Seq::<char>::empty());
    while k < cl
        invariant_except_break
            ok,
        invariant
            nl + 1 <= k <= cl,
            cl == cand.len(),
            cand == candidate@,
            digits == cand.subrange(nl + 1, cl as int),
            value <= usize::MAX,
            forall|j: int| 0 <= j < k - nl - 1 ==> is_digit_char(#[trigger] digits[j]),
            value == digits_value(digits.take(k - nl - 1)),
        ensures
            ok ==> k == cl,
            !ok ==> k < cl && (!is_digit_char(digits[k - nl - 1]) || digits_value(
                digits.take(k - nl),
            ) > usize::MAX),
        decreases cl - k,
    {
        let c = candidate.get_char(k);
        assert(digits[k - nl - 1] == c);
        if c < '0' || c > '9' {
            ok = false;
            break;
        }
        let d = (c as u32 - '0' as u32) as u128;
        let next = value * 10 + d;
        proof {
            assert(digits.take(k - nl) =~= digits.take(k - nl - 1).push(c));
            assert(digits.take(k - nl).drop_last() =~= digits.take(k - nl - 1));
            assert(next == digits_value(digits.take(k - nl)));
        }
        if next > usize::MAX as u128 {
            ok = false;
            break;
        }
        value = next;
        k = k + 1;
    }
    if !ok || (first == '0' && cl - nl > 2) || value == 0 {
        proof {
            assert forall|n: usize| cand != #[trigger] indexed_name(name, n as nat) by {
                if cand == indexed_name(name, n as nat) && n != 0 {
                    reveal_strlit(".");
                    lemma_decimal_of(n as nat);
                    assert(cand =~= name + "."@ + decimal(n as nat));
                    assert(digits =~= decimal(n as nat));
                    if !ok {
                        if is_digit_char(digits[k - nl - 1]) {
                            lemma_digits_prefix(digits, k - nl);
                        }
                    } else {
                        assert(digits.take(digits.len() as int) =~= digits);
                    }
                }
            }
        }
        return None;
    }
    let n = value as usize;
    proof {
        assert(digits.take(digits.len() as int) =~= digits);
        assert(digits.len() == cl - nl - 1);
        assert(is_decimal(digits));
        lemma_decimal_round_trip(digits);
        reveal_strlit(".");
        assert(cand =~= name + "."@ + digits);
    }
    Some(n)
}

} // verus!
