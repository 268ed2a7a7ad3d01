//! The desktop control plane's protocol rules: the operation catalog, request
//! routing and authorisation, argument validation, load-test statistics and
//! the profile-switch sequence.
//!
//! Sockets, JSON encoding and the operations' own effects are the caller's part.

use vstd::prelude::*;
use vstd::string::StringSliceAdditionalSpecFns;
use crate::order::{
    first_after, is_sorted_by, is_total_preorder, lemma_first_after, lemma_sort_by_elements,
    lemma_sort_by_sorted, sort_by, str_equal,
};
use crate::text::{decimal, decimal_string};
use crate::versions::{debug_quoted, debug_text};

verus! {

/// The control protocol identifier.
pub const PROTOCOL: &'static str = "dsh-desktop-control-jsonl-v1";

/// The largest request line accepted, in bytes.
pub const MAX_REQUEST_BYTES: usize = 1048576;

/// The trace file size beyond which it is rotated.
pub const MAX_TRACE_BYTES: u64 = 5242880;

/// One operation the control plane offers.
#[derive(Debug, Clone, Copy)]
pub struct OperationDescription {
    pub id: &'static str,
    pub mutating: bool,
    pub description: &'static str,
}

/// The operations of the control plane, in catalog order.
#[derive(Debug, Clone, Copy, PartialEq, Eq, Structural)]
pub enum ControlOperation {
    Catalog,
    DiagnosticsSnapshot,
    ShellStatus,
    RuntimeInfo,
    RuntimeHealth,
    InstanceInfo,
    CoreList,
    CoreActivate,
    ProfileList,
    ProfileActivate,
    LogsBundle,
    TraceRead,
    StressSnapshot,
    DesktopExit,
    DesktopShutdown,
}

/// The identifiers of the catalog, in order.
pub open spec fn catalog_ids() -> Seq<Seq<char>> {
    seq![
        "control.catalog"@,
        "diagnostics.snapshot"@,
        "shell.status"@,
        "runtime.info"@,
        "runtime.health"@,
        "instance.info"@,
        "core.list"@,
        "core.activate"@,
        "profile.list"@,
        "profile.activate"@,
        "logs.bundle"@,
        "trace.read"@,
        "stress.snapshot"@,
        "desktop.exit"@,
        "desktop.shutdown"@,
    ]
}

/// Which catalog operations change state.
pub open spec fn catalog_mutating() -> Seq<bool> {
    seq![
        false,
        false,
        false,
        false,
        false,
        false,
        false,
        true,
        false,
        true,
        false,
        false,
        false,
        true,
        true,
    ]
}

/// The catalog descriptions, in order.
pub open spec fn catalog_descriptions() -> Seq<Seq<char>> {
    seq![
        "列出协议和可调用操作"@,
        "读取内核、插件和真实页面功能面快照"@,
        "读取内嵌壳资源及 React 挂载调用链"@,
        "读取 Desktop、DSH、Node 和数据目录信息"@,
        "检查当前 DSH 服务健康状态"@,
        "读取单例进程身份和构建类型"@,
        "列出可用内核及当前选择"@,
        "切换到已安装内核、重绑定插件并启动 Harness"@,
        "列出档案及当前选择"@,
        "切换到已有档案、重投影插件并重启 Harness"@,
        "读取服务、前台和后台日志尾部"@,
        "读取控制面结构化调用轨迹"@,
        "并发执行诊断快照并返回延迟与失败统计"@,
        "退出 Desktop 壳并保留独立 Harness，等待控制插件恢复"@,
        "停止 Harness 后退出 Desktop，用于完整冷启动回归"@,
    ]
}

/// The catalog position of an operation.
pub open spec fn operation_index(op: ControlOperation) -> int {
    match op {
        ControlOperation::Catalog => 0,
        ControlOperation::DiagnosticsSnapshot => 1,
        ControlOperation::ShellStatus => 2,
        ControlOperation::RuntimeInfo => 3,
        ControlOperation::RuntimeHealth => 4,
        ControlOperation::InstanceInfo => 5,
        ControlOperation::CoreList => 6,
        ControlOperation::CoreActivate => 7,
        ControlOperation::ProfileList => 8,
        ControlOperation::ProfileActivate => 9,
        ControlOperation::LogsBundle => 10,
        ControlOperation::TraceRead => 11,
        ControlOperation::StressSnapshot => 12,
        ControlOperation::DesktopExit => 13,
        ControlOperation::DesktopShutdown => 14,
    }
}

/// The protocol and the operations that can be called.
pub fn operation_catalog() -> (res: [OperationDescription; 15])
    ensures
        forall|i: int|
            0 <= i < 15 ==> (#[trigger] res@[i]).id@ == catalog_ids()[i] && res@[i].mutating
                == catalog_mutating()[i] && res@[i].description@ == catalog_descriptions()[i],
{
    let res = [
        OperationDescription { id: "control.catalog", mutating: false, description: "列出协议和可调用操作" },
        OperationDescription { id: "diagnostics.snapshot", mutating: false, description: "读取内核、插件和真实页面功能面快照" },
        OperationDescription { id: "shell.status", mutating: false, description: "读取内嵌壳资源及 React 挂载调用链" },
        OperationDescription { id: "runtime.info", mutating: false, description: "读取 Desktop、DSH、Node 和数据目录信息" },
        OperationDescription { id: "runtime.health", mutating: false, description: "检查当前 DSH 服务健康状态" },
        OperationDescription { id: "instance.info", mutating: false, description: "读取单例进程身份和构建类型" },
        OperationDescription { id: "core.list", mutating: false, description: "列出可用内核及当前选择" },
        OperationDescription { id: "core.activate", mutating: true, description: "切换到已安装内核、重绑定插件并启动 Harness" },
        OperationDescription { id: "profile.list", mutating: false, description: "列出档案及当前选择" },
        OperationDescription { id: "profile.activate", mutating: true, description: "切换到已有档案、重投影插件并重启 Harness" },
        OperationDescription { id: "logs.bundle", mutating: false, description: "读取服务、前台和后台日志尾部" },
        OperationDescription { id: "trace.read", mutating: false, description: "读取控制面结构化调用轨迹" },
        OperationDescription { id: "stress.snapshot", mutating: false, description: "并发执行诊断快照并返回延迟与失败统计" },
        OperationDescription { id: "desktop.exit", mutating: true, description: "退出 Desktop 壳并保留独立 Harness，等待控制插件恢复" },
        OperationDescription { id: "desktop.shutdown", mutating: true, description: "停止 Harness 后退出 Desktop，用于完整冷启动回归" },
    ];
    assert(res@ =~= seq![
        res[0],
        res[1],
        res[2],
        res[3],
        res[4],
        res[5],
        res[6],
        res[7],
        res[8],
        res[9],
        res[10],
        res[11],
        res[12],
        res[13],
        res[14],
    ]);
    res
}

/// No operation identifier occurs twice in the catalog.
pub proof fn lemma_catalog_ids_unique()
    ensures
        catalog_ids().no_duplicates(),
        catalog_ids().len() == 15,
{
    reveal_strlit("control.catalog");
    reveal_strlit("diagnostics.snapshot");
    reveal_strlit("shell.status");
    reveal_strlit("runtime.info");
    reveal_strlit("runtime.health");
    reveal_strlit("instance.info");
    reveal_strlit("core.list");
    reveal_strlit("core.activate");
    reveal_strlit("profile.list");
    reveal_strlit("profile.activate");
    reveal_strlit("logs.bundle");
    reveal_strlit("trace.read");
    reveal_strlit("stress.snapshot");
    reveal_strlit("desktop.exit");
    reveal_strlit("desktop.shutdown");
    let ids = catalog_ids();
    assert forall|i: int, j: int| 0 <= i < ids.len() && 0 <= j < ids.len() && i != j implies ids[i]
        != ids[j] by {
        if ids[i] == ids[j] {
            assert(ids[i].len() == ids[j].len());
            assert(ids[i][0] == ids[j][0]);
        }
    }
}

/// The protocol identifier is versioned (`-v1`).
pub proof fn lemma_protocol_is_versioned()
    ensures
        PROTOCOL@.len() >= 3,
        PROTOCOL@.subrange(PROTOCOL@.len() - 3, PROTOCOL@.len() as int) == "-v1"@,
{
    reveal_strlit("dsh-desktop-control-jsonl-v1");
    reveal_strlit("-v1");
    assert(PROTOCOL@.subrange(PROTOCOL@.len() - 3, PROTOCOL@.len() as int) =~= "-v1"@);
}

/// Route an operation identifier to its catalog operation.
pub fn parse_operation(operation: &str) -> (res: Result<ControlOperation, String>)
    ensures
        match res {
            Ok(op) => catalog_ids()[operation_index(op)] == operation@,
            Err(m) => (forall|i: int| 0 <= i < 15 ==> #[trigger] catalog_ids()[i] != operation@) && m@
                == "CONTROL_UNKNOWN_OPERATION: "@ + operation@,
        },
{
    if str_equal(operation, "control.catalog") {
        return Ok(ControlOperation::Catalog);
    }
    if str_equal(operation, "diagnostics.snapshot") {
        return Ok(ControlOperation::DiagnosticsSnapshot);
    }
    if str_equal(operation, "shell.status") {
        return Ok(ControlOperation::ShellStatus);
    }
    if str_equal(operation, "runtime.info") {
        return Ok(ControlOperation::RuntimeInfo);
    }
    if str_equal(operation, "runtime.health") {
        return Ok(ControlOperation::RuntimeHealth);
    }
    if str_equal(operation, "instance.info") {
        return Ok(ControlOperation::InstanceInfo);
    }
    if str_equal(operation, "core.list") {
        return Ok(ControlOperation::CoreList);
    }
    if str_equal(operation, "core.activate") {
        return Ok(ControlOperation::CoreActivate);
    }
    if str_equal(operation, "profile.list") {
        return Ok(ControlOperation::ProfileList);
    }
    if str_equal(operation, "profile.activate") {
        return Ok(ControlOperation::ProfileActivate);
    }
    if str_equal(operation, "logs.bundle") {
        return Ok(ControlOperation::LogsBundle);
    }
    if str_equal(operation, "trace.read") {
        return Ok(ControlOperation::TraceRead);
    }
    if str_equal(operation, "stress.snapshot") {
        return Ok(ControlOperation::StressSnapshot);
    }
    if str_equal(operation, "desktop.exit") {
        return Ok(ControlOperation::DesktopExit);
    }
    if str_equal(operation, "desktop.shutdown") {
        return Ok(ControlOperation::DesktopShutdown);
    }
    let mut message = String::from_str("CONTROL_UNKNOWN_OPERATION: ");
    message.append(operation);
    Err(message)
}

/// Whether an operation changes state.
pub fn is_mutating(op: ControlOperation) -> (res: bool)
    ensures
        res == catalog_mutating()[operation_index(op)],
{
    match op {
        ControlOperation::CoreActivate | ControlOperation::ProfileActivate
        | ControlOperation::DesktopExit | ControlOperation::DesktopShutdown => true,
        _ => false,
    }
}


/// A value of a request argument, as the argument rules read it.
#[derive(Debug, Clone)]
pub enum ArgValue {
    /// A JSON number that is a non-negative integer fitting in `u64`.
    Unsigned(u64),
    /// A JSON string.
    Text(String),
    /// Any other JSON value.
    Other,
}

/// The named arguments of a request (the entries of its `args` object; empty
/// when `args` is absent or not an object).
#[derive(Debug, Clone)]
pub struct ControlArgs {
    pub entries: Vec<(String, ArgValue)>,
}

/// The value stored under `key`, if any.
pub open spec fn arg_lookup(entries: Seq<(String, ArgValue)>, key: Seq<char>) -> Option<ArgValue>
    decreases entries.len(),
{
    if entries.len() == 0 {
        None
    } else if entries[0].0@ == key {
        Some(entries[0].1)
    } else {
        arg_lookup(entries.drop_first(), key)
    }
}

impl ControlArgs {
    /// The value stored under `key`, if any.
    pub fn get(&self, key: &str) -> (res: Option<&ArgValue>)
        ensures
            match res {
                Some(v) => arg_lookup(self.entries@, key@) == Some(*v),
                None => arg_lookup(self.entries@, key@) is None,
            },
    {
        let mut i: usize = 0;
        assert(self.entries@.skip(0) =~= self.entries@);
        while i < self.entries.len()
            invariant
                i <= self.entries.len(),
                arg_lookup(self.entries@.skip(i as int), key@) == arg_lookup(self.entries@, key@),
            decreases self.entries.len() - i,
        {
            proof {
                assert(self.entries@.skip(i as int).drop_first() =~= self.entries@.skip(i + 1));
                assert(self.entries@.skip(i as int)[0] == self.entries@[i as int]);
            }
            if str_equal(self.entries[i].0.as_str(), key) {
                return Some(&self.entries[i].1);
            }
            i = i + 1;
        }
        proof {
            assert(self.entries@.skip(i as int) =~= Seq::<(String, ArgValue)>::empty());
        }
        None
    }
}

/// The unsigned value under `key`, or `default` when absent or not unsigned.
pub open spec fn unsigned_or(entries: Seq<(String, ArgValue)>, key: Seq<char>, default: u64) -> u64 {
    match arg_lookup(entries, key) {
        Some(ArgValue::Unsigned(v)) => v,
        _ => default,
    }
}

/// A bounded positive integer argument: `default` when absent, refused when 0
/// or above `maximum`.
pub fn arg_usize(args: &ControlArgs, key: &str, default: usize, maximum: usize) -> (res: Result<
    usize,
    String,
>)
    ensures
        ({
            let v = unsigned_or(args.entries@, key@, default as u64);
            if v == 0 || v > maximum {
                res matches Err(m) && m@ == "CONTROL_INVALID_ARGUMENT: "@ + key@
                    + " must be between 1 and "@ + decimal(maximum as nat)
            } else {
                res == Ok::<usize, String>(v as usize)
            }
        }),
{
    let value: u64 = match args.get(key) {
        Some(ArgValue::Unsigned(v)) => *v,
        _ => default as u64,
    };
    if value == 0 || value > maximum as u64 {
        let mut m = String::from_str("CONTROL_INVALID_ARGUMENT: ");
        m.append(key);
        m.append(" must be between 1 and ");
        let digits = decimal_string(maximum as u128);
        m.append(digits.as_str());
        return Err(m);
    }
    Ok(value as usize)
}

/// A required non-empty string argument.
pub fn required_string<'a>(args: &'a ControlArgs, key: &str) -> (res: Result<&'a str, String>)
    ensures
        match arg_lookup(args.entries@, key@) {
            Some(ArgValue::Text(t)) => if t@.len() > 0 {
                res matches Ok(v) && v@ == t@
            } else {
                res matches Err(m) && m@ == "CONTROL_INVALID_ARGUMENT: "@ + key@
                    + " must be a non-empty string"@
            },
            _ => res matches Err(m) && m@ == "CONTROL_INVALID_ARGUMENT: "@ + key@
                + " must be a non-empty string"@,
        },
{
    match args.get(key) {
        Some(ArgValue::Text(t)) => {
            if !t.as_str().is_empty() {
                return Ok(t.as_str());
            }
        },
        _ => {},
    }
    let mut m = String::from_str("CONTROL_INVALID_ARGUMENT: ");
    m.append(key);
    m.append(" must be a non-empty string");
    Err(m)
}

/// The iteration count and the concurrency of a snapshot load test: at most
/// 1000 iterations (20 by default) and at most 64 concurrent snapshots (4 by
/// default), never more than the iterations.
pub fn stress_plan(args: &ControlArgs) -> (res: Result<(usize, usize), String>)
    ensures
        ({
            let it = unsigned_or(args.entries@, "iterations"@, 20);
            let co = unsigned_or(args.entries@, "concurrency"@, 4);
            if it == 0 || it > 1000 {
                res matches Err(m) && m@ == "CONTROL_INVALID_ARGUMENT: "@ + "iterations"@
                    + " must be between 1 and "@ + decimal(1000)
            } else if co == 0 || co > 64 {
                res matches Err(m) && m@ == "CONTROL_INVALID_ARGUMENT: "@ + "concurrency"@
                    + " must be between 1 and "@ + decimal(64)
            } else {
                res == Ok::<(usize, usize), String>(
                    (it as usize, if co < it {
                        co as usize
                    } else {
                        it as usize
                    }),
                )
            }
        }),
{
    let iterations = match arg_usize(args, "iterations", 20, 1000) {
        Ok(v) => v,
        Err(m) => return Err(m),
    };
    let concurrency = match arg_usize(args, "concurrency", 4, 64) {
        Ok(v) => v,
        Err(m) => return Err(m),
    };
    let concurrency = if concurrency < iterations {
        concurrency
    } else {
        iterations
    };
    Ok((iterations, concurrency))
}

/// Numeric order of durations.
pub open spec fn duration_order() -> spec_fn(u64, u64) -> int {
    |a: u64, b: u64|
        if a < b {
            -1int
        } else if a > b {
            1int
        } else {
            0int
        }
}

/// The latency statistics of a load test.
#[derive(Debug, Clone, Copy)]
pub struct StressSummary {
    pub iterations: usize,
    pub concurrency: usize,
    pub successes: usize,
    pub p50: u64,
    pub p95: u64,
    pub max: u64,
}

/// The position of the `percent` percentile in `len` sorted samples.
pub open spec fn percentile_index(len: int, percent: int) -> int {
    let i = (len - 1) * percent / 100;
    if i < len - 1 {
        i
    } else {
        len - 1
    }
}

/// Sort durations in ascending order.
pub fn sort_durations(v: &Vec<u64>) -> (res: Vec<u64>)
    ensures
        res@ == sort_by(v@, duration_order()),
{
    let mut res: Vec<u64> = Vec::new();
    let mut i: usize = 0;
    while i < v.len()
        invariant
            i <= v.len(),
            res@ == sort_by(v@.take(i as int), duration_order()),
        decreases v.len() - i,
    {
        let x = v[i];
        let mut p: usize = 0;
        while p < res.len() && res[p] <= x
            invariant
                p <= res.len(),
                forall|q: int| 0 <= q < p ==> (duration_order())(#[trigger] res@[q], x) <= 0,
            decreases res.len() - p,
        {
            p = p + 1;
        }
        proof {
            lemma_first_after(res@, x, duration_order(), p as int);
            assert(v@.take(i + 1).drop_last() =~= v@.take(i as int));
            assert(v@.take(i + 1).last() == x);
        }
        res.insert(p, x);
        i = i + 1;
    }
    assert(v@.take(v.len() as int) =~= v@);
    res
}

/// The summary of a load test: successes are the iterations that did not
/// fail, and the percentiles and maximum are read from the sorted durations.
pub fn stress_summary(iterations: usize, concurrency: usize, durations: &Vec<u64>, failures: usize) -> (res:
    StressSummary)
    requires
        durations.len() >= 1,
        failures <= iterations,
    ensures
        ({
            let sorted = sort_by(durations@, duration_order());
            &&& res.iterations == iterations
            &&& res.concurrency == concurrency
            &&& res.successes == iterations - failures
            &&& res.p50 == sorted[percentile_index(durations.len() as int, 50)]
            &&& res.p95 == sorted[percentile_index(durations.len() as int, 95)]
            &&& res.max == sorted[durations.len() - 1]
        }),
{
    let sorted = sort_durations(durations);
    proof {
        lemma_sort_by_elements(durations@, duration_order());
    }
    let n = sorted.len();
    let i50 = ((n - 1) / 100) * 50 + ((n - 1) % 100) * 50 / 100;
    let i95 = ((n - 1) / 100) * 95 + ((n - 1) % 100) * 95 / 100;
    proof {
        lemma_scaled_index(n as int - 1, 50);
        lemma_scaled_index(n as int - 1, 95);
    }
    let i50 = if i50 < n - 1 {
        i50
    } else {
        n - 1
    };
    let i95 = if i95 < n - 1 {
        i95
    } else {
        n - 1
    };
    StressSummary {
        iterations,
        concurrency,
        successes: iterations - failures,
        p50: sorted[i50],
        p95: sorted[i95],
        max: sorted[n - 1],
    }
}

/// `m * p / 100` computed without overflow as `(m / 100) * p + (m % 100) * p / 100`.
pub proof fn lemma_scaled_index(m: int, p: int)
    requires
        m >= 0,
        0 <= p <= 100,
    ensures
        (m / 100) * p + (m % 100) * p / 100 == m * p / 100,
        m * p / 100 <= m,
{
    let q = m / 100;
    let r = m % 100;
    assert(m == 100 * q + r);
    assert(m * p == 100 * (q * p) + r * p) by (nonlinear_arith)
        requires
            m == 100 * q + r,
    ;
    assert((100 * (q * p) + r * p) / 100 == q * p + (r * p) / 100) by (nonlinear_arith)
        requires
            0 <= r < 100,
            0 <= p <= 100,
            q >= 0,
    ;
    assert(m * p <= m * 100) by (nonlinear_arith)
        requires
            m >= 0,
            p <= 100,
    ;
}

/// In a load test's summary the median never exceeds the 95th percentile,
/// which never exceeds the maximum.
pub proof fn lemma_percentiles_ordered(durations: Seq<u64>)
    requires
        durations.len() >= 1,
    ensures
        ({
            let sorted = sort_by(durations, duration_order());
            let n = durations.len() as int;
            sorted[percentile_index(n, 50)] <= sorted[percentile_index(n, 95)] <= sorted[n - 1]
        }),
{
    let order = duration_order();
    assert(is_total_preorder(order));
    lemma_sort_by_sorted(durations, order);
    lemma_sort_by_elements(durations, order);
    let sorted = sort_by(durations, order);
    let n = durations.len() as int;
    let a = percentile_index(n, 50);
    let b = percentile_index(n, 95);
    assert((n - 1) * 50 <= (n - 1) * 95) by (nonlinear_arith)
        requires
            n >= 1,
    ;
    assert((n - 1) * 50 / 100 <= (n - 1) * 95 / 100) by (nonlinear_arith)
        requires
            (n - 1) * 50 <= (n - 1) * 95,
    ;
    assert(0 <= (n - 1) * 50 / 100) by (nonlinear_arith)
        requires
            n >= 1,
    ;
    if a < b {
        assert(order(sorted[a], sorted[b]) <= 0);
    }
    if b < n - 1 {
        assert(order(sorted[b], sorted[n - 1]) <= 0);
    }
}

/// A lower-case hexadecimal digit.
pub open spec fn hex_digit(d: int) -> char {
    if d < 10 {
        (48 + d) as char
    } else {
        (87 + d) as char
    }
}

/// Two lower-case hexadecimal digits per byte.
pub open spec fn hex_of(bytes: Seq<u8>) -> Seq<char>
    decreases bytes.len(),
{
    if bytes.len() == 0 {
        seq![]
    } else {
        hex_of(bytes.drop_last()) + seq![
            hex_digit(bytes.last() as int / 16),
            hex_digit(bytes.last() as int % 16),
        ]
    }
}

/// Whether a character is a lower-case hexadecimal digit.
pub open spec fn is_hex_char(c: char) -> bool {
    ('0' <= c && c <= '9') || ('a' <= c && c <= 'f')
}

fn hex_digit_str(d: u8) -> (res: &'static str)
    requires
        d < 16,
    ensures
        res@ == seq![hex_digit(d as int)],
{
    proof {
        reveal_strlit("0");
        reveal_strlit("1");
        reveal_strlit("2");
        reveal_strlit("3");
        reveal_strlit("4");
        reveal_strlit("5");
        reveal_strlit("6");
        reveal_strlit("7");
        reveal_strlit("8");
        reveal_strlit("9");
        reveal_strlit("a");
        reveal_strlit("b");
        reveal_strlit("c");
        reveal_strlit("d");
        reveal_strlit("e");
        reveal_strlit("f");
    }
    match d {
        0 => "0",
        1 => "1",
        2 => "2",
        3 => "3",
        4 => "4",
        5 => "5",
        6 => "6",
        7 => "7",
        8 => "8",
        9 => "9",
        10 => "a",
        11 => "b",
        12 => "c",
        13 => "d",
        14 => "e",
        _ => "f",
    }
}

/// Lower-case hexadecimal text of `bytes` (two digits per byte).
pub fn hex_token(bytes: &[u8]) -> (res: String)
    ensures
        res@ == hex_of(bytes@),
        res@.len() == 2 * bytes@.len(),
        forall|i: int| 0 <= i < res@.len() ==> is_hex_char(#[trigger] res@[i]),
{
    let mut out = String::new();
    let mut i: usize = 0;
    assert(bytes@.take(0) =~= Seq::<u8>::empty());
    while i < bytes.len()
        invariant
            i <= bytes.len(),
            out@ == hex_of(bytes@.take(i as int)),
            out@.len() == 2 * i,
            forall|k: int| 0 <= k < out@.len() ==> is_hex_char(#[trigger] out@[k]),
        decreases bytes.len() - i,
    {
        let b = bytes[i];
        let ghost before = out@;
        out.append(hex_digit_str(b / 16));
        out.append(hex_digit_str(b % 16));
        proof {
            assert(bytes@.take(i + 1).drop_last() =~= bytes@.take(i as int));
            assert(bytes@.take(i + 1).last() == b);
            assert(out@ =~= hex_of(bytes@.take(i + 1)));
            assert forall|k: int| 0 <= k < out@.len() implies is_hex_char(#[trigger] out@[k]) by {
                if k >= before.len() {
                    let d = if k == before.len() { b as int / 16 } else { b as int % 16 };
                    assert(out@[k] == hex_digit(d));
                } else {
                    assert(out@[k] == before[k]);
                }
            }
        }
        i = i + 1;
    }
    assert(bytes@.take(bytes.len() as int) =~= bytes@);
    out
}

/// 32 bytes from the operating system's generator (`rand::rngs::OsRng`,
/// `RngCore::try_fill_bytes`), or the generator's error as its `Display`
/// renders it. Nothing is claimed of the bytes or of when it fails.
#[verifier::external_body]
fn os_random_bytes() -> (res: Result<[u8; 32], String>) {
    let mut bytes = [0u8; 32];
    match rand::RngCore::try_fill_bytes(&mut rand::rngs::OsRng, &mut bytes) {
        Ok(()) => Ok(bytes),
        Err(error) => Err(error.to_string()),
    }
}

/// The prefix of the error when the operating system yields no randomness.
pub const TOKEN_RANDOM_ERROR: &'static str = "CONTROL_TOKEN_RANDOM: ";

/// A fresh control token: 256 bits from the operating system as 64
/// lower-case hexadecimal digits; an error when the operating system has no
/// randomness to give.
pub fn generated_token() -> (res: Result<String, String>)
    ensures
        match res {
            Ok(t) => {
                &&& t@.len() == 64
                &&& forall|i: int| 0 <= i < t@.len() ==> is_hex_char(#[trigger] t@[i])
                &&& exists|b: Seq<u8>| b.len() == 32 && t@ == hex_of(b)
            },
            Err(m) => TOKEN_RANDOM_ERROR@.is_prefix_of(m@),
        },
{
    match os_random_bytes() {
        Ok(bytes) => {
            let t = hex_token(&bytes);
            assert(bytes@.len() == 32);
            Ok(t)
        },
        Err(error) => {
            let mut m = String::from_str(TOKEN_RANDOM_ERROR);
            m.append(error.as_str());
            assert(m@.subrange(0, TOKEN_RANDOM_ERROR@.len() as int) =~= TOKEN_RANDOM_ERROR@);
            Err(m)
        },
    }
}

/// Whether a request line read up to the limit is too large to process.
pub fn request_too_large(size: usize) -> (res: bool)
    ensures
        res == (size > MAX_REQUEST_BYTES),
{
    size > MAX_REQUEST_BYTES
}

/// A request is dispatched only with the endpoint's token.
pub fn authorize(request_token: &str, token: &str) -> (res: Result<(), String>)
    ensures
        res is Ok <==> request_token@ == token@,
        res matches Err(m) ==> m@ == "CONTROL_UNAUTHORIZED"@,
{
    if str_equal(request_token, token) {
        Ok(())
    } else {
        Err(String::from_str("CONTROL_UNAUTHORIZED"))
    }
}

/// The trace identifier of a request: its own, or `control-<now_ms>`.
pub fn trace_id_for(requested: Option<String>, now_ms: u128) -> (res: String)
    ensures
        match requested {
            Some(t) => res@ == t@,
            None => res@ == "control-"@ + decimal(now_ms as nat),
        },
{
    match requested {
        Some(t) => t,
        None => {
            let mut id = String::from_str("control-");
            let digits = decimal_string(now_ms);
            id.append(digits.as_str());
            id
        },
    }
}

/// The reply to one control request; `T` is the result value.
#[derive(Debug, Clone)]
pub struct ControlResponse<T> {
    pub trace_id: String,
    pub ok: bool,
    pub result: Option<T>,
    pub error: Option<String>,
    pub duration_ms: u128,
}

/// The reply to a dispatched request: `ok` with the result, or the error.
pub fn response_for<T>(trace_id: String, outcome: Result<T, String>, duration_ms: u128) -> (res:
    ControlResponse<T>)
    ensures
        res.trace_id == trace_id,
        res.duration_ms == duration_ms,
        match outcome {
            Ok(v) => res.ok && res.result == Some(v) && res.error is None,
            Err(e) => !res.ok && res.result is None && res.error == Some(e),
        },
{
    match outcome {
        Ok(v) => ControlResponse { trace_id, ok: true, result: Some(v), error: None, duration_ms },
        Err(e) => ControlResponse { trace_id, ok: false, result: None, error: Some(e), duration_ms },
    }
}

/// The reply to a request that could not be read or parsed: a fresh trace
/// identifier, no result, the error and no duration.
pub fn rejection<T>(error: String, now_ms: u128) -> (res: ControlResponse<T>)
    ensures
        res.trace_id@ == "control-"@ + decimal(now_ms as nat),
        !res.ok,
        res.result is None,
        res.error == Some(error),
        res.duration_ms == 0,
{
    let trace_id = trace_id_for(None, now_ms);
    ControlResponse { trace_id, ok: false, result: None, error: Some(error), duration_ms: 0 }
}

/// One request line of the control protocol, as parsed.
#[derive(Debug, Clone)]
pub struct ControlRequest {
    pub token: String,
    pub operation: String,
    pub args: ControlArgs,
    pub trace_id: Option<String>,
}

/// What happens to a request line.
#[derive(Debug)]
pub enum Admission<T> {
    /// The peer closed without sending anything: no reply.
    Silent,
    /// The line is refused before any operation runs; this is the reply.
    Refused(ControlResponse<T>),
    /// The token is wrong: the reply is `CONTROL_UNAUTHORIZED` under this
    /// trace identifier, and the attempt is traced.
    Denied { trace_id: String, operation: String },
    /// The request is dispatched under this trace identifier.
    Admitted { trace_id: String, request: ControlRequest },
}

/// The trace identifier a request is answered under.
pub open spec fn request_trace_id(requested: Option<String>, now_ms: u128) -> Seq<char> {
    match requested {
        Some(t) => t@,
        None => "control-"@ + decimal(now_ms as nat),
    }
}

/// Whether a refusal reply carries exactly `message` under a fresh trace
/// identifier.
pub open spec fn refused_with<T>(res: Admission<T>, message: Seq<char>, now_ms: u128) -> bool {
    res matches Admission::Refused(r) && r.trace_id@ == "control-"@ + decimal(now_ms as nat) && !r.ok
        && r.result is None && r.duration_ms == 0 && (r.error matches Some(e) && e@ == message)
}

/// Decide what happens to a request line, in the protocol's order: a read
/// error or a line over the size limit is refused, an empty read gets no
/// reply, a line that does not parse is refused, a wrong token is denied, and
/// only then is the request dispatched. `read` is the outcome of reading the
/// line (its size), `parsed` what parsing it gave; it is consulted only for a
/// line within the limit.
pub fn admit_request<T>(
    read: Result<usize, String>,
    parsed: Result<ControlRequest, String>,
    token: &str,
    now_ms: u128,
) -> (res: Admission<T>)
    ensures
        match read {
            Err(e) => refused_with(res, "CONTROL_REQUEST_READ: "@ + e@, now_ms),
            Ok(size) => if size > MAX_REQUEST_BYTES {
                refused_with(res, "CONTROL_REQUEST_TOO_LARGE"@, now_ms)
            } else if size == 0 {
                res is Silent
            } else {
                match parsed {
                    Err(e) => refused_with(res, "CONTROL_REQUEST_PARSE: "@ + e@, now_ms),
                    Ok(request) => if request.token@ == token@ {
                        res matches Admission::Admitted { trace_id, request: r } && trace_id@
                            == request_trace_id(request.trace_id, now_ms) && r == request
                    } else {
                        res matches Admission::Denied { trace_id, operation } && trace_id@
                            == request_trace_id(request.trace_id, now_ms) && operation
                            == request.operation
                    },
                }
            },
        },
{
    let size = match read {
        Err(e) => {
            let mut m = String::from_str("CONTROL_REQUEST_READ: ");
            m.append(e.as_str());
            return Admission::Refused(rejection(m, now_ms));
        },
        Ok(size) => size,
    };
    if request_too_large(size) {
        return Admission::Refused(rejection(String::from_str("CONTROL_REQUEST_TOO_LARGE"), now_ms));
    }
    if size == 0 {
        return Admission::Silent;
    }
    let request = match parsed {
        Err(e) => {
            let mut m = String::from_str("CONTROL_REQUEST_PARSE: ");
            m.append(e.as_str());
            return Admission::Refused(rejection(m, now_ms));
        },
        Ok(request) => request,
    };
    let trace_id = trace_id_for(request.trace_id.clone(), now_ms);
    match authorize(request.token.as_str(), token) {
        Ok(()) => Admission::Admitted { trace_id, request },
        Err(_) => Admission::Denied { trace_id, operation: request.operation },
    }
}

/// Whether the control trace must be rotated before the next append.
pub fn trace_rotation_due(current_len: u64) -> (res: bool)
    ensures
        res == (current_len > MAX_TRACE_BYTES),
{
    current_len > MAX_TRACE_BYTES
}

/// Refuse switching to a profile that does not exist.
pub fn check_profile_exists(profiles: &Vec<String>, id: &str) -> (res: Result<(), String>)
    ensures
        res is Ok <==> exists|i: int| 0 <= i < profiles.len() && (#[trigger] profiles@[i])@ == id@,
        res matches Err(m) ==> m@ == "PROFILE_NOT_FOUND: profile "@ + id@ + " does not exist"@,
{
    let mut i: usize = 0;
    while i < profiles.len()
        invariant
            i <= profiles.len(),
            forall|j: int| 0 <= j < i ==> (#[trigger] profiles@[j])@ != id@,
        decreases profiles.len() - i,
    {
        if str_equal(profiles[i].as_str(), id) {
            return Ok(());
        }
        i = i + 1;
    }
    let mut m = String::from_str("PROFILE_NOT_FOUND: profile ");
    m.append(id);
    m.append(" does not exist");
    Err(m)
}

/// The `Debug` rendering of a unit result: `Ok(())` or `Err("...")`.
pub open spec fn debug_unit_result(r: Result<(), String>) -> Seq<char> {
    match r {
        Ok(_) => "Ok(())"@,
        Err(e) => "Err("@ + debug_text(e@) + ")"@,
    }
}

fn debug_unit_result_string(r: &Result<(), String>) -> (res: String)
    ensures
        res@ == debug_unit_result(*r),
{
    match r {
        Ok(_) => String::from_str("Ok(())"),
        Err(e) => {
            let mut s = String::from_str("Err(");
            let q = debug_quoted(e.as_str());
            s.append(q.as_str());
            s.append(")");
            s
        },
    }
}

/// The error of a profile switch whose harness failed to start, with the
/// outcome of the rollback and of the restart.
pub open spec fn activation_start_error(
    error: Seq<char>,
    rollback: Result<(), String>,
    restart: Result<(), String>,
) -> Seq<char> {
    "PROFILE_ACTIVATE_START: "@ + error + "; rollback="@ + debug_unit_result(rollback) + "; restart="@
        + debug_unit_result(restart)
}

/// What the caller does next while switching profiles.
#[derive(Debug)]
pub enum ActivationStep {
    /// Stop the running harness.
    StopHarness,
    /// Select the requested profile.
    SelectProfile,
    /// Start the harness.
    StartHarness,
    /// Select the previously active profile again.
    RestoreProfile,
    /// Stop: `Ok` when the requested profile is active and running.
    Finish(Result<(), String>),
}

/// Where a profile switch stands.
#[derive(Debug)]
pub enum ActivationPhase {
    Stopping,
    Selecting,
    RestartingAfterSelectFailure { error: String },
    Starting,
    RestoringPrevious { error: String },
    RestartingAfterRollback { error: String, rollback: Result<(), String> },
    Finished,
}

/// A profile switch in progress.
#[derive(Debug)]
pub struct ProfileActivation {
    pub was_running: bool,
    pub phase: ActivationPhase,
}

/// The transition of a profile switch on the outcome of the last step.
///
/// A running harness is stopped first; a failed selection restarts it and
/// reports the selection error; a failed start restores the previous profile,
/// restarts a harness that was running, and reports all three outcomes.
pub open spec fn activation_next(
    was_running: bool,
    phase: ActivationPhase,
    outcome: Result<(), String>,
) -> (ActivationPhase, ActivationStep) {
    match phase {
        ActivationPhase::Stopping => match outcome {
            Ok(_) => (ActivationPhase::Selecting, ActivationStep::SelectProfile),
            Err(e) => (ActivationPhase::Finished, ActivationStep::Finish(Err(e))),
        },
        ActivationPhase::Selecting => match outcome {
            Ok(_) => (ActivationPhase::Starting, ActivationStep::StartHarness),
            Err(e) => if was_running {
                (ActivationPhase::RestartingAfterSelectFailure { error: e }, ActivationStep::StartHarness)
            } else {
                (ActivationPhase::Finished, ActivationStep::Finish(Err(e)))
            },
        },
        ActivationPhase::RestartingAfterSelectFailure { error } => (
            ActivationPhase::Finished,
            ActivationStep::Finish(Err(error)),
        ),
        ActivationPhase::Starting => match outcome {
            Ok(_) => (ActivationPhase::Finished, ActivationStep::Finish(Ok(()))),
            Err(e) => (ActivationPhase::RestoringPrevious { error: e }, ActivationStep::RestoreProfile),
        },
        ActivationPhase::RestoringPrevious { error } => if was_running {
            (
                ActivationPhase::RestartingAfterRollback { error: error, rollback: outcome },
                ActivationStep::StartHarness,
            )
        } else {
            (ActivationPhase::Finished, ActivationStep::Finish(Err(error)))
        },
        ActivationPhase::RestartingAfterRollback { error, rollback } => (
            ActivationPhase::Finished,
            ActivationStep::Finish(Err(error)),
        ),
        ActivationPhase::Finished => (ActivationPhase::Finished, ActivationStep::Finish(outcome)),
    }
}

/// The message that finishes a switch: `activation_next`'s error, with the
/// start failure composed with its rollback and restart outcomes.
pub open spec fn activation_message(
    was_running: bool,
    phase: ActivationPhase,
    outcome: Result<(), String>,
) -> Option<Seq<char>> {
    match phase {
        ActivationPhase::RestoringPrevious { error } => if was_running {
            None
        } else {
            Some(activation_start_error(error@, outcome, Ok(())))
        },
        ActivationPhase::RestartingAfterRollback { error, rollback } => Some(
            activation_start_error(error@, rollback, outcome),
        ),
        _ => None,
    }
}

/// A profile switch succeeds only by a successful start of the harness; once
/// finished it stays finished; and every failure of a started switch that
/// had a harness running leads to a restart before the switch finishes.
pub proof fn lemma_activation_outcomes(
    was_running: bool,
    phase: ActivationPhase,
    outcome: Result<(), String>,
)
    ensures
        ({
            let (next, step) = activation_next(was_running, phase, outcome);
            &&& (step matches ActivationStep::Finish(Ok(_))) ==> ((phase is Starting
                && outcome is Ok) || (phase is Finished && outcome is Ok))
            &&& phase is Finished ==> next is Finished
            &&& (was_running && outcome is Err && (phase is Selecting || phase is RestoringPrevious))
                ==> step is StartHarness
            &&& (phase is Starting && outcome is Err) ==> step is RestoreProfile
            &&& (phase is Stopping && outcome is Err) ==> (next is Finished && step
                == ActivationStep::Finish(outcome))
            &&& (phase is Stopping && outcome is Ok) ==> (next is Selecting && step is SelectProfile)
            &&& outcome is Err ==> !(step is SelectProfile)
            &&& step is SelectProfile ==> (phase is Stopping && outcome is Ok)
        }),
{
}

impl ProfileActivation {
    /// Begin a switch: stop a running harness, else select the profile.
    pub fn begin(was_running: bool) -> (res: (ProfileActivation, ActivationStep))
        ensures
            res.0.was_running == was_running,
            was_running ==> res.0.phase is Stopping && res.1 is StopHarness,
            !was_running ==> res.0.phase is Selecting && res.1 is SelectProfile,
    {
        if was_running {
            (ProfileActivation { was_running, phase: ActivationPhase::Stopping }, ActivationStep::StopHarness)
        } else {
            (ProfileActivation { was_running, phase: ActivationPhase::Selecting }, ActivationStep::SelectProfile)
        }
    }

    /// Advance on the outcome of the step just performed.
    pub fn advance(self, outcome: Result<(), String>) -> (res: (ProfileActivation, ActivationStep))
        ensures
            res.0.was_running == self.was_running,
            res.0.phase == activation_next(self.was_running, self.phase, outcome).0,
            self.phase is Stopping ==> match outcome {
                Ok(_) => res.0.phase is Selecting && res.1 is SelectProfile,
                Err(e) => res.0.phase is Finished && (res.1 matches ActivationStep::Finish(Err(m))
                    && m == e),
            },
            outcome is Err ==> !(res.1 is SelectProfile),
            match activation_message(self.was_running, self.phase, outcome) {
                Some(m) => res.1 matches ActivationStep::Finish(Err(e)) && e@ == m,
                None => res.1 == activation_next(self.was_running, self.phase, outcome).1,
            },
    {
        let was_running = self.was_running;
        match self.phase {
            ActivationPhase::Stopping => match outcome {
                Ok(_) => (ProfileActivation { was_running, phase: ActivationPhase::Selecting }, ActivationStep::SelectProfile),
                Err(e) => (ProfileActivation { was_running, phase: ActivationPhase::Finished }, ActivationStep::Finish(Err(e))),
            },
            ActivationPhase::Selecting => match outcome {
                Ok(_) => (ProfileActivation { was_running, phase: ActivationPhase::Starting }, ActivationStep::StartHarness),
                Err(e) => if was_running {
                    (
                        ProfileActivation { was_running, phase: ActivationPhase::RestartingAfterSelectFailure { error: e } },
                        ActivationStep::StartHarness,
                    )
                } else {
                    (ProfileActivation { was_running, phase: ActivationPhase::Finished }, ActivationStep::Finish(Err(e)))
                },
            },
            ActivationPhase::RestartingAfterSelectFailure { error } => (
                ProfileActivation { was_running, phase: ActivationPhase::Finished },
                ActivationStep::Finish(Err(error)),
            ),
            ActivationPhase::Starting => match outcome {
                Ok(_) => (ProfileActivation { was_running, phase: ActivationPhase::Finished }, ActivationStep::Finish(Ok(()))),
                Err(e) => (
                    ProfileActivation { was_running, phase: ActivationPhase::RestoringPrevious { error: e } },
                    ActivationStep::RestoreProfile,
                ),
            },
            ActivationPhase::RestoringPrevious { error } => if was_running {
                (
                    ProfileActivation {
                        was_running,
                        phase: ActivationPhase::RestartingAfterRollback { error, rollback: outcome },
                    },
                    ActivationStep::StartHarness,
                )
            } else {
                let message = start_failure_message(error.as_str(), &outcome, &Ok(()));
                (ProfileActivation { was_running, phase: ActivationPhase::Finished }, ActivationStep::Finish(Err(message)))
            },
            ActivationPhase::RestartingAfterRollback { error, rollback } => {
                let message = start_failure_message(error.as_str(), &rollback, &outcome);
                (ProfileActivation { was_running, phase: ActivationPhase::Finished }, ActivationStep::Finish(Err(message)))
            },
            ActivationPhase::Finished => (
                ProfileActivation { was_running, phase: ActivationPhase::Finished },
                ActivationStep::Finish(outcome),
            ),
        }
    }
}

fn start_failure_message(error: &str, rollback: &Result<(), String>, restart: &Result<(), String>) -> (res:
    String)
    ensures
        res@ == activation_start_error(error@, *rollback, *restart),
{
    let mut m = String::from_str("PROFILE_ACTIVATE_START: ");
    m.append(error);
    m.append("; rollback=");
    let r = debug_unit_result_string(rollback);
    m.append(r.as_str());
    m.append("; restart=");
    let t = debug_unit_result_string(restart);
    m.append(t.as_str());
    m
}

/// What to do after one readiness probe while switching cores.
#[derive(Debug)]
pub enum CoreSwitchPoll {
    /// The authenticated runtime answered.
    Ready,
    /// Probe again after a pause.
    Retry,
    /// The deadline passed without an answer.
    Fail(String),
}

/// Decide after a readiness probe of the switched core: ready on success,
/// retry before the deadline, fail after it.
pub fn core_switch_poll(health: Result<(), String>, before_deadline: bool) -> (res: CoreSwitchPoll)
    ensures
        match health {
            Ok(_) => res is Ready,
            Err(e) => if before_deadline {
                res is Retry
            } else {
                res matches CoreSwitchPoll::Fail(m) && m@ == "CORE_SWITCH_RUNTIME_NOT_READY: "@ + e@
            },
        },
{
    match health {
        Ok(_) => CoreSwitchPoll::Ready,
        Err(e) => if before_deadline {
            CoreSwitchPoll::Retry
        } else {
            let mut m = String::from_str("CORE_SWITCH_RUNTIME_NOT_READY: ");
            m.append(e.as_str());
            CoreSwitchPoll::Fail(m)
        },
    }
}
} // verus!
