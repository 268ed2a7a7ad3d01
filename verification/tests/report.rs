use dsh_desktop::diagnostics::{snapshot_for_paths, CoreIdentity};
use dsh_desktop::plugin_compat::empty_report;
use dsh_desktop::report::{
    anonymized_snapshot, backend_log_lines, environment_text, last_lines, log_capacity_text,
    log_file_summary, normalize_frontend_batch, run_log_report, split_lines,
    validate_external_url, FrontendLogEntry, ReportParts,
};

#[test]
fn diagnostic_tail_is_bounded_by_lines() {
    assert_eq!(last_lines("one\ntwo\nthree\nfour\n", 2), "three\nfour");
}

#[test]
fn lines_split_like_str_lines() {
    assert_eq!(split_lines("a\r\nb\n\nc\r"), vec!["a", "b", "", "c\r"]);
    assert!(split_lines("").is_empty());
    assert_eq!(split_lines("\n"), vec![""]);
    assert_eq!(split_lines("x"), vec!["x"]);
    assert_eq!(split_lines("中\r\n文"), vec!["中", "文"]);
}

#[test]
fn tail_keeps_all_lines_when_fewer() {
    assert_eq!(last_lines("one\r\ntwo", 10), "one\ntwo");
    assert_eq!(last_lines("one\ntwo", 0), "");
    assert_eq!(last_lines("", 3), "");
}

#[test]
fn backend_text_drops_frontend_lines() {
    let text = "t INFO frontend: a\nt INFO dsh: emit to frontend: 3\nt  WARN frontend: b\nplain";
    assert_eq!(
        backend_log_lines(text),
        "t INFO dsh: emit to frontend: 3\nplain"
    );
    assert_eq!(backend_log_lines(""), "");
}

fn entry(level: &str, target: &str, message: &str) -> FrontendLogEntry {
    FrontendLogEntry {
        level: level.to_string(),
        target: target.to_string(),
        message: message.to_string(),
    }
}

#[test]
fn batches_are_bounded_in_entries() {
    let entries: Vec<FrontendLogEntry> = (0..300).map(|i| entry("info", "t", &i.to_string())).collect();
    let kept = normalize_frontend_batch(&entries);
    assert_eq!(kept.len(), 256);
    assert_eq!(kept[255].message, "255");
}

#[test]
fn messages_and_targets_are_cut() {
    let long = format!("{}{}", "x".repeat(20000), "end");
    let target = "t".repeat(100);
    let kept = normalize_frontend_batch(&vec![entry("warn", &target, &long)]);
    assert_eq!(kept.len(), 1);
    assert_eq!(kept[0].level, "warn");
    assert_eq!(kept[0].target.chars().count(), 80);
    assert_eq!(kept[0].message.len(), 16384);
    assert!(kept[0].message.ends_with("end"));
    let chinese = "中".repeat(6000);
    let kept = normalize_frontend_batch(&vec![entry("info", "目标", &chinese)]);
    assert_eq!(kept[0].message.len(), 16383);
    assert_eq!(kept[0].target, "目标");
}

#[test]
fn batches_stop_at_the_byte_budget() {
    let big = "y".repeat(16384);
    let entries: Vec<FrontendLogEntry> = (0..20).map(|_| entry("info", "t", &big)).collect();
    assert_eq!(normalize_frontend_batch(&entries).len(), 16);
    let mut mixed = vec![entry("info", "t", &big); 16];
    mixed.push(entry("info", "t", "small"));
    assert_eq!(normalize_frontend_batch(&mixed).len(), 16);
    assert!(normalize_frontend_batch(&Vec::new()).is_empty());
}

#[test]
fn capacity_lines_are_exact() {
    assert_eq!(
        log_file_summary(1234, 2, 3),
        "currentBytes=1234; maxBytes=5242880; backups=2/3"
    );
    assert_eq!(
        log_capacity_text("a", "b", "c", "d"),
        "service: a\nfrontend: b\nbackend: c\ncontrolTrace: d"
    );
}

#[test]
fn environment_names_versions_but_not_the_profile() {
    assert_eq!(
        environment_text("1.2.3", Some("0.1.2"), "v20", "windows", "x86_64"),
        "app: 1.2.3\ndsh: 0.1.2\nnode: v20\nos: windows (x86_64)\nprofile: <ACTIVE_PROFILE>\nlogPolicy: 5 MiB current + 3 backups per stream"
    );
    assert_eq!(
        environment_text("1.2.3", None, "v20", "linux", "aarch64"),
        "app: 1.2.3\nnode: v20\nos: linux (aarch64)\nprofile: <ACTIVE_PROFILE>\nlogPolicy: 5 MiB current + 3 backups per stream"
    );
}

#[test]
fn report_is_redacted_and_anonymous() {
    let parts = ReportParts {
        environment: "app: 1".to_string(),
        snapshot: "{}".to_string(),
        capacity: "service: x".to_string(),
        trace: "trace line \n\n".to_string(),
        service: r"C:\Users\person\AppData\Desktop\logs token=abc".to_string(),
        frontend: "front product-zlzhg".to_string(),
        backend: "back C:/Users/person/AppData/Desktop/x".to_string(),
    };
    let roots = vec![
        (r"C:\Users\person\AppData\Desktop".to_string(), "<APP_DATA>".to_string()),
        (r"C:\Users\person".to_string(), "<USER_HOME>".to_string()),
    ];
    let report = run_log_report(&parts, &roots, "product-zlzhg");
    assert!(report.starts_with("### 环境信息\n\napp: 1\n\n### 诊断快照\n\n```json\n{}\n```"));
    assert!(report.contains("```jsonl\ntrace line\n```"));
    assert!(report.contains(r"<APP_DATA>\logs token=<REDACTED>"));
    assert!(report.contains("back <APP_DATA>/x"));
    assert!(report.contains("front <ACTIVE_PROFILE>"));
    assert!(!report.contains("person"));
    assert!(!report.contains("abc"));
    assert!(report.ends_with("### 后台日志（尾部）\n\n```\nback <APP_DATA>/x\n```"));
    let plain = run_log_report(&parts, &Vec::new(), "");
    assert!(plain.contains("front product-zlzhg"));
}

#[test]
fn snapshots_in_reports_hide_their_paths() {
    let snapshot = snapshot_for_paths(
        "/core",
        "/profile",
        CoreIdentity {
            version: None,
            entry_exists: true,
            shipped_dsh_package_count: 2,
        },
        empty_report("/core", "/profile"),
        &Vec::new(),
    );
    let hidden = anonymized_snapshot(snapshot);
    assert_eq!(hidden.core_path, "<ACTIVE_CORE>");
    assert_eq!(hidden.profile_path, "<ACTIVE_PROFILE_PATH>");
    assert_eq!(hidden.core.shipped_dsh_package_count, 2);
    assert!(hidden.core_compatibility.is_none());
}

#[test]
fn only_web_links_open_externally() {
    assert_eq!(validate_external_url("https://example.com"), Ok(()));
    assert_eq!(validate_external_url("http://x"), Ok(()));
    assert_eq!(
        validate_external_url("file:///etc/passwd"),
        Err("EXTERNAL_URL_INVALID: file:///etc/passwd".to_string())
    );
    assert!(validate_external_url("HTTPS://x").is_err());
}

#[test]
fn no_root_survives_in_either_spelling() {
    let roots = vec![
        ("/home/u".to_string(), "<USER_HOME>".to_string()),
        ("/home/u/app".to_string(), "<APP_DATA>".to_string()),
        (r"C:\Users\u".to_string(), "<WIN_HOME>".to_string()),
    ];
    let text = r"/home/u/app/x /home/u/y C:\Users\u\z C:/Users/u/w /home/uu";
    let out = dsh_desktop::logs::redact_diagnostic_text(text, &roots);
    assert_eq!(out, "<APP_DATA>/x <USER_HOME>/y <WIN_HOME>\\z <WIN_HOME>/w <USER_HOME>u");
    assert!(!out.contains("/home/u"));
    assert!(!out.contains(r"C:\Users\u"));
    assert!(!out.contains("C:/Users/u"));
}
