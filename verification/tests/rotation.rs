use dsh_desktop::rotation::{
    indexed_log_name, log_number, overflow_plan, rotation_plan, size_rotation_due, RotationStep,
    DSH_MAX_BACKUPS, DSH_MAX_LOG_BYTES,
};
use std::collections::HashMap;

/// Carry out a plan on numbered in-memory files.
fn run(files: &mut HashMap<usize, String>, plan: &[RotationStep]) {
    for step in plan {
        match *step {
            RotationStep::Remove(i) => {
                files.remove(&i);
            }
            RotationStep::Shift(from, to) => {
                if files.contains_key(&from) {
                    files.remove(&to);
                    let content = files.remove(&from).unwrap();
                    files.insert(to, content);
                }
            }
            RotationStep::Truncate(i) => {
                files.insert(i, String::new());
            }
            RotationStep::RemoveFrom(i) => {
                files.retain(|n, _| *n < i);
            }
        }
    }
}

#[test]
fn rotate_keeps_only_last_three_starts() {
    let mut files: HashMap<usize, String> = HashMap::new();
    for i in 0..5 {
        files.insert(0, format!("start {i} content\n"));
        run(&mut files, &rotation_plan(3));
        assert_eq!(files.get(&0).cloned().unwrap_or_default(), "");
        assert!(!files.contains_key(&3));
        assert!(!files.contains_key(&4));
    }
    assert_eq!(files.get(&0).cloned().unwrap_or_default(), "");
    assert!(files.get(&1).unwrap().contains("start 4"));
    assert!(files.get(&2).unwrap().contains("start 3"));
    assert!(!files.contains_key(&3));
}

#[test]
fn rotate_with_keep_zero_removes_all() {
    let mut files: HashMap<usize, String> = HashMap::new();
    files.insert(0, "x".to_string());
    files.insert(1, "x".to_string());
    run(&mut files, &rotation_plan(0));
    assert!(!files.contains_key(&0));
    assert!(!files.contains_key(&1));
    assert!(files.is_empty());
}

#[test]
fn rotation_plans_are_exact() {
    assert_eq!(rotation_plan(0), vec![RotationStep::RemoveFrom(0)]);
    assert_eq!(
        rotation_plan(1),
        vec![RotationStep::Remove(0), RotationStep::Shift(0, 1)]
    );
    assert_eq!(
        rotation_plan(3),
        vec![
            RotationStep::Remove(2),
            RotationStep::Shift(2, 3),
            RotationStep::Shift(1, 2),
            RotationStep::Shift(0, 1),
        ]
    );
}

#[test]
fn keep_one_deletes_the_current_log_only() {
    let mut files: HashMap<usize, String> = HashMap::new();
    files.insert(0, "now".to_string());
    files.insert(1, "old".to_string());
    run(&mut files, &rotation_plan(1));
    assert!(!files.contains_key(&0));
    assert_eq!(files.get(&1).map(String::as_str), Some("old"));
}

#[test]
fn files_above_the_kept_range_are_untouched() {
    let mut files: HashMap<usize, String> = HashMap::new();
    files.insert(0, "a".to_string());
    files.insert(1, "b".to_string());
    files.insert(2, "c".to_string());
    files.insert(3, "stale".to_string());
    run(&mut files, &rotation_plan(3));
    assert!(!files.contains_key(&0));
    assert_eq!(files.get(&1).map(String::as_str), Some("a"));
    assert_eq!(files.get(&2).map(String::as_str), Some("b"));
    assert_eq!(files.get(&3).map(String::as_str), Some("stale"));
}

#[test]
fn overflow_keeps_three_backups_and_a_fresh_log() {
    assert_eq!(DSH_MAX_BACKUPS, 3);
    let mut files: HashMap<usize, String> = HashMap::new();
    for (i, text) in ["cur", "one", "two", "three"].iter().enumerate() {
        files.insert(i, text.to_string());
    }
    files.insert(7, "far".to_string());
    run(&mut files, &overflow_plan());
    assert_eq!(files.get(&0).map(String::as_str), Some(""));
    assert_eq!(files.get(&1).map(String::as_str), Some("cur"));
    assert_eq!(files.get(&2).map(String::as_str), Some("one"));
    assert_eq!(files.get(&3).map(String::as_str), Some("two"));
    assert_eq!(files.get(&7).map(String::as_str), Some("far"));
    assert_eq!(files.len(), 5);
}

#[test]
fn size_rotation_starts_above_five_mebibytes() {
    assert_eq!(DSH_MAX_LOG_BYTES, 5 * 1024 * 1024);
    assert!(!size_rotation_due(5 * 1024 * 1024));
    assert!(size_rotation_due(5 * 1024 * 1024 + 1));
    assert!(!size_rotation_due(0));
}

#[test]
fn indexed_names_carry_the_number() {
    assert_eq!(indexed_log_name("dsh-web.log", 0), "dsh-web.log");
    assert_eq!(indexed_log_name("dsh-web.log", 1), "dsh-web.log.1");
    assert_eq!(indexed_log_name("dsh-web.log", 12), "dsh-web.log.12");
}

#[test]
fn log_numbers_are_read_back_from_names() {
    assert_eq!(log_number("dsh-web.log", "dsh-web.log"), Some(0));
    assert_eq!(log_number("dsh-web.log", "dsh-web.log.1"), Some(1));
    assert_eq!(log_number("dsh-web.log", "dsh-web.log.12"), Some(12));
    assert_eq!(log_number("dsh-web.log", "dsh-web.log.0"), None);
    assert_eq!(log_number("dsh-web.log", "dsh-web.log.01"), None);
    assert_eq!(log_number("dsh-web.log", "dsh-web.log."), None);
    assert_eq!(log_number("dsh-web.log", "dsh-web.log.1x"), None);
    assert_eq!(log_number("dsh-web.log", "dsh-web.logs"), None);
    assert_eq!(log_number("dsh-web.log", "other.log.1"), None);
    assert_eq!(log_number("dsh-web.log", "dsh-web.log.99999999999999999999999"), None);
    assert_eq!(log_number("日志", "日志.3"), Some(3));
    for n in [0usize, 1, 9, 10, 123] {
        assert_eq!(log_number("a.log", &indexed_log_name("a.log", n)), Some(n));
    }
}
