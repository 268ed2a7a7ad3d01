use dsh_desktop::cli::{
    argument, is_snapshot_command, snapshot_source, SnapshotSource, DEFAULT_PROFILE,
};

fn args(items: &[&str]) -> Vec<String> {
    items.iter().map(|s| s.to_string()).collect()
}

#[test]
fn option_values_follow_their_first_name() {
    let a = args(&["snapshot", "--profile", "p1", "--profile", "p2", "--core"]);
    assert_eq!(argument(&a, "--profile"), Some("p1".to_string()));
    assert_eq!(argument(&a, "--core"), None);
    assert_eq!(argument(&a, "--app-data"), None);
    assert_eq!(argument(&args(&[]), "--core"), None);
}

#[test]
fn explicit_paths_must_come_together() {
    assert_eq!(
        snapshot_source(Some("/c".to_string()), Some("/p".to_string())),
        Ok(SnapshotSource::Paths {
            core: "/c".to_string(),
            profile_path: "/p".to_string()
        })
    );
    assert_eq!(snapshot_source(None, None), Ok(SnapshotSource::Roots));
    assert_eq!(
        snapshot_source(Some("/c".to_string()), None),
        Err("DIAGNOSTICS_ARGUMENTS: --core and --profile-path must be used together".to_string())
    );
    assert!(snapshot_source(None, Some("/p".to_string())).is_err());
}

#[test]
fn only_the_snapshot_command_is_accepted() {
    assert!(is_snapshot_command(&args(&["snapshot", "--profile", "x"])));
    assert!(!is_snapshot_command(&args(&["status"])));
    assert!(!is_snapshot_command(&args(&[])));
    assert_eq!(DEFAULT_PROFILE, "product-zlzhg");
}
