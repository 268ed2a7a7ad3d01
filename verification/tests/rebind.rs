use dsh_desktop::rebind::{
    projection_installs, recovery_uninstalls, ProjectionState, Rebind, RebindPhase, RebindStep,
    SelectedPlugin,
};

fn selected(id: &str, provided_by_core: bool, installed: bool) -> SelectedPlugin {
    SelectedPlugin {
        id: id.to_string(),
        provided_by_core,
        installed,
    }
}

fn state(id: &str, provided: bool, known: bool, entry: bool, projection: bool) -> ProjectionState {
    ProjectionState {
        id: id.to_string(),
        provided_by_core: provided,
        preset_known: known,
        entry_ready: entry,
        projection_ready: projection,
    }
}

#[test]
fn overrides_of_native_capabilities_are_uninstalled() {
    let plugins = vec![
        selected("terminal", true, true),
        selected("inspector", true, false),
        selected("theme", false, true),
    ];
    assert_eq!(recovery_uninstalls(&plugins), vec!["terminal".to_string()]);
}

#[test]
fn only_stale_or_unknown_projections_are_installed() {
    let states = vec![
        state("native", true, false, false, false),
        state("unknown", false, false, true, true),
        state("ready", false, true, true, true),
        state("no-entry", false, true, false, true),
        state("other-set", false, true, true, false),
    ];
    assert_eq!(
        projection_installs(&states),
        vec![
            "unknown".to_string(),
            "no-entry".to_string(),
            "other-set".to_string()
        ]
    );
    assert!(projection_installs(&vec![state("ready", false, true, true, true)]).is_empty());
}

#[test]
fn rebind_runs_the_installer_once_then_the_gate() {
    let plugins = vec![selected("terminal", true, true), selected("theme", false, true)];
    let (r, step) = Rebind::begin(&plugins);
    assert!(matches!(step, RebindStep::Uninstall(ref id) if id == "terminal"));
    let (r, step) = r.advance(Ok(()));
    assert!(matches!(step, RebindStep::EnsureInternal));
    let (r, step) = r.advance(Ok(()));
    assert!(matches!(step, RebindStep::GatherProjections));
    let (r, step) = r.gathered(Ok(vec![state("theme", false, true, false, true)]));
    match step {
        RebindStep::Install(ids) => assert_eq!(ids, vec!["theme".to_string()]),
        other => panic!("unexpected {other:?}"),
    }
    let (r, step) = r.advance(Ok(()));
    assert!(matches!(step, RebindStep::RequireCompatible));
    let (r, step) = r.advance(Err("PLUGIN_INCOMPATIBLE: x".to_string()));
    assert!(matches!(step, RebindStep::Finish(Err(ref m)) if m == "PLUGIN_INCOMPATIBLE: x"));
    assert!(matches!(r.phase, RebindPhase::Finished));
}

#[test]
fn matching_projections_skip_the_installer() {
    let (r, step) = Rebind::begin(&vec![selected("theme", false, true)]);
    assert!(matches!(step, RebindStep::EnsureInternal));
    let (r, _) = r.advance(Ok(()));
    let (r, step) = r.gathered(Ok(vec![state("theme", false, true, true, true)]));
    assert!(matches!(step, RebindStep::RequireCompatible));
    let (_, step) = r.advance(Ok(()));
    assert!(matches!(step, RebindStep::Finish(Ok(()))));
}

#[test]
fn failures_end_the_rebind() {
    let (r, _) = Rebind::begin(&vec![selected("a", true, true), selected("b", true, true)]);
    let (r, step) = r.advance(Ok(()));
    assert!(matches!(step, RebindStep::Uninstall(ref id) if id == "b"));
    let (r, step) = r.advance(Err("UNINSTALL_FAILED".to_string()));
    assert!(matches!(step, RebindStep::Finish(Err(_))));
    assert!(matches!(r.phase, RebindPhase::Finished));
    let (r, _) = Rebind::begin(&Vec::new());
    let (r, _) = r.advance(Ok(()));
    let (_, step) = r.gathered(Err("STAGE_FAILED".to_string()));
    assert!(matches!(step, RebindStep::Finish(Err(ref m)) if m == "STAGE_FAILED"));
}
