use dsh_desktop::control::{
    arg_usize, authorize, check_profile_exists, core_switch_poll, generated_token, hex_token,
    is_mutating, operation_catalog, parse_operation, request_too_large, required_string,
    stress_plan, stress_summary, trace_id_for, trace_rotation_due, ActivationPhase,
    ActivationStep, ArgValue, ControlArgs, ControlOperation, CoreSwitchPoll, ProfileActivation,
    PROTOCOL,
};
use dsh_desktop::control::{admit_request, rejection, response_for, Admission, ControlRequest};

fn args(entries: &[(&str, ArgValue)]) -> ControlArgs {
    ControlArgs {
        entries: entries
            .iter()
            .map(|(k, v)| (k.to_string(), v.clone()))
            .collect(),
    }
}

#[test]
fn catalog_has_unique_versioned_operations() {
    let catalog = operation_catalog();
    let mut ids = catalog
        .iter()
        .map(|operation| operation.id)
        .collect::<Vec<_>>();
    ids.sort_unstable();
    ids.dedup();
    assert_eq!(ids.len(), catalog.len());
    assert!(PROTOCOL.ends_with("-v1"));
}

#[test]
fn numeric_arguments_are_bounded() {
    assert_eq!(arg_usize(&args(&[]), "iterations", 20, 1000).unwrap(), 20);
    assert!(arg_usize(&args(&[("iterations", ArgValue::Unsigned(0))]), "iterations", 20, 1000).is_err());
    assert!(
        arg_usize(&args(&[("iterations", ArgValue::Unsigned(1001))]), "iterations", 20, 1000)
            .is_err()
    );
}

#[test]
fn string_arguments_are_required_and_non_empty() {
    assert_eq!(
        required_string(&args(&[("id", ArgValue::Text("app-release".to_string()))]), "id").unwrap(),
        "app-release"
    );
    assert!(required_string(&args(&[]), "id").is_err());
    assert!(required_string(&args(&[("id", ArgValue::Text(String::new()))]), "id").is_err());
    assert!(required_string(&args(&[("id", ArgValue::Unsigned(1))]), "id").is_err());
}

#[test]
fn authentication_token_uses_256_bits_of_os_randomness() {
    let token = generated_token().unwrap();
    assert_eq!(token.len(), 64);
    assert!(token.bytes().all(|byte| byte.is_ascii_hexdigit()));
}

#[test]
fn argument_errors_name_the_key_and_bound() {
    assert_eq!(
        arg_usize(&args(&[("maxBytes", ArgValue::Unsigned(0))]), "maxBytes", 131072, 1048576),
        Err("CONTROL_INVALID_ARGUMENT: maxBytes must be between 1 and 1048576".to_string())
    );
    assert_eq!(
        arg_usize(&args(&[("n", ArgValue::Text("5".to_string()))]), "n", 7, 10),
        Ok(7)
    );
    assert_eq!(
        required_string(&args(&[]), "id"),
        Err("CONTROL_INVALID_ARGUMENT: id must be a non-empty string".to_string())
    );
}

#[test]
fn operations_route_by_identifier() {
    assert_eq!(parse_operation("core.activate"), Ok(ControlOperation::CoreActivate));
    assert_eq!(parse_operation("control.catalog"), Ok(ControlOperation::Catalog));
    assert_eq!(
        parse_operation("core.delete"),
        Err("CONTROL_UNKNOWN_OPERATION: core.delete".to_string())
    );
    assert!(is_mutating(ControlOperation::CoreActivate));
    assert!(!is_mutating(ControlOperation::CoreList));
    for op in operation_catalog().iter() {
        let parsed = parse_operation(op.id).unwrap();
        assert_eq!(is_mutating(parsed), op.mutating);
    }
}

#[test]
fn stress_plans_cap_concurrency_by_iterations() {
    assert_eq!(stress_plan(&args(&[])), Ok((20, 4)));
    assert_eq!(
        stress_plan(&args(&[
            ("iterations", ArgValue::Unsigned(3)),
            ("concurrency", ArgValue::Unsigned(64))
        ])),
        Ok((3, 3))
    );
    assert_eq!(
        stress_plan(&args(&[("concurrency", ArgValue::Unsigned(65))])),
        Err("CONTROL_INVALID_ARGUMENT: concurrency must be between 1 and 64".to_string())
    );
}

#[test]
fn stress_percentiles_come_from_sorted_durations() {
    let durations: Vec<u64> = (1..=100).rev().collect();
    let s = stress_summary(100, 4, &durations, 1);
    assert_eq!(s.successes, 99);
    assert_eq!(s.p50, 50);
    assert_eq!(s.p95, 95);
    assert_eq!(s.max, 100);
    let one = stress_summary(1, 1, &vec![7], 0);
    assert_eq!((one.p50, one.p95, one.max), (7, 7, 7));
}

#[test]
fn request_checks() {
    assert!(!request_too_large(1024 * 1024));
    assert!(request_too_large(1024 * 1024 + 1));
    assert_eq!(authorize("t", "t"), Ok(()));
    assert_eq!(authorize("x", "t"), Err("CONTROL_UNAUTHORIZED".to_string()));
    assert_eq!(trace_id_for(Some("abc".to_string()), 5), "abc");
    assert_eq!(trace_id_for(None, 1700000000123), "control-1700000000123");
    assert!(!trace_rotation_due(5 * 1024 * 1024));
    assert!(trace_rotation_due(5 * 1024 * 1024 + 1));
    assert_eq!(hex_token(&[0, 15, 255]), "000fff");
}

#[test]
fn unknown_profiles_are_refused() {
    let profiles = vec!["a".to_string(), "b".to_string()];
    assert_eq!(check_profile_exists(&profiles, "b"), Ok(()));
    assert_eq!(
        check_profile_exists(&profiles, "c"),
        Err("PROFILE_NOT_FOUND: profile c does not exist".to_string())
    );
}

#[test]
fn profile_switch_rolls_back_a_failed_start() {
    let (a, step) = ProfileActivation::begin(true);
    assert!(matches!(step, ActivationStep::StopHarness));
    let (a, step) = a.advance(Ok(()));
    assert!(matches!(step, ActivationStep::SelectProfile));
    let (a, step) = a.advance(Ok(()));
    assert!(matches!(step, ActivationStep::StartHarness));
    let (a, step) = a.advance(Err("boom".to_string()));
    assert!(matches!(step, ActivationStep::RestoreProfile));
    let (a, step) = a.advance(Ok(()));
    assert!(matches!(step, ActivationStep::StartHarness));
    let (a, step) = a.advance(Err("again".to_string()));
    match step {
        ActivationStep::Finish(Err(m)) => assert_eq!(
            m,
            "PROFILE_ACTIVATE_START: boom; rollback=Ok(()); restart=Err(\"again\")"
        ),
        other => panic!("unexpected step {other:?}"),
    }
    assert!(matches!(a.phase, ActivationPhase::Finished));
}

#[test]
fn profile_switch_without_running_harness() {
    let (a, step) = ProfileActivation::begin(false);
    assert!(matches!(step, ActivationStep::SelectProfile));
    let (a, step) = a.advance(Ok(()));
    assert!(matches!(step, ActivationStep::StartHarness));
    let (_, step) = a.advance(Ok(()));
    assert!(matches!(step, ActivationStep::Finish(Ok(()))));
    let (a, _) = ProfileActivation::begin(false);
    let (_, step) = a.advance(Err("bad".to_string()));
    assert!(matches!(step, ActivationStep::Finish(Err(ref m)) if m == "bad"));
}

#[test]
fn core_switch_waits_until_the_deadline() {
    assert!(matches!(core_switch_poll(Ok(()), false), CoreSwitchPoll::Ready));
    assert!(matches!(core_switch_poll(Err("x".to_string()), true), CoreSwitchPoll::Retry));
    match core_switch_poll(Err("down".to_string()), false) {
        CoreSwitchPoll::Fail(m) => assert_eq!(m, "CORE_SWITCH_RUNTIME_NOT_READY: down"),
        other => panic!("unexpected {other:?}"),
    }
}

#[test]
fn responses_carry_results_or_errors() {
    let ok = response_for("t1".to_string(), Ok::<u32, String>(7), 12);
    assert!(ok.ok);
    assert_eq!(ok.result, Some(7));
    assert_eq!(ok.error, None);
    assert_eq!(ok.duration_ms, 12);
    let failed = response_for::<u32>("t2".to_string(), Err("CONTROL_UNAUTHORIZED".to_string()), 3);
    assert!(!failed.ok);
    assert_eq!(failed.result, None);
    assert_eq!(failed.error.as_deref(), Some("CONTROL_UNAUTHORIZED"));
    let rejected = rejection::<u32>("CONTROL_REQUEST_TOO_LARGE".to_string(), 1234);
    assert_eq!(rejected.trace_id, "control-1234");
    assert!(!rejected.ok);
    assert_eq!(rejected.duration_ms, 0);
    assert_eq!(rejected.error.as_deref(), Some("CONTROL_REQUEST_TOO_LARGE"));
}

fn request(token: &str, trace_id: Option<&str>) -> ControlRequest {
    ControlRequest {
        token: token.to_string(),
        operation: "core.list".to_string(),
        args: ControlArgs { entries: Vec::new() },
        trace_id: trace_id.map(str::to_string),
    }
}

fn refused_error(a: Admission<()>) -> String {
    match a {
        Admission::Refused(r) => {
            assert!(!r.ok);
            assert_eq!(r.trace_id, "control-9");
            r.error.unwrap()
        }
        other => panic!("unexpected {other:?}"),
    }
}

#[test]
fn requests_are_refused_in_protocol_order() {
    let good = || Ok(request("secret", Some("t-1")));
    assert_eq!(
        refused_error(admit_request(Err("reset".to_string()), good(), "secret", 9)),
        "CONTROL_REQUEST_READ: reset"
    );
    assert_eq!(
        refused_error(admit_request(Ok(1024 * 1024 + 1), good(), "secret", 9)),
        "CONTROL_REQUEST_TOO_LARGE"
    );
    assert!(matches!(admit_request::<()>(Ok(0), good(), "secret", 9), Admission::Silent));
    assert_eq!(
        refused_error(admit_request(Ok(10), Err("eof".to_string()), "secret", 9)),
        "CONTROL_REQUEST_PARSE: eof"
    );
    match admit_request::<()>(Ok(10), Ok(request("wrong", None)), "secret", 9) {
        Admission::Denied { trace_id, operation } => {
            assert_eq!(trace_id, "control-9");
            assert_eq!(operation, "core.list");
        }
        other => panic!("unexpected {other:?}"),
    }
    match admit_request::<()>(Ok(10), good(), "secret", 9) {
        Admission::Admitted { trace_id, request } => {
            assert_eq!(trace_id, "t-1");
            assert_eq!(request.operation, "core.list");
        }
        other => panic!("unexpected {other:?}"),
    }
}
