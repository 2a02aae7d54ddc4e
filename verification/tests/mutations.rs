//! Validation and argument construction of the mutation operations.

use tuxtuner::command::{
    apply_cpu_threads, apply_gpu_mode, apply_refresh_rate, invocation_outcome, TunerError,
    HELPER_PATH,
};
use tuxtuner::validate::{
    validate_gpu_mode, validate_monitor_name, validate_refresh_rate, validate_session_id,
};

#[test]
fn gpu_mode_validator_is_exact() {
    for good in ["Integrated", "Hybrid", "Dedicated", "Compute", "VFIO"] {
        assert!(validate_gpu_mode(good));
    }
    for bad in ["", "integrated", "HYBRID", "Hybrid ", "Ultimate", "VFI0"] {
        assert!(!validate_gpu_mode(bad));
    }
}

#[test]
fn monitor_name_validator_is_exact() {
    for good in ["DP-1", "eDP-1", "HDMI_A_2", "0"] {
        assert!(validate_monitor_name(good));
    }
    for bad in ["", "DP 1", "DP-1;rm", "a/b", "$DP", "dp\n"] {
        assert!(!validate_monitor_name(bad));
    }
}

#[test]
fn session_id_validator_is_exact() {
    assert!(validate_session_id("3"));
    assert!(validate_session_id("0042"));
    assert!(!validate_session_id(""));
    assert!(!validate_session_id("abc"));
    assert!(!validate_session_id("3a"));
    assert!(!validate_session_id("-3"));
}

#[test]
fn refresh_rate_validator_is_exact() {
    assert!(validate_refresh_rate(30));
    assert!(validate_refresh_rate(500));
    assert!(!validate_refresh_rate(29));
    assert!(!validate_refresh_rate(501));
    assert!(!validate_refresh_rate(0));
}

#[test]
fn cpu_threads_plan() {
    let plan = apply_cpu_threads(8);
    assert_eq!(plan.program, "pkexec");
    assert_eq!(plan.args, vec![HELPER_PATH.to_string(), "cpu".to_string(), "8".to_string()]);
}

#[test]
fn gpu_mode_rejects_unknown_mode() {
    // Rejection yields no plan at all, so no process can be spawned.
    let r = apply_gpu_mode("Ultimate", false, None);
    match r {
        Err(TunerError::InvalidGpuMode(m)) => assert_eq!(m, "Ultimate"),
        _ => panic!("expected a validation failure"),
    }
    let msg = apply_gpu_mode("integrated", true, Some("3")).unwrap_err().message();
    assert_eq!(msg, "Invalid GPU mode: integrated");
}

#[test]
fn gpu_mode_plan_without_logout() {
    let plan = apply_gpu_mode("Hybrid", false, Some("3")).unwrap();
    assert_eq!(plan.program, "pkexec");
    assert_eq!(
        plan.args,
        vec![HELPER_PATH.to_string(), "gpu".to_string(), "Hybrid".to_string()]
    );
}

#[test]
fn gpu_mode_plan_appends_valid_session() {
    let plan = apply_gpu_mode("Dedicated", true, Some("7")).unwrap();
    assert_eq!(
        plan.args,
        vec![
            HELPER_PATH.to_string(),
            "gpu".to_string(),
            "Dedicated".to_string(),
            "--logout".to_string(),
            "7".to_string(),
        ]
    );
}

#[test]
fn gpu_mode_never_appends_non_digit_session() {
    // A session id of "abc" must never ride along on --logout.
    let plan = apply_gpu_mode("Hybrid", true, Some("abc")).unwrap();
    assert_eq!(
        plan.args,
        vec![HELPER_PATH.to_string(), "gpu".to_string(), "Hybrid".to_string()]
    );
    let plan = apply_gpu_mode("Hybrid", true, None).unwrap();
    assert_eq!(plan.args.len(), 3);
}

#[test]
fn refresh_rate_rejects_bad_monitor() {
    for bad in ["", "DP 1", "DP-1;x"] {
        let r = apply_refresh_rate(bad, 60);
        assert!(matches!(r, Err(TunerError::InvalidMonitorName)));
    }
    assert_eq!(
        apply_refresh_rate("", 60).unwrap_err().message(),
        "Invalid monitor name"
    );
}

#[test]
fn refresh_rate_rejects_out_of_range() {
    // Out of range fails whatever the monitor's validity.
    let r = apply_refresh_rate("DP-1", 29);
    assert!(matches!(r, Err(TunerError::RefreshRateOutOfRange)));
    let r = apply_refresh_rate("DP-1", 501);
    assert!(matches!(r, Err(TunerError::RefreshRateOutOfRange)));
    assert_eq!(
        apply_refresh_rate("DP-1", 1000).unwrap_err().message(),
        "Refresh rate out of valid range"
    );
    // An invalid monitor name is reported first.
    let r = apply_refresh_rate("DP 1", 29);
    assert!(matches!(r, Err(TunerError::InvalidMonitorName)));
}

#[test]
fn refresh_rate_plan() {
    let plan = apply_refresh_rate("DP-1", 144).unwrap();
    assert_eq!(plan.program, "hyprctl");
    assert_eq!(
        plan.args,
        vec![
            "keyword".to_string(),
            "monitor".to_string(),
            "DP-1,preferred@144,auto,1".to_string(),
        ]
    );
}

#[test]
fn invocation_outcome_maps_status() {
    assert_eq!(invocation_outcome(true, String::new()), Ok(()));
    assert_eq!(
        invocation_outcome(false, "helper: permission denied".to_string()),
        Err("helper: permission denied".to_string())
    );
}
