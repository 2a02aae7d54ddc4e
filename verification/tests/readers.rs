//! Snapshot and reader behavior on concrete observations.

use tuxtuner::cpu::{cpu_counts, cpu_entry_index, CpuEntry};
use tuxtuner::display::{display_info, mode_rate, parse_rate, MonitorInfo};
use tuxtuner::gpu::gpu_info;
use tuxtuner::snapshot::{SystemInfo, SystemProbe};
use tuxtuner::text::{trim, u64_to_string};

fn entry(name: &str, online: Option<&str>) -> CpuEntry {
    CpuEntry { name: name.to_string(), online: online.map(|s| s.to_string()) }
}

#[test]
fn cpu_topology_counts() {
    // cpu0: indicator absent, implicitly online; cpu1 online; cpu2 offline;
    // cpu3: indicator unreadable, counts offline since it is not index 0.
    let entries = vec![
        entry("cpu0", None),
        entry("cpu1", Some("1\n")),
        entry("cpu2", Some("0\n")),
        entry("cpu3", None),
    ];
    let (total, online) = cpu_counts(&entries);
    assert_eq!(total, 4);
    assert_eq!(online, 2);
}

#[test]
fn cpu_non_qualifying_entries_ignored() {
    let entries = vec![
        entry("cpu0", None),
        entry("cpufreq", None),
        entry("cpuidle", None),
        entry("online", Some("1")),
        entry("cpu", Some("1")),
        entry("cpu1x", Some("1")),
    ];
    let (total, online) = cpu_counts(&entries);
    assert_eq!(total, 1);
    assert_eq!(online, 1);
}

#[test]
fn cpu_missing_topology_falls_back() {
    let (total, online) = cpu_counts(&Vec::new());
    assert_eq!(total, 16);
    assert_eq!(online, 16);
    let entries = vec![entry("thermal", None)];
    let (total, online) = cpu_counts(&entries);
    assert_eq!(total, 16);
    assert_eq!(online, 16);
}

#[test]
fn cpu_entry_index_parses() {
    assert_eq!(cpu_entry_index("cpu0"), Some(0));
    assert_eq!(cpu_entry_index("cpu12"), Some(12));
    assert_eq!(cpu_entry_index("cpu"), None);
    assert_eq!(cpu_entry_index("cpux"), None);
    assert_eq!(cpu_entry_index("cpu1x"), None);
    assert_eq!(cpu_entry_index("Cpu1"), None);
    assert_eq!(cpu_entry_index("cpu99999999999"), None);
    assert_eq!(cpu_entry_index("cpu007"), Some(7));
}

#[test]
fn gpu_list_and_get() {
    let (mode, supported) = gpu_info(Some("[Integrated, Hybrid]\n"), Some("Hybrid\n"));
    assert_eq!(supported, vec!["Integrated".to_string(), "Hybrid".to_string()]);
    assert_eq!(mode, "Hybrid");
}

#[test]
fn gpu_list_failing_forces_unavailable() {
    let (mode, supported) = gpu_info(None, Some("Hybrid\n"));
    assert_eq!(mode, "Unavailable");
    assert!(supported.is_empty());
}

#[test]
fn gpu_get_failing_defaults_to_integrated() {
    let (mode, supported) = gpu_info(Some("[Integrated, Hybrid, Dedicated]"), None);
    assert_eq!(mode, "Integrated");
    assert_eq!(
        supported,
        vec!["Integrated".to_string(), "Hybrid".to_string(), "Dedicated".to_string()]
    );
}

#[test]
fn gpu_list_yielding_nothing_forces_unavailable() {
    // A list that names no mode at all is as unusable as a missing tool.
    for empty_list in ["[]", "", "   \n", "[ ]"] {
        let (mode, supported) = gpu_info(Some(empty_list), Some("Hybrid\n"));
        assert_eq!(mode, "Unavailable");
        assert!(supported.is_empty());
    }
}

#[test]
fn gpu_unknown_get_output_degrades_to_integrated() {
    // An unexpected string from the get tool never leaks into the mode.
    let (mode, supported) = gpu_info(Some("[Integrated, Hybrid]"), Some("Egpu\n"));
    assert_eq!(mode, "Integrated");
    assert_eq!(supported, vec!["Integrated".to_string(), "Hybrid".to_string()]);
}

#[test]
fn parse_rate_millihertz() {
    assert_eq!(parse_rate("60.00"), Some(60_000));
    assert_eq!(parse_rate("59.94"), Some(59_940));
    assert_eq!(parse_rate("144"), Some(144_000));
    assert_eq!(parse_rate("0.5"), Some(500));
    assert_eq!(parse_rate(""), None);
    assert_eq!(parse_rate("."), None);
    assert_eq!(parse_rate("6o"), None);
    assert_eq!(parse_rate("-60"), None);
}

#[test]
fn mode_rate_reads_at_segment() {
    assert_eq!(mode_rate("1920x1080@60.00Hz"), Some(60_000));
    assert_eq!(mode_rate("1920x1080@144.00Hz"), Some(144_000));
    assert_eq!(mode_rate("1920x1080"), None);
    assert_eq!(mode_rate("1920x1080@"), None);
}

fn monitor(name: &str, hz: u32, modes: &[&str]) -> MonitorInfo {
    MonitorInfo {
        name: name.to_string(),
        refresh_hz: hz,
        available_modes: modes.iter().map(|m| m.to_string()).collect(),
    }
}

#[test]
fn display_merges_and_marks_native() {
    // The two ~60 Hz modes merge within the 0.5 Hz tolerance; the highest
    // rate becomes the native one and alone carries the marker.
    let monitors = vec![monitor(
        "DP-1",
        144,
        &["1920x1080@60.00Hz", "1920x1080@59.94Hz", "1920x1080@144.00Hz"],
    )];
    let d = display_info(&monitors);
    assert_eq!(d.monitor_name, "DP-1");
    assert_eq!(d.current_hz, "144Hz");
    assert_eq!(d.native_hz, "144Hz");
    assert_eq!(d.refresh_rates, vec!["60Hz".to_string(), "144Hz (Native)".to_string()]);
}

#[test]
fn display_skips_malformed_modes() {
    let monitors = vec![monitor("eDP-1", 60, &["garbage", "1920x1080@60.00Hz"])];
    let d = display_info(&monitors);
    assert_eq!(d.refresh_rates, vec!["60Hz (Native)".to_string()]);
    assert_eq!(d.native_hz, "60Hz");
}

#[test]
fn display_merge_keeps_first_encountered_rate() {
    // Of two rates within the tolerance, the first one seen stays; the
    // later one is merged into it, not the other way round.
    let monitors = vec![monitor("DP-1", 59, &["1920x1080@59.94Hz", "1920x1080@60.00Hz"])];
    let d = display_info(&monitors);
    assert_eq!(d.refresh_rates, vec!["59Hz (Native)".to_string()]);
    assert_eq!(d.native_hz, "59Hz");
}

#[test]
fn display_without_monitor_is_empty() {
    let d = display_info(&Vec::new());
    assert!(d.refresh_rates.is_empty());
    assert_eq!(d.current_hz, "");
    assert_eq!(d.native_hz, "");
    assert_eq!(d.monitor_name, "");
}

#[test]
fn display_nameless_monitor_counts_as_undetected() {
    // A descriptor without a name is degenerate tool output: no display
    // fields are reported for it.
    let monitors = vec![monitor("", 60, &["1920x1080@60.00Hz"])];
    let d = display_info(&monitors);
    assert!(d.refresh_rates.is_empty());
    assert_eq!(d.current_hz, "");
    assert_eq!(d.native_hz, "");
    assert_eq!(d.monitor_name, "");
}

#[test]
fn display_uses_first_monitor_only() {
    let monitors = vec![
        monitor("DP-1", 75, &["1280x1024@75.00Hz"]),
        monitor("DP-2", 60, &["1920x1080@60.00Hz"]),
    ];
    let d = display_info(&monitors);
    assert_eq!(d.monitor_name, "DP-1");
    assert_eq!(d.refresh_rates, vec!["75Hz (Native)".to_string()]);
}

fn sample_probe() -> SystemProbe {
    SystemProbe {
        cpu_entries: vec![entry("cpu0", None), entry("cpu1", Some("1"))],
        gpu_list: Some("[Integrated, Hybrid]".to_string()),
        gpu_get: Some("Hybrid".to_string()),
        monitors: vec![monitor("DP-1", 144, &["1920x1080@60.00Hz", "1920x1080@144.00Hz"])],
    }
}

#[test]
fn fetch_composes_all_readers() {
    let info = SystemInfo::fetch(&sample_probe());
    assert_eq!(info.total_cpus, 2);
    assert_eq!(info.online_cpus, 2);
    assert_eq!(info.gpu_mode, "Hybrid");
    assert_eq!(info.supported_gpu_modes, vec!["Integrated".to_string(), "Hybrid".to_string()]);
    assert_eq!(info.refresh_rates, vec!["60Hz".to_string(), "144Hz (Native)".to_string()]);
    assert_eq!(info.current_hz, "144Hz");
    assert_eq!(info.native_hz, "144Hz");
    assert_eq!(info.monitor_name, "DP-1");
}

#[test]
fn fetch_twice_yields_equal_snapshots() {
    // Idempotence: no intervening system change means equal observations,
    // and equal observations give snapshots equal in all fields.
    let a = SystemInfo::fetch(&sample_probe());
    let b = SystemInfo::fetch(&sample_probe());
    assert_eq!(a.total_cpus, b.total_cpus);
    assert_eq!(a.online_cpus, b.online_cpus);
    assert_eq!(a.gpu_mode, b.gpu_mode);
    assert_eq!(a.supported_gpu_modes, b.supported_gpu_modes);
    assert_eq!(a.refresh_rates, b.refresh_rates);
    assert_eq!(a.current_hz, b.current_hz);
    assert_eq!(a.native_hz, b.native_hz);
    assert_eq!(a.monitor_name, b.monitor_name);
}

#[test]
fn trim_removes_surrounding_whitespace() {
    assert_eq!(trim("  x \n"), "x");
    assert_eq!(trim("1\n"), "1");
    assert_eq!(trim("   "), "");
    assert_eq!(trim("a b"), "a b");
}

#[test]
fn number_formatting() {
    assert_eq!(u64_to_string(0), "0");
    assert_eq!(u64_to_string(144), "144");
    assert_eq!(u64_to_string(1006), "1006");
}
