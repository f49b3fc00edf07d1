use kiss_daemon::config::{AllowlistConfig, AppConfig};
use kiss_daemon::engine::detector::{
    afk_violation, check_virtual_inputs, check_x11_sockets, run_checks, Directive,
    DetectorEngine, ExemptionKind,
};
use kiss_daemon::engine::fallback::{EngineOperatingMode, FallbackManager};
use kiss_daemon::engine::heartbeat::{BackgroundActivity, HeartbeatEngine};
use kiss_daemon::platform::{InputDeviceInfo, InputEvent, InputSource, PermissionStatus};

fn strings(items: &[&str]) -> Vec<String> {
    items.iter().map(|s| s.to_string()).collect()
}

fn config(displays: &[&str], drivers: &[&str], processes: &[&str]) -> AppConfig {
    AppConfig {
        allowlist: AllowlistConfig {
            allowed_x11_displays: strings(displays),
            allowed_virtual_drivers: strings(drivers),
            allowed_processes: strings(processes),
        },
    }
}

fn device(name: &str, is_virtual: bool) -> InputDeviceInfo {
    InputDeviceInfo {
        name: name.to_string(),
        vendor_id: None,
        product_id: None,
        bus_type: "0003".to_string(),
        is_virtual,
    }
}

fn activity(pid: u32, name: &str, fb: bool, sock: bool, at: u64) -> BackgroundActivity {
    BackgroundActivity {
        pid,
        process_name: name.to_string(),
        has_framebuffer_capture: fb,
        has_outbound_socket: sock,
        timestamp: at,
    }
}

#[test]
fn idle_time_counts_from_the_last_physical_input() {
    let mut h = HeartbeatEngine::new(15, 10_000);
    assert_eq!(h.get_idle_duration(12_500), 2_500);
    assert_eq!(h.idle_secs(12_500), 2);
    assert_eq!(h.get_idle_duration(9_000), 0);
    h.record_physical_input(20_000);
    assert_eq!(h.get_idle_duration(20_000), 0);
    h.simulate_idle_seconds(20, 100_000);
    assert_eq!(h.idle_secs(100_000), 20);
    h.simulate_idle_seconds(200, 100_000);
    assert_eq!(h.get_idle_duration(100_000), 0);
    h.simulate_idle_seconds(u64::MAX, 100_000);
    assert_eq!(h.get_idle_duration(100_000), 0);
}

#[test]
fn heartbeat_flags_suspicious_activity_only_while_idle() {
    let mut h = HeartbeatEngine::new(15, 0);
    h.record_background_activity(activity(7, "scraper", true, false, 10_000), 10_000);
    h.record_background_activity(activity(8, "editor", false, false, 11_000), 11_000);
    h.record_background_activity(activity(9, "uploader", false, true, 12_000), 12_000);
    assert!(h.evaluate_delta(14_999).is_empty());
    let reports = h.evaluate_delta(15_000);
    assert_eq!(reports.len(), 2);
    assert_eq!(reports[0].target_pid, 7);
    assert_eq!(reports[1].target_pid, 9);
    assert!(reports[0].is_violation);
    assert_eq!(reports[0].idle_duration_secs, 15);
    assert_eq!(
        reports[0].flag_reason,
        "Physical input zero for 15s (>=15s), but target PID 7 (scraper) executed active framebuffer capture/outbound socket"
    );
    h.record_physical_input(15_000);
    assert!(h.evaluate_delta(15_000).is_empty());
}

#[test]
fn heartbeat_window_keeps_one_minute() {
    let mut h = HeartbeatEngine::new(0, 0);
    h.record_background_activity(activity(1, "a", true, false, 0), 0);
    h.record_background_activity(activity(2, "b", true, false, 30_000), 30_000);
    h.record_background_activity(activity(3, "c", true, false, 60_000), 60_000);
    assert_eq!(h.evaluate_delta(60_000).len(), 3);
    h.record_background_activity(activity(4, "d", true, false, 60_001), 60_001);
    let pids: Vec<u32> = h.evaluate_delta(60_001).iter().map(|r| r.target_pid).collect();
    assert_eq!(pids, vec![2, 3, 4]);
    h.record_background_activity(activity(5, "e", true, false, 500_000), 100_000);
    let pids: Vec<u32> = h.evaluate_delta(100_000).iter().map(|r| r.target_pid).collect();
    assert_eq!(pids, vec![3, 4, 5]);
}

#[test]
fn physical_input_is_never_a_violation() {
    let mut d = DetectorEngine::new(15, None, false, 0);
    d.set_test_mode(true);
    let event = InputEvent {
        source: InputSource::PhysicalHardware,
        pid: Some(1),
        device_name: None,
        timestamp: 100_000,
    };
    assert!(d.process_input_event(&event, 100_000).is_none());
    assert_eq!(d.heartbeat.get_idle_duration(100_000), 0);
    assert!(!d.is_isolation_triggered());
    assert!(d.take_directives().is_empty());
}

#[test]
fn synthetic_input_needs_fifteen_idle_seconds_outside_test_mode() {
    let mut d = DetectorEngine::new(15, None, false, 0);
    let event = InputEvent {
        source: InputSource::SyntheticSoftware,
        pid: None,
        device_name: None,
        timestamp: 0,
    };
    assert!(d.process_input_event(&event, 14_999).is_none());
    let report = d.process_input_event(&event, 15_000).unwrap();
    assert_eq!(report.description, "Synthetic input detected while physical hardware idle for 15s");
    assert_eq!(report.event_flags, vec!["SYNTHETIC_INPUT_DURING_IDLE", "INJECTED_HOOK_FLAG"]);
    assert_eq!(report.timestamp, 15_000);
    let directives = d.take_directives();
    assert_eq!(directives.len(), 1);
    match &directives[0] {
        Directive::Isolate(r, cut) => {
            assert_eq!(r, &report);
            assert!(*cut);
        }
        _ => panic!("expected an isolation"),
    }
    assert!(d.take_directives().is_empty());
    d.reset_isolation_state();
    assert!(!d.is_isolation_triggered());
}

#[test]
fn test_mode_never_cuts_the_network() {
    let mut d = DetectorEngine::new(15, None, false, 0);
    d.set_test_mode(true);
    let event = InputEvent {
        source: InputSource::SyntheticSoftware,
        pid: Some(5),
        device_name: Some("x".into()),
        timestamp: 0,
    };
    assert!(d.process_input_event(&event, 1).is_some());
    match &d.take_directives()[0] {
        Directive::Isolate(_, cut) => assert!(!*cut),
        _ => panic!("expected an isolation"),
    }
}

#[test]
fn test_mode_never_cuts_along_a_sequence_of_calls() {
    let c = config(&[], &[], &[]);
    let mut d = DetectorEngine::with_config(15, c.clone(), 0);
    d.set_test_mode(true);
    d.heartbeat.simulate_idle_seconds(20, 30_000);
    let mut handed = Vec::new();
    d.check_x11_sockets(&c, &strings(&["X5", "X6"]), false, 30_000);
    handed.extend(d.take_directives());
    d.register_background_activity(activity(7, "grabber", true, false, 30_000), 30_000);
    d.run_checks(&c, &strings(&["Virtual Desktop Process: Xvfb :3"]), &vec![device("uinput", true)], false, 30_000);
    d.reset_isolation_state();
    d.set_test_mode(true);
    handed.extend(d.take_directives());
    let isolations: Vec<bool> = handed
        .iter()
        .filter_map(|x| match x {
            Directive::Isolate(_, cut) => Some(*cut),
            _ => None,
        })
        .collect();
    assert!(isolations.len() >= 5);
    assert!(isolations.iter().all(|cut| !cut));
    assert!(d.test_mode);
}

#[test]
fn allowlisted_activity_is_logged_not_isolated() {
    let mut d = DetectorEngine::with_config(15, config(&[], &[], &["obs"]), 0);
    d.heartbeat.simulate_idle_seconds(20, 100_000);
    let r = d.register_background_activity(activity(3, "obs", true, true, 100_000), 100_000);
    assert!(r.is_none());
    assert!(!d.is_isolation_triggered());
    let directives = d.take_directives();
    assert_eq!(directives.len(), 1);
    match &directives[0] {
        Directive::Exempted(kind, name) => {
            assert_eq!(*kind, ExemptionKind::Process);
            assert_eq!(name, "obs");
        }
        _ => panic!("expected an exemption"),
    }
}

#[test]
fn background_activity_while_present_is_not_flagged() {
    let mut d = DetectorEngine::new(15, None, false, 100_000);
    let r = d.register_background_activity(activity(3, "obs", true, true, 100_000), 100_000);
    assert!(r.is_none());
    assert!(!d.is_isolation_triggered());
}

#[test]
fn x11_socket_audit_flags_high_indices() {
    let c = config(&[":5"], &[], &[]);
    let sockets = strings(&["X0", "X1", "X2", "X3", "X5", "junk", " X9 ", ":12"]);
    let mut log = Vec::new();
    let r = check_x11_sockets(&c, &sockets, false, 7, &mut log);
    let ids: Vec<&str> = r.iter().map(|t| t.desktop_identifier.as_deref().unwrap()).collect();
    assert_eq!(ids, vec!["X3", " X9 ", ":12"]);
    assert_eq!(
        r[0].description,
        "Non-standard hidden desktop session detected: Secondary X11 socket display index detected: X3"
    );
    assert_eq!(r[0].event_flags, vec!["HIDDEN_DESKTOP_DETECTED", "HVNC_SESSION_FLAG"]);
    assert_eq!(r[0].timestamp, 7);
    assert_eq!(log.len(), 1);
    match &log[0] {
        Directive::Exempted(kind, name) => {
            assert_eq!(*kind, ExemptionKind::Display);
            assert_eq!(name, "X5");
        }
        _ => panic!("expected an exemption"),
    }
}

#[test]
fn x11_socket_allowlist_accepts_every_written_form() {
    for entry in ["X20", ":20", "20"] {
        let c = config(&[entry], &[], &[]);
        let mut log = Vec::new();
        let r = check_x11_sockets(&c, &strings(&["X20", ":20", "20"]), false, 1, &mut log);
        assert!(r.is_empty(), "allowlist entry {} must exempt display 20", entry);
        assert_eq!(log.len(), 3);
        for d in &log {
            match d {
                Directive::Exempted(kind, name) => {
                    assert_eq!(*kind, ExemptionKind::Display);
                    assert_eq!(name, "X20");
                }
                _ => panic!("expected an exemption"),
            }
        }
    }
}

#[test]
fn virtual_input_audit_flags_unlisted_virtual_drivers() {
    let c = config(&[], &["VirtualPS/2 VMware VMMouse"], &[]);
    let devices = vec![
        device("Logitech USB Receiver", false),
        device("VirtualPS/2 VMware VMMouse", true),
        device("ydotoold virtual device", true),
    ];
    let mut log = Vec::new();
    let r = check_virtual_inputs(&c, &devices, 3, &mut log);
    assert_eq!(r.len(), 1);
    assert_eq!(
        r[0].description,
        "Virtual software input driver 'ydotoold virtual device' active while hardware user idle"
    );
    assert_eq!(log.len(), 1);
    let both = run_checks(&c, &strings(&["X4"]), &devices, false, 3, &mut log);
    assert_eq!(both.len(), 2);
    assert_eq!(both[0].desktop_identifier.as_deref(), Some("X4"));
}

#[test]
fn engine_audits_isolate_each_violation() {
    let mut d = DetectorEngine::new(15, None, false, 0);
    let c = config(&[], &[], &[]);
    let r = d.check_x11_sockets(&c, &strings(&["X3", "X4"]), false, 1);
    assert_eq!(r.len(), 2);
    assert!(d.is_isolation_triggered());
    assert_eq!(d.take_directives().len(), 2);
    let devices = vec![device("uinput", true)];
    assert_eq!(d.check_virtual_input_drivers(&c, &devices, 1).len(), 1);
}

#[test]
fn sensor_audit_applies_every_rule_in_order() {
    let c = config(
        &["X7"],
        &["VMware Virtual Mouse"],
        &["/usr/bin/x11vnc"],
    );
    let mut d = DetectorEngine::with_config(15, c, 0);
    d.set_test_mode(true);
    d.heartbeat.record_background_activity(activity(77, "grabber", true, false, 30_000), 30_000);
    let desktops = strings(&[
        "Secondary X11 socket display index detected: X7",
        "Secondary X11 socket display index detected: X8",
        "Virtual Desktop Process: /usr/bin/x11vnc -display :0 ",
        "Active VNC listening port detected: 5900",
    ]);
    let devices = vec![device("VMware Virtual Mouse", true), device("uinput-bad", true)];
    let r = d.run_sensor_audit(&desktops, &devices, false, 30_000);
    let descriptions: Vec<&str> = r.iter().map(|x| x.description.as_str()).collect();
    assert_eq!(
        descriptions,
        vec![
            "Non-standard hidden desktop session detected: Secondary X11 socket display index detected: X8",
            "Non-standard hidden desktop session detected: Active VNC listening port detected: 5900",
            "Virtual software input driver 'uinput-bad' active while hardware user idle",
            "Physical input zero for 30s (>=15s), but target PID 77 (grabber) executed active framebuffer capture/outbound socket",
        ]
    );
    assert_eq!(r[3].target_pid, Some(77));
    assert_eq!(r[3].event_flags, vec!["HEARTBEAT_DELTA_VIOLATION", "BACKGROUND_SCRAPE_OR_SOCKET_WHILE_IDLE"]);
    let directives = d.take_directives();
    assert_eq!(directives.len(), 7);
    let exempted: Vec<String> = directives
        .iter()
        .filter_map(|x| match x {
            Directive::Exempted(_, n) => Some(n.clone()),
            _ => None,
        })
        .collect();
    assert_eq!(exempted, vec!["X7", "/usr/bin/x11vnc", "VMware Virtual Mouse"]);
    assert_eq!(d.config.allowlist.allowed_x11_displays, vec!["X7"]);
    let again = d.run_checks(&config(&[], &[], &[]), &strings(&["X0"]), &Vec::new(), false, 30_000);
    assert_eq!(again.len(), 2);
}

#[test]
fn sensor_audit_skips_devices_while_user_present() {
    let mut d = DetectorEngine::new(15, None, false, 0);
    let devices = vec![device("uinput", true)];
    assert!(d.run_sensor_audit(&Vec::new(), &devices, false, 14_000).is_empty());
    assert!(!d.is_isolation_triggered());
}

#[test]
fn crostini_desktops_are_exempt_in_the_audit() {
    let mut d = DetectorEngine::new(15, None, true, 0);
    let desktops = strings(&["X20", "Secondary X11 socket display index detected: X1 "]);
    assert!(d.run_sensor_audit(&desktops, &Vec::new(), true, 0).is_empty());
    assert_eq!(d.config.allowlist.allowed_x11_displays, vec!["X1", ":1", "X20", ":20"]);
}

#[test]
fn fallback_follows_permissions_unless_forced() {
    let mut f = FallbackManager::new();
    let granted = PermissionStatus {
        hooks_available: true,
        elevation_granted: true,
        message: "granted".into(),
    };
    let denied = PermissionStatus {
        hooks_available: false,
        elevation_granted: false,
        message: "denied".into(),
    };
    assert!(!f.is_fallback_active(true));
    assert!(f.is_fallback_active(false));
    let (m, p) = f.determine_operating_mode(granted.clone());
    assert_eq!(m, EngineOperatingMode::ActiveLowLevelHooks);
    assert_eq!(p.message, "granted");
    let (m, p) = f.determine_operating_mode(denied);
    assert_eq!(m, EngineOperatingMode::HeartbeatDeltaFallback);
    assert_eq!(p.message, "denied");
    f.force_fallback(true);
    assert!(f.is_fallback_forced());
    assert!(f.is_fallback_active(true));
    let (m, p) = f.determine_operating_mode(granted);
    assert_eq!(m, EngineOperatingMode::HeartbeatDeltaFallback);
    assert!(!p.hooks_available);
    assert!(p.elevation_granted);
    f.force_fallback(false);
    assert!(!f.is_fallback_active(true));
}

#[test]
fn afk_guard_catches_input_while_heartbeat_idle() {
    assert!(afk_violation(3, 5));
    assert!(!afk_violation(4, 5));
    assert!(!afk_violation(0, 4));
}

#[test]
fn isolation_stays_triggered_until_reset() {
    let c = config(&[], &[], &[]);
    let mut d = DetectorEngine::with_config(15, c.clone(), 0);
    assert!(!d.is_isolation_triggered());
    let found = d.check_x11_sockets(&c, &strings(&["X7"]), false, 1);
    assert_eq!(found.len(), 1);
    assert!(d.is_isolation_triggered());
    // Calls that report nothing leave the flag raised.
    let physical = InputEvent {
        source: InputSource::PhysicalHardware,
        pid: None,
        device_name: None,
        timestamp: 2,
    };
    assert!(d.process_input_event(&physical, 2).is_none());
    assert!(d.check_x11_sockets(&c, &strings(&["X0"]), false, 3).is_empty());
    let _ = d.take_directives();
    assert!(d.is_isolation_triggered());
    // A reset lowers it, and only a new violation raises it again.
    d.reset_isolation_state();
    assert!(!d.is_isolation_triggered());
    assert!(d.check_x11_sockets(&c, &strings(&["X1"]), false, 4).is_empty());
    assert!(!d.is_isolation_triggered());
    d.set_test_mode(true);
    let synthetic = InputEvent {
        source: InputSource::SyntheticSoftware,
        pid: Some(9),
        device_name: None,
        timestamp: 5,
    };
    assert!(d.process_input_event(&synthetic, 5).is_some());
    assert!(d.is_isolation_triggered());
}
