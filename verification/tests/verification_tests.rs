use kiss_daemon::config::{AllowlistConfig, AppConfig};
use kiss_daemon::engine::detector::{check_x11_sockets, DetectorEngine, ViolationReport};
use kiss_daemon::engine::fallback::EngineOperatingMode;
use kiss_daemon::engine::heartbeat::BackgroundActivity;
use kiss_daemon::platform::{InputEvent, InputSource, PermissionStatus};

const NOW: u64 = 1_000_000;

fn strings(items: &[&str]) -> Vec<String> {
    items.iter().map(|s| s.to_string()).collect()
}

const FULL_TOML: &str = r#"
[allowlist]
allowed_x11_displays = ["X20", "X21"]
allowed_virtual_drivers = ["VirtualPS/2 VMware VMMouse"]
allowed_processes = ["/opt/google/chrome-remote-desktop/chrome-remote-desktop-host"]
"#;

const PARTIAL_TOML: &str = r#"
[allowlist]
allowed_x11_displays = ["X20"]
"#;

/// Reads a configuration file's TOML text into the library's type, as the
/// daemon does: a missing section or list is empty, anything else is an error.
fn parse_config(content: &str) -> Option<AppConfig> {
    let table: toml::Table = content.parse().ok()?;
    let mut lists: [Vec<String>; 3] = [Vec::new(), Vec::new(), Vec::new()];
    if let Some(section) = table.get("allowlist") {
        let section = section.as_table()?;
        for (i, key) in ["allowed_x11_displays", "allowed_virtual_drivers", "allowed_processes"]
            .iter()
            .enumerate()
        {
            if let Some(value) = section.get(*key) {
                for item in value.as_array()? {
                    lists[i].push(item.as_str()?.to_string());
                }
            }
        }
    }
    let [displays, drivers, processes] = lists;
    Some(AppConfig {
        allowlist: AllowlistConfig {
            allowed_x11_displays: displays,
            allowed_virtual_drivers: drivers,
            allowed_processes: processes,
        },
    })
}

#[test]
fn test_config_parsing_full_partial_and_predicates() {
    // 1. The full allowlist
    let config = AppConfig::load(Some(parse_config(FULL_TOML).expect("Parsing valid TOML failed")), false);
    assert!(config.is_display_allowed("X20", false));
    assert!(config.is_display_allowed("X21", false));
    assert!(!config.is_display_allowed("X0", false));
    assert!(config.is_driver_allowed("VirtualPS/2 VMware VMMouse"));
    assert!(!config.is_driver_allowed("VirtualPS/2 Generic Mouse"));
    assert!(config.is_process_allowed("/opt/google/chrome-remote-desktop/chrome-remote-desktop-host"));

    // 2. A partial allowlist: the missing lists are empty
    let partial_config =
        AppConfig::load(Some(parse_config(PARTIAL_TOML).expect("Parsing partial TOML failed")), false);
    assert_eq!(partial_config.allowlist.allowed_x11_displays, vec!["X20"]);
    assert!(partial_config.allowlist.allowed_virtual_drivers.is_empty());
    assert!(partial_config.allowlist.allowed_processes.is_empty());

    // 3. A file that does not parse gives the empty allowlist
    let invalid_config = AppConfig::load(parse_config("bad_toml = [[["), false);
    assert!(invalid_config.allowlist.allowed_x11_displays.is_empty());
}

#[test]
fn test_detector_config_exemption_virtual_driver() {
    let config = AppConfig::load(
        parse_config("\n[allowlist]\nallowed_virtual_drivers = [\"VirtualPS/2 VMware VMMouse\"]\n"),
        false,
    );
    let mut detector = DetectorEngine::with_config(15, config, NOW);
    detector.set_test_mode(true);
    detector.heartbeat.simulate_idle_seconds(20, NOW);

    let allowed_event = InputEvent {
        source: InputSource::SyntheticSoftware,
        pid: Some(1337),
        device_name: Some("VirtualPS/2 VMware VMMouse".into()),
        timestamp: NOW,
    };

    let violation = detector.process_input_event(&allowed_event, NOW);
    assert!(
        violation.is_none(),
        "Input event from allowed virtual driver should be bypassed via config exemption"
    );
    assert!(
        !detector.is_isolation_triggered(),
        "Allowed virtual driver must not trigger isolation"
    );
}

#[test]
fn test_synthetic_input_triggers_isolation() {
    let mut detector = DetectorEngine::new(15, None, false, NOW);
    detector.set_test_mode(true);
    detector.heartbeat.simulate_idle_seconds(20, NOW);

    let synthetic_event = InputEvent {
        source: InputSource::SyntheticSoftware,
        pid: Some(1337),
        device_name: Some("Simulated Injection Device".into()),
        timestamp: NOW,
    };

    let violation = detector.process_input_event(&synthetic_event, NOW);

    assert!(
        violation.is_some(),
        "Synthetic input during idle should return a violation report"
    );
    let rep = violation.unwrap();
    assert_eq!(rep.target_pid, Some(1337));
    assert!(rep.event_flags.contains(&"SYNTHETIC_INPUT_DURING_IDLE".to_string()));
    assert!(
        detector.is_isolation_triggered(),
        "Synthetic input should set isolation_triggered flag"
    );
}

#[test]
fn test_desktop_isolation_verification() {
    let mut detector = DetectorEngine::new(15, None, false, NOW);
    detector.set_test_mode(true);

    let custom_desktop = "Test_HVNC_HiddenDesktop_01";
    let report = ViolationReport {
        target_pid: Some(4096),
        desktop_identifier: Some(custom_desktop.into()),
        event_flags: vec!["HIDDEN_DESKTOP_DETECTED".into(), "HVNC_SESSION_FLAG".into()],
        description: format!("Test custom hidden desktop: {}", custom_desktop),
        timestamp: NOW,
    };

    assert_eq!(report.desktop_identifier.as_deref(), Some(custom_desktop));
    assert!(report.event_flags.contains(&"HIDDEN_DESKTOP_DETECTED".to_string()));
}

#[test]
fn test_fallthrough_verification() {
    let mut detector = DetectorEngine::new(15, None, false, NOW);
    detector.set_test_mode(true);

    // 1. Deliberately revoke / force fallback mode
    detector.fallback.force_fallback(true);

    let platform_status = PermissionStatus {
        hooks_available: true,
        elevation_granted: false,
        message: "Linux input hook permission granted".into(),
    };
    let (operating_mode, perm_status) = detector.fallback.determine_operating_mode(platform_status);
    assert_eq!(
        operating_mode,
        EngineOperatingMode::HeartbeatDeltaFallback,
        "Engine should shift seamlessly to HeartbeatDeltaFallback mode when hook permissions are revoked"
    );
    assert!(!perm_status.hooks_available);
    assert!(perm_status.message.contains("Operating in Heartbeat Delta Analysis mode"));

    // 2. Heartbeat Delta Analysis in fallback mode
    detector.heartbeat.simulate_idle_seconds(20, NOW);

    let bg_activity = BackgroundActivity {
        pid: 2048,
        process_name: "obs_frame_capture".into(),
        has_framebuffer_capture: true,
        has_outbound_socket: true,
        timestamp: NOW,
    };

    let violation = detector.register_background_activity(bg_activity, NOW);
    assert!(
        violation.is_some(),
        "Heartbeat Delta Engine should flag background process framebuffer/socket activity during physical idle"
    );
    let rep = violation.unwrap();
    assert_eq!(rep.target_pid, Some(2048));
    assert!(rep.event_flags.contains(&"HEARTBEAT_DELTA_VIOLATION".to_string()));
    assert!(
        detector.is_isolation_triggered(),
        "Heartbeat delta violation in fallback mode must trigger isolation state"
    );
}

#[test]
fn test_check_x11_sockets_allowlist() {
    let sockets = strings(&["X0", "X20"]);

    // 1. AppConfig containing "X20" in allowed_x11_displays
    let config_allowed =
        AppConfig::load(Some(parse_config(PARTIAL_TOML).expect("Failed to parse allowed config")), false);
    let mut log = Vec::new();
    let triggers = check_x11_sockets(&config_allowed, &sockets, false, NOW, &mut log);
    let x20_triggers: Vec<_> = triggers
        .iter()
        .filter(|t| t.desktop_identifier.as_deref() == Some("X20"))
        .collect();
    assert!(
        x20_triggers.is_empty(),
        "check_x11_sockets must return zero IsolationTrigger items for allowed display X20"
    );

    // 2. AppConfig without "X20" -> should flag X20 and return IsolationTrigger
    let config_unallowed = AppConfig::default_config(false);
    let triggers_unallowed = check_x11_sockets(&config_unallowed, &sockets, false, NOW, &mut log);
    let x20_unallowed_triggers: Vec<_> = triggers_unallowed
        .iter()
        .filter(|t| t.desktop_identifier.as_deref() == Some("X20"))
        .collect();
    assert_eq!(
        x20_unallowed_triggers.len(),
        1,
        "check_x11_sockets must return an IsolationTrigger item when X20 is not allowed"
    );
}

#[test]
fn test_crostini_display_proxy_verification() {
    let sockets = strings(&["X20", "X1"]);

    // Clean install default AppConfig on Crostini
    let config = AppConfig::default_config(true);

    let mut log = Vec::new();
    let triggers = check_x11_sockets(&config, &sockets, true, NOW, &mut log);
    let crostini_triggers: Vec<_> = triggers
        .iter()
        .filter(|t| {
            let id = t.desktop_identifier.as_deref().unwrap_or("");
            id == "X1" || id == "X20" || id == ":1" || id == ":20"
        })
        .collect();

    assert!(
        crostini_triggers.is_empty(),
        "Crostini Sommelier display proxy sockets X1 and X20 must be auto-exempted"
    );
}

#[test]
fn test_sudo_user_config_path_priority() {
    let candidates = AppConfig::config_candidates(
        &Some("testuser".to_string()),
        &Some("/root".to_string()),
        &None,
        false,
    );
    let resolved_path = AppConfig::select_config_path(&candidates, false, false, false);
    assert_eq!(resolved_path, "/home/testuser/.kiss/config");
}
