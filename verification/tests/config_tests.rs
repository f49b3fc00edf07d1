use kiss_daemon::config::{AllowlistConfig, AppConfig};

fn strings(items: &[&str]) -> Vec<String> {
    items.iter().map(|s| s.to_string()).collect()
}

const FULL_TOML: &str = r#"
[allowlist]
allowed_x11_displays = ["X20", "X21"]
allowed_virtual_drivers = ["VirtualPS/2 VMware VMMouse"]
allowed_processes = ["/opt/google/chrome-remote-desktop/chrome-remote-desktop-host"]
"#;

const PARTIAL_TOML: &str = r#"
[allowlist]
allowed_x11_displays = ["X20"]
"#;

/// Reads a configuration file's TOML text into the library's type, as the
/// daemon does: a missing section or list is empty, anything else is an error.
fn parse_config(content: &str) -> Option<AppConfig> {
    let table: toml::Table = content.parse().ok()?;
    let mut lists: [Vec<String>; 3] = [Vec::new(), Vec::new(), Vec::new()];
    if let Some(section) = table.get("allowlist") {
        let section = section.as_table()?;
        for (i, key) in ["allowed_x11_displays", "allowed_virtual_drivers", "allowed_processes"]
            .iter()
            .enumerate()
        {
            if let Some(value) = section.get(*key) {
                for item in value.as_array()? {
                    lists[i].push(item.as_str()?.to_string());
                }
            }
        }
    }
    let [displays, drivers, processes] = lists;
    Some(AppConfig {
        allowlist: AllowlistConfig {
            allowed_x11_displays: displays,
            allowed_virtual_drivers: drivers,
            allowed_processes: processes,
        },
    })
}

fn parsed(displays: &[&str], drivers: &[&str], processes: &[&str]) -> AppConfig {
    AppConfig {
        allowlist: AllowlistConfig {
            allowed_x11_displays: strings(displays),
            allowed_virtual_drivers: strings(drivers),
            allowed_processes: strings(processes),
        },
    }
}

#[test]
fn test_parse_valid_config() {
    let config = AppConfig::load(Some(parse_config(FULL_TOML).expect("Failed to parse valid config")), false);
    assert_eq!(config.allowlist.allowed_x11_displays, vec!["X20", "X21"]);
    assert_eq!(
        config.allowlist.allowed_virtual_drivers,
        vec!["VirtualPS/2 VMware VMMouse"]
    );
    assert_eq!(
        config.allowlist.allowed_processes,
        vec!["/opt/google/chrome-remote-desktop/chrome-remote-desktop-host"]
    );
}

#[test]
fn test_partial_config_fallback() {
    let config =
        AppConfig::load(Some(parse_config(PARTIAL_TOML).expect("Failed to parse partial config")), false);
    assert_eq!(config.allowlist.allowed_x11_displays, vec!["X20"]);
    assert!(config.allowlist.allowed_virtual_drivers.is_empty());
    assert!(config.allowlist.allowed_processes.is_empty());
}

#[test]
fn test_empty_config_and_invalid_fallback() {
    let empty_config = AppConfig::load(parse_config(""), false);
    assert!(empty_config.allowlist.allowed_x11_displays.is_empty());

    assert!(parse_config("invalid = [[[").is_none());
    let invalid_config = AppConfig::load(parse_config("invalid = [[["), false);
    assert!(invalid_config.allowlist.allowed_x11_displays.is_empty());
}

#[test]
fn test_allowlist_predicates() {
    let config = AppConfig::load(parse_config(FULL_TOML), false);

    assert!(config.is_display_allowed("X20", false));
    assert!(config.is_display_allowed("X21", false));
    assert!(!config.is_display_allowed("X0", false));

    assert!(config.is_driver_allowed("VirtualPS/2 VMware VMMouse"));
    assert!(!config.is_driver_allowed("Random Virtual Driver"));

    assert!(config.is_process_allowed("/opt/google/chrome-remote-desktop/chrome-remote-desktop-host"));
    assert!(!config.is_process_allowed("/usr/bin/malware"));
}

#[test]
fn test_config_path_resolution() {
    let candidates = AppConfig::config_candidates(&None, &Some("/root".to_string()), &None, false);
    let path = AppConfig::select_config_path(&candidates, false, false, false);
    assert!(!path.is_empty());
}

#[test]
fn test_display_summary() {
    let config = AppConfig::load(parse_config(PARTIAL_TOML), false);
    let summary = config.display_summary("/tmp/test_config");
    assert!(summary.contains("[CONFIG] Configuration loaded from /tmp/test_config"));
    assert!(summary.contains("├── Allowed X11 Displays: X20"));
    assert!(summary.contains("├── Allowed Virtual Drivers: None"));
    assert!(summary.contains("└── Allowed Processes: None"));
}

#[test]
fn test_crostini_display_proxy_auto_exemption() {
    let config = AppConfig::default_config(true);

    assert!(config.is_display_allowed("X1", true));
    assert!(config.is_display_allowed(":1", true));
    assert!(config.is_display_allowed("X20", true));
    assert!(config.is_display_allowed(":20", true));
    assert!(config.allowlist.allowed_x11_displays.contains(&"X1".to_string()));
    assert!(config.allowlist.allowed_x11_displays.contains(&":1".to_string()));
    assert!(config.allowlist.allowed_x11_displays.contains(&"X20".to_string()));
    assert!(config.allowlist.allowed_x11_displays.contains(&":20".to_string()));
}

#[test]
fn test_sudo_user_config_path_resolution() {
    let sudo_user = Some("penguin".to_string());
    let home = Some("/root".to_string());

    let candidates = AppConfig::config_candidates(&sudo_user, &home, &None, false);
    let path = AppConfig::select_config_path(&candidates, false, false, false);
    assert_eq!(
        path, "/home/penguin/.kiss/config",
        "Path should resolve to /home/penguin/.kiss/config when SUDO_USER is penguin and HOME is /root"
    );

    let expanded = AppConfig::expand_home("~/.kiss/config", &sudo_user, &home, &None, false);
    assert_eq!(expanded, "/home/penguin/.kiss/config");
}

#[test]
fn crostini_defaults_are_added_once_and_after_existing_entries() {
    let mut config = parsed(&["X21", ":1"], &[], &[]);
    config.apply_crostini_defaults(true);
    assert_eq!(config.allowlist.allowed_x11_displays, vec!["X21", ":1", "X1", "X20", ":20"]);
    config.apply_crostini_defaults(true);
    assert_eq!(config.allowlist.allowed_x11_displays, vec!["X21", ":1", "X1", "X20", ":20"]);

    let mut plain = parsed(&["X21"], &[], &[]);
    plain.apply_crostini_defaults(false);
    assert_eq!(plain.allowlist.allowed_x11_displays, vec!["X21"]);
}

#[test]
fn crostini_defaults_apply_to_a_parsed_config() {
    let config = AppConfig::load(Some(parsed(&["X5"], &["d"], &["p"])), true);
    assert_eq!(config.allowlist.allowed_x11_displays, vec!["X5", "X1", ":1", "X20", ":20"]);
    assert_eq!(config.allowlist.allowed_virtual_drivers, vec!["d"]);
    assert_eq!(config.allowlist.allowed_processes, vec!["p"]);
}

#[test]
fn display_entries_match_across_x_and_colon() {
    let config = parsed(&[":20", "X7"], &[], &[]);
    assert!(config.is_display_allowed("X20", false));
    assert!(config.is_display_allowed(":20", false));
    assert!(config.is_display_allowed(":7", false));
    assert!(config.is_display_allowed("X7", false));
    assert!(!config.is_display_allowed("20", false));
    assert!(!config.is_display_allowed("Y20", false));
    assert!(!config.is_display_allowed(" X20", false));
}

#[test]
fn crostini_proxy_displays_are_recognised_by_number() {
    let config = parsed(&[], &[], &[]);
    assert!(config.is_display_allowed(" X20 ", true));
    assert!(config.is_display_allowed("20", true));
    assert!(config.is_display_allowed("+1", true));
    assert!(config.is_display_allowed(":020", true));
    assert!(config.is_display_allowed("\tX1\n", true));
    assert!(!config.is_display_allowed("X2", true));
    assert!(!config.is_display_allowed("X-1", true));
    assert!(!config.is_display_allowed("X4294967297", true));
    assert!(!config.is_display_allowed("X20", false));
    assert!(!config.is_display_allowed("", true));
}

#[test]
fn summary_joins_entries_with_commas() {
    let config = parsed(&["X20", ":21"], &["a", "b", "c"], &["/bin/x"]);
    let summary = config.display_summary("/etc/kiss/config");
    assert_eq!(
        summary,
        "[CONFIG] Configuration loaded from /etc/kiss/config\n  ├── Allowed X11 Displays: X20, :21\n  ├── Allowed Virtual Drivers: a, b, c\n  └── Allowed Processes: /bin/x"
    );
}

#[test]
fn config_path_priority_follows_existence() {
    let c = AppConfig::config_candidates(
        &Some("  alice ".to_string()),
        &Some("/home/bob/".to_string()),
        &Some("C:\\Users\\carol".to_string()),
        false,
    );
    assert_eq!(c.sudo.as_deref(), Some("/home/alice/.kiss/config"));
    assert_eq!(c.home, "/home/bob/.kiss/config");
    assert_eq!(c.etc, "/etc/kiss/config");
    assert_eq!(AppConfig::select_config_path(&c, true, true, true), "/home/alice/.kiss/config");
    assert_eq!(AppConfig::select_config_path(&c, false, true, true), "/home/bob/.kiss/config");
    assert_eq!(AppConfig::select_config_path(&c, false, false, true), "/etc/kiss/config");
    assert_eq!(AppConfig::select_config_path(&c, false, false, false), "/home/alice/.kiss/config");

    let d = AppConfig::config_candidates(&Some("   ".to_string()), &None, &Some("/u".to_string()), false);
    assert_eq!(d.sudo, None);
    assert_eq!(d.home, "/u/.kiss/config");
    assert_eq!(AppConfig::select_config_path(&d, true, false, false), "/u/.kiss/config");

    let e = AppConfig::config_candidates(&None, &None, &None, false);
    assert_eq!(e.home, "./.kiss/config");
    let f = AppConfig::config_candidates(&None, &Some(String::new()), &None, false);
    assert_eq!(f.home, ".kiss/config");
}

#[test]
fn home_expansion_follows_path_components() {
    let home = Some("/home/dave".to_string());
    assert_eq!(AppConfig::expand_home("~", &None, &home, &None, false), "/home/dave");
    assert_eq!(AppConfig::expand_home("~/a//b/./c/", &None, &home, &None, false), "/home/dave/a/b/c");
    assert_eq!(AppConfig::expand_home("~/../x", &None, &home, &None, false), "/home/dave/../x");
    assert_eq!(AppConfig::expand_home("~user/x", &None, &home, &None, false), "~user/x");
    assert_eq!(AppConfig::expand_home("/etc/kiss/config", &None, &home, &None, false), "/etc/kiss/config");
    assert_eq!(
        AppConfig::expand_home("~/.kiss/config", &Some(" ".to_string()), &None, &None, false),
        "./.kiss/config"
    );
}

#[test]
fn windows_paths_use_windows_separators() {
    let c = AppConfig::config_candidates(&None, &None, &Some("C:\\Users\\carol".to_string()), true);
    assert_eq!(c.home, "C:\\Users\\carol\\.kiss\\config");
    let d = AppConfig::config_candidates(&None, &Some("C:\\Users\\dave\\".to_string()), &None, true);
    assert_eq!(d.home, "C:\\Users\\dave\\.kiss\\config");
    let e = AppConfig::config_candidates(&None, &Some("D:".to_string()), &None, true);
    assert_eq!(e.home, "D:.kiss\\config");
    let f = AppConfig::config_candidates(&None, &Some("C:/Users/erin/".to_string()), &None, true);
    assert_eq!(f.home, "C:/Users/erin/.kiss\\config");

    let home = Some("C:\\Users\\carol".to_string());
    assert_eq!(
        AppConfig::expand_home("~\\.kiss\\config", &None, &home, &None, true),
        "C:\\Users\\carol\\.kiss\\config"
    );
    assert_eq!(
        AppConfig::expand_home("~/a\\\\b/./c", &None, &home, &None, true),
        "C:\\Users\\carol\\a\\b\\c"
    );
    // On Unix a backslash is an ordinary character.
    assert_eq!(AppConfig::expand_home("~\\.kiss", &None, &home, &None, false), "~\\.kiss");
    assert_eq!(
        AppConfig::expand_home("~/.kiss\\config", &None, &Some("/h".to_string()), &None, false),
        "/h/.kiss\\config"
    );
}
