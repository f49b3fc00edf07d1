use kiss_daemon::platform::{input_seen, linux, macos, windows, InputSource};

fn strings(items: &[&str]) -> Vec<String> {
    items.iter().map(|s| s.to_string()).collect()
}

const TCP_TABLE: &str = "  sl  local_address rem_address   st tx_queue rx_queue tr tm->when retrnsmt   uid  timeout inode
   0: 00000000:170C 00000000:0000 0A 00000000:00000000 00:00000000 00000000  1000        0 1 1
   1: 0100007F:0CEA 00000000:0000 0A 00000000:00000000 00:00000000 00000000   110        0 2 1
   2: 00000000:16A8 00000000:0000 0A 00000000:00000000 00:00000000 00000000     0        0 3 1
   3: 00000000:1770 00000000:0000 0A 00000000:00000000 00:00000000 00000000     0        0 4 1
   4: 00000000:176F 00000000:0000 0A 00000000:00000000 00:00000000 00000000     0        0 5 1
";

const DEVICES: &str = "I: Bus=0003 Vendor=046d Product=c52b Version=0111
N: Name=\"Logitech USB Receiver\"
P: Phys=usb-0000:00:14.0-1/input2

I: Bus=0006 Vendor=0000 Product=0000 Version=0000
N: Name=\"py-evdev-uinput\"

I: Bus=0011 Vendor=0002 Product=0013 Version=0006
N: Name=\"VirtualPS/2 VMware VMMouse\"

";

#[test]
fn linux_hook_permissions() {
    let p = linux::hook_permission_status(true, false, false);
    assert!(p.hooks_available);
    assert!(p.elevation_granted);
    assert_eq!(p.message, "Linux input hook permission granted");
    let p = linux::hook_permission_status(true, false, true);
    assert!(!p.hooks_available);
    assert_eq!(
        p.message,
        "Linux input hook permissions denied or un-privileged Wayland; falling back to Heartbeat Delta Engine"
    );
    assert!(linux::hook_permission_status(false, true, true).hooks_available);
    assert!(!linux::hook_permission_status(false, false, false).hooks_available);
}

#[test]
fn linux_event_devices() {
    assert!(linux::is_event_device("/dev/input/event3"));
    assert!(!linux::is_event_device("/dev/input/mice"));
}

#[test]
fn linux_cmdline_findings() {
    assert_eq!(
        linux::cmdline_finding_of("/usr/bin/Xvfb\0:99\0-screen\0"),
        Some("Virtual Desktop Process: /usr/bin/Xvfb :99 -screen ".to_string())
    );
    assert_eq!(
        linux::cmdline_finding_of("xrdp-sesman"),
        Some("Virtual Desktop Process: xrdp-sesman".to_string())
    );
    assert_eq!(linux::cmdline_finding_of("/usr/bin/bash\0-l\0"), None);
}

#[test]
fn linux_vnc_ports() {
    assert_eq!(linux::vnc_ports_in(TCP_TABLE), vec![5900, 5800, 5999]);
    assert_eq!(linux::vnc_ports_in(""), Vec::<u16>::new());
    assert_eq!(linux::vnc_ports_in("0: 00000000:170C\n"), Vec::<u16>::new());
    assert_eq!(linux::vnc_ports_in("header\n0: 00000000:zz\n1: nocolon\n2:\n"), Vec::<u16>::new());
}

#[test]
fn linux_x11_socket_findings() {
    assert_eq!(linux::x11_socket_finding_of("X0"), None);
    assert_eq!(
        linux::x11_socket_finding_of("X1"),
        Some("Secondary X11 socket display index detected: X1".to_string())
    );
    assert_eq!(
        linux::x11_socket_finding_of("X00"),
        Some("Secondary X11 socket display index detected: X00".to_string())
    );
    assert_eq!(linux::x11_socket_finding_of("lock"), None);
}

#[test]
fn linux_hidden_desktop_scan() {
    let found = linux::scan_for_hidden_desktops(
        &strings(&["/usr/bin/bash\0", "x11vnc\0-display\0:1\0"]),
        &strings(&[TCP_TABLE, ""]),
        &strings(&["X0", "X99"]),
    );
    assert_eq!(
        found,
        strings(&[
            "Virtual Desktop Process: x11vnc -display :1 ",
            "Active VNC listening port detected: 5900",
            "Active VNC listening port detected: 5800",
            "Active VNC listening port detected: 5999",
            "Secondary X11 socket display index detected: X99",
        ])
    );
    assert!(linux::scan_for_hidden_desktops(&vec![], &vec![], &vec![]).is_empty());
}

#[test]
fn linux_input_device_audit() {
    let devices = linux::audit_input_devices(DEVICES);
    assert_eq!(devices.len(), 3);
    assert_eq!(devices[0].name, "Logitech USB Receiver");
    assert_eq!(devices[0].vendor_id, Some(0x046d));
    assert_eq!(devices[0].product_id, Some(0xc52b));
    assert_eq!(devices[0].bus_type, "0003");
    assert!(!devices[0].is_virtual);
    assert_eq!(devices[1].name, "py-evdev-uinput");
    assert_eq!(devices[1].bus_type, "0006");
    assert_eq!(devices[1].vendor_id, Some(0));
    assert!(devices[1].is_virtual);
    assert_eq!(devices[2].name, "VirtualPS/2 VMware VMMouse");
    assert_eq!(devices[2].vendor_id, Some(2));
    assert_eq!(devices[2].product_id, Some(0x13));
    assert!(devices[2].is_virtual);
}

#[test]
fn linux_input_device_audit_edges() {
    // A device is only completed by the blank line after it.
    assert!(linux::audit_input_devices("N: Name=\"Keyboard\"").is_empty());
    // A blank line without a name completes nothing.
    assert!(linux::audit_input_devices("I: Bus=0003\n\n").is_empty());
    // Ids that do not parse as hexadecimal are left unknown.
    let d = linux::audit_input_devices("I: Bus=0000 Vendor=zz Product=12345\nN: Name=\"USB KEYBOARD\"\n\n");
    assert_eq!(d.len(), 1);
    assert_eq!(d[0].vendor_id, None);
    assert_eq!(d[0].product_id, None);
    assert!(d[0].is_virtual);
    // The name is matched in lower case.
    let d = linux::audit_input_devices("I: Bus=0003\nN: Name=\"YDOTOOL device\"\n\n");
    assert!(d[0].is_virtual);
}

#[test]
fn linux_remote_sessions() {
    let s = linux::scan_remote_sessions(&strings(&["X0", "X1"]), Some("(<uint32 2>,)\n"));
    assert_eq!(s.len(), 2);
    assert_eq!(s[0].session_type, "X11 Secondary Socket");
    assert_eq!(s[0].identifier, "X1");
    assert_eq!(s[0].details, "Found X11 unix socket at /tmp/.X11-unix/X1");
    assert_eq!(s[1].session_type, "Freedesktop RemoteDesktop Portal");
    assert_eq!(s[1].identifier, "org.freedesktop.portal.RemoteDesktop");
    assert_eq!(s[1].details, "RemoteDesktop DBus Portal service active");
    assert!(linux::scan_remote_sessions(&strings(&["X0"]), None).is_empty());
    assert!(linux::scan_remote_sessions(&vec![], Some("Error: no such interface")).is_empty());
}

#[test]
fn linux_idle_time_parsing() {
    assert_eq!(linux::parse_xprintidle("12345\n"), Some(12));
    assert_eq!(linux::parse_xprintidle("  999 "), Some(0));
    assert_eq!(linux::parse_xprintidle("abc"), None);
    assert_eq!(linux::parse_xprintidle(""), None);
    assert_eq!(linux::parse_mutter_idle("(uint64 65000,)\n"), Some(65));
    assert_eq!(linux::parse_mutter_idle("(uint64 65000"), None);
    assert_eq!(linux::parse_mutter_idle("(uint64 ,)"), None);
    assert_eq!(linux::parse_mutter_idle("nothing"), None);
}

#[test]
fn linux_input_seen_and_tray() {
    assert!(input_seen(10, 5));
    assert!(!input_seen(5, 5));
    assert!(input_seen(5, 0));
    assert!(!input_seen(3, 7));
    assert_eq!(linux::tray_status_message(true), "KISS AV: AFK Guard Enabled");
    assert_eq!(linux::tray_status_message(false), "KISS AV: AFK Guard Disabled");
}

#[test]
fn macos_hook_permissions() {
    let p = macos::hook_permission_status(false, true);
    assert!(!p.hooks_available);
    assert!(p.elevation_granted);
    assert_eq!(
        p.message,
        "macOS Accessibility permission denied; falling back seamlessly to Delta-Based Heartbeat Analyzer"
    );
    let p = macos::hook_permission_status(true, false);
    assert!(p.hooks_available);
    assert!(!p.elevation_granted);
    assert_eq!(p.message, "macOS Accessibility permission granted; CGEventTap active");
}

#[test]
fn macos_hidden_desktop_scan() {
    let found = macos::scan_for_hidden_desktops(
        Some("101 /usr/libexec/screensharingd\n102 /usr/libexec/screensharingd\n"),
        Some("COMMAND PID USER\nvncd 55 root\n"),
        Some("(id64 = 1; id64 = 2;)"),
    );
    assert_eq!(
        found,
        strings(&[
            "Multiple active screensharingd sessions detected",
            "Active VNC server listening on port 5900",
        ])
    );
    let found = macos::scan_for_hidden_desktops(Some("101 screensharingd\n"), None, None);
    assert!(found.is_empty());
}

#[test]
fn macos_input_device_audit() {
    let out = "  |   \"Product\" = \"Apple Internal Keyboard / Trackpad\"\n  |   \"VendorID\" = 1452\n  |   \"Product\" = \"Virtual HID Remote\"\n";
    let d = macos::audit_input_devices(out);
    assert_eq!(d.len(), 2);
    assert_eq!(d[0].name, "Apple Internal Keyboard / Trackpad");
    assert_eq!(d[0].bus_type, "macOS IOHID");
    assert_eq!(d[0].vendor_id, None);
    assert!(!d[0].is_virtual);
    assert_eq!(d[1].name, "Virtual HID Remote");
    assert!(d[1].is_virtual);
}

#[test]
fn macos_idle_and_sessions() {
    assert_eq!(macos::parse_hid_idle("  |   \"HIDIdleTime\" = 5000000000\n"), 5);
    assert_eq!(macos::parse_hid_idle("\"HIDIdleTime\" = soon\n\"HIDIdleTime\" = 2500000000\n"), 2);
    assert_eq!(macos::parse_hid_idle(""), 0);
    let s = macos::scan_remote_sessions(Some("123 /usr/libexec/screensharingd\n"));
    assert_eq!(s.len(), 1);
    assert_eq!(s[0].session_type, "macOS ScreenSharing Daemon");
    assert_eq!(s[0].identifier, "screensharingd");
    assert_eq!(s[0].details, "123 /usr/libexec/screensharingd\n");
    assert!(macos::scan_remote_sessions(Some("  \n")).is_empty());
    assert!(macos::scan_remote_sessions(None).is_empty());
}

#[test]
fn macos_tray() {
    assert_eq!(
        macos::tray_dialog_script(true),
        "button returned of (display dialog \"KISS AV Guard Status: Active\" buttons {\"Toggle AFK\", \"OK\"} default button \"OK\")"
    );
    assert_eq!(
        macos::tray_dialog_script(false),
        "button returned of (display dialog \"KISS AV Guard Status: Inactive\" buttons {\"Toggle AFK\", \"OK\"} default button \"OK\")"
    );
    assert!(macos::tray_toggle_requested("Toggle AFK\n"));
    assert!(!macos::tray_toggle_requested("OK\n"));
}

#[test]
fn windows_permissions_and_event_sources() {
    let p = windows::hook_permission_status(false);
    assert!(p.hooks_available);
    assert_eq!(p.message, "Windows low-level input hooks available (non-elevated token)");
    assert_eq!(
        windows::hook_permission_status(true).message,
        "Windows low-level input hooks available with elevated token"
    );
    assert_eq!(windows::keyboard_event_source(0x10), InputSource::SyntheticSoftware);
    assert_eq!(windows::keyboard_event_source(0x01), InputSource::PhysicalHardware);
    assert_eq!(windows::mouse_event_source(0x02), InputSource::SyntheticSoftware);
    assert_eq!(windows::mouse_event_source(0x01), InputSource::SyntheticSoftware);
    assert_eq!(windows::mouse_event_source(0x10), InputSource::PhysicalHardware);
}

#[test]
fn windows_hidden_desktops() {
    assert!(!windows::is_hidden_desktop("Default"));
    assert!(!windows::is_hidden_desktop("WINLOGON"));
    assert!(windows::is_hidden_desktop("hvnc_desktop"));
    let found = windows::hidden_desktops(&strings(&[
        "Default", "Winlogon", "hVNC", "Disconnect", "hVNC", "Screen-saver", "Sbx",
    ]));
    assert_eq!(found, strings(&["hVNC", "Sbx"]));
    let s = windows::desktop_sessions(&found);
    assert_eq!(s.len(), 2);
    assert_eq!(s[0].session_type, "Hidden Win32 Desktop");
    assert_eq!(s[0].identifier, "hVNC");
    assert_eq!(s[0].details, "Suspicious background desktop found: hVNC");
}

#[test]
fn windows_idle_and_tray() {
    assert_eq!(windows::idle_secs_from_ticks(10_500, 500), 10);
    assert_eq!(windows::idle_secs_from_ticks(100, 200), 0);
    assert_eq!(windows::tray_afk_label(Some(true)), "Disable AFK Mode");
    assert_eq!(windows::tray_afk_label(Some(false)), "Enable AFK Mode");
    assert_eq!(windows::tray_afk_label(None), "Toggle AFK Mode");
    assert_eq!(windows::raw_device_type_label(0), "Mouse");
    assert_eq!(windows::raw_device_type_label(1), "Keyboard");
    assert_eq!(windows::raw_device_type_label(2), "HID Device");
    assert_eq!(windows::raw_device_type_label(7), "Unknown");
}

#[test]
fn lower_case_keyword_rules() {
    assert!(linux::is_virtual_driver_name("py-evdev-uinput"));
    assert!(linux::is_virtual_driver_name("vmware vmmouse"));
    assert!(!linux::is_virtual_driver_name("USB UINPUT"));
    assert!(!linux::is_virtual_driver_name("logitech usb receiver"));
    assert!(macos::is_virtual_product_name("karabiner virtualhiddevice"));
    assert!(macos::is_virtual_product_name("apple remote"));
    assert!(!macos::is_virtual_product_name("apple internal keyboard"));
    assert!(windows::is_standard_desktop_name("screen-saver"));
    assert!(!windows::is_standard_desktop_name("Default"));
    assert!(!windows::is_standard_desktop_name("hvnc"));
}
