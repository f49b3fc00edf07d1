use vstd::prelude::*;
use crate::platform::{DeviceView, InputDeviceInfo, PermissionStatus, RemoteSessionInfo, SessionView};
use crate::text::{
    chars_of, contains, contains_str, count_matches, count_matches_from, decimal, line_bounds,
    lines, lowercase, parse_u64, parse_unsigned_range, push_decimal, push_str, second_piece,
    second_piece_bounds, string_of, to_lowercase, trim, trim_char, trim_range,
};

verus! {

/// The permission status for the Accessibility trust the process was granted.
pub fn hook_permission_status(trusted: bool, elevated: bool) -> (r: PermissionStatus)
    ensures
        r.hooks_available == trusted,
        r.elevation_granted == elevated,
        r.message@ == if trusted {
            "macOS Accessibility permission granted; CGEventTap active"@
        } else {
            "macOS Accessibility permission denied; falling back seamlessly to Delta-Based Heartbeat Analyzer"@
        },
{
    if !trusted {
        PermissionStatus {
            hooks_available: false,
            elevation_granted: elevated,
            message: "macOS Accessibility permission denied; falling back seamlessly to Delta-Based Heartbeat Analyzer".to_owned(),
        }
    } else {
        PermissionStatus {
            hooks_available: true,
            elevation_granted: elevated,
            message: "macOS Accessibility permission granted; CGEventTap active".to_owned(),
        }
    }
}

/// The managed display spaces that `defaults read com.apple.spaces spaces` shows:
/// a count, when it names more than one space.
pub open spec fn display_spaces(out: Seq<char>) -> Seq<Seq<char>> {
    let n = count_matches_from(out, "id64"@, 0);
    if n > 1 {
        seq!["Active Managed Display Spaces Count: "@ + decimal(n)]
    } else {
        seq![]
    }
}

pub open spec fn is_suspicious_space(space: Seq<char>) -> bool {
    contains(space, "Background"@) || contains(space, "Virtual"@) || contains(space, "Secondary"@)
}

pub open spec fn space_findings(out: Seq<char>) -> Seq<Seq<char>> {
    let spaces = display_spaces(out);
    if spaces.len() > 0 && is_suspicious_space(spaces[0]) {
        seq!["Suspicious SkyLight display space: "@ + spaces[0]]
    } else {
        seq![]
    }
}

/// The hidden-desktop findings from the outputs of `pgrep -fl screensharingd`,
/// `lsof -i :5900` and the display-space query (`None` where a command failed).
pub open spec fn hidden_desktop_findings(
    pgrep: Option<Seq<char>>,
    lsof: Option<Seq<char>>,
    spaces: Option<Seq<char>>,
) -> Seq<Seq<char>> {
    let a = match pgrep {
        Some(o) => if lines(o).len() > 1 {
            seq!["Multiple active screensharingd sessions detected"@]
        } else {
            seq![]
        },
        None => seq![],
    };
    let b = match lsof {
        Some(o) => if lines(o).len() > 1 {
            seq!["Active VNC server listening on port 5900"@]
        } else {
            seq![]
        },
        None => seq![],
    };
    let c = match spaces {
        Some(o) => space_findings(o),
        None => seq![],
    };
    a + b + c
}

pub open spec fn opt_str(o: Option<&str>) -> Option<Seq<char>> {
    match o {
        Some(s) => Some(s@),
        None => None,
    }
}

/// The hidden-desktop scan's findings from the command outputs it read.
pub fn scan_for_hidden_desktops(pgrep: Option<&str>, lsof: Option<&str>, spaces: Option<&str>) -> (r: Vec<String>)
    ensures
        crate::text::string_views(r@) == hidden_desktop_findings(
            opt_str(pgrep),
            opt_str(lsof),
            opt_str(spaces),
        ),
{
    let mut r: Vec<String> = Vec::new();
    match pgrep {
        Some(o) => {
            if line_bounds(&chars_of(o)).len() > 1 {
                r.push("Multiple active screensharingd sessions detected".to_owned());
            }
        },
        None => {},
    }
    match lsof {
        Some(o) => {
            if line_bounds(&chars_of(o)).len() > 1 {
                r.push("Active VNC server listening on port 5900".to_owned());
            }
        },
        None => {},
    }
    let ghost ab = crate::text::string_views(r@);
    match spaces {
        Some(o) => {
            let c = chars_of(o);
            let p = chars_of("id64");
            proof {
                reveal_strlit("id64");
            }
            let n = count_matches(&c, &p);
            if n > 1 {
                let mut space = String::new();
                push_str(&mut space, "Active Managed Display Spaces Count: ");
                push_decimal(&mut space, n);
                let sc = chars_of(space.as_str());
                if contains_str(&sc, "Background") || contains_str(&sc, "Virtual") || contains_str(
                    &sc,
                    "Secondary",
                ) {
                    let mut f = String::new();
                    push_str(&mut f, "Suspicious SkyLight display space: ");
                    push_str(&mut f, space.as_str());
                    r.push(f);
                    assert(crate::text::string_views(r@) =~= ab + space_findings(o@));
                } else {
                    assert(crate::text::string_views(r@) =~= ab + space_findings(o@));
                }
            } else {
                assert(crate::text::string_views(r@) =~= ab + space_findings(o@));
            }
        },
        None => {
            assert(crate::text::string_views(r@) =~= ab + Seq::<Seq<char>>::empty());
        },
    }
    assert(crate::text::string_views(r@) =~= hidden_desktop_findings(
        opt_str(pgrep),
        opt_str(lsof),
        opt_str(spaces),
    ));
    r
}

/// A lower-cased HID product name that names a virtual, driver-made or remote
/// device: it contains `virtual`, `driver` or `remote`.
pub open spec fn names_virtual_product(lower: Seq<char>) -> bool {
    contains(lower, "virtual"@) || contains(lower, "driver"@) || contains(lower, "remote"@)
}

/// Whether a HID product name, already in lower case, names a virtual device.
pub fn is_virtual_product_name(lower: &str) -> (r: bool)
    ensures
        r == names_virtual_product(lower@),
{
    let c = chars_of(lower);
    contains_str(&c, "virtual") || contains_str(&c, "driver") || contains_str(&c, "remote")
}

/// The device named by a line of `ioreg -c IOHIDDevice -r`: a `"Product" =`
/// line names it, quoted, after the first `=`.
pub open spec fn ioreg_device(line: Seq<char>) -> Option<DeviceView> {
    if contains(line, "\"Product\" ="@) {
        match second_piece(line, '=') {
            Some(v) => {
                let name = trim_char(trim(v), '"');
                Some(
                    DeviceView {
                        name,
                        vendor_id: None,
                        product_id: None,
                        bus_type: "macOS IOHID"@,
                        is_virtual: names_virtual_product(lowercase(name)),
                    },
                )
            },
            None => None,
        }
    } else {
        None
    }
}

pub open spec fn ioreg_devices_of(ls: Seq<Seq<char>>) -> Seq<DeviceView>
    decreases ls.len(),
{
    if ls.len() == 0 {
        seq![]
    } else {
        match ioreg_device(ls.last()) {
            Some(d) => ioreg_devices_of(ls.drop_last()).push(d),
            None => ioreg_devices_of(ls.drop_last()),
        }
    }
}

/// The input devices that `ioreg -c IOHIDDevice -r` lists.
pub fn audit_input_devices(out: &str) -> (r: Vec<InputDeviceInfo>)
    ensures
        r@.map_values(|d: InputDeviceInfo| d@) == ioreg_devices_of(lines(out@)),
{
    let s = chars_of(out);
    let lb = line_bounds(&s);
    let mut r: Vec<InputDeviceInfo> = Vec::new();
    let ghost ls = lines(s@);
    let mut i: usize = 0;
    assert(ls.take(0) =~= Seq::<Seq<char>>::empty());
    assert(r@.map_values(|d: InputDeviceInfo| d@) =~= Seq::<DeviceView>::empty());
    while i < lb.len()
        invariant
            i <= lb@.len(),
            ls == lines(s@),
            s@ == out@,
            lb@.len() == ls.len(),
            forall|k: int|
                #![trigger lb@[k]]
                0 <= k < lb@.len() ==> {
                    &&& lb@[k].0 <= lb@[k].1 <= s@.len()
                    &&& s@.subrange(lb@[k].0 as int, lb@[k].1 as int) == ls[k]
                },
            r@.map_values(|d: InputDeviceInfo| d@) == ioreg_devices_of(ls.take(i as int)),
        decreases lb@.len() - i,
    {
        let (a, b) = lb[i];
        let ghost line = ls[i as int];
        assert(ls.take(i + 1).drop_last() =~= ls.take(i as int));
        assert(ls.take(i + 1).last() == line);
        let lc = string_of(&s, a, b);
        if contains_str(&chars_of(lc.as_str()), "\"Product\" =") {
            match second_piece_bounds(&s, a, b, '=') {
                Some((va, vb)) => {
                    let (ta, tb) = trim_range(&s, va, vb);
                    let (na, nb) = crate::platform::linux::trim_char_bounds(&s, ta, tb, '"');
                    let name = string_of(&s, na, nb);
                    let lower = to_lowercase(name.as_str());
                    let is_virtual = is_virtual_product_name(lower.as_str());
                    let ghost r0 = r@.map_values(|d: InputDeviceInfo| d@);
                    let dev = InputDeviceInfo {
                        name,
                        vendor_id: None,
                        product_id: None,
                        bus_type: "macOS IOHID".to_owned(),
                        is_virtual,
                    };
                    r.push(dev);
                    assert(r@.map_values(|d: InputDeviceInfo| d@) =~= r0.push(dev@));
                },
                None => {},
            }
        }
        i = i + 1;
    }
    assert(ls.take(lb@.len() as int) =~= ls);
    r
}

/// The idle time in a line of `ioreg -c IOHIDSystem`: a `"HIDIdleTime" =`
/// line gives it in nanoseconds after the first `=`.
pub open spec fn hid_idle_line(line: Seq<char>) -> Option<nat> {
    if contains(line, "\"HIDIdleTime\" ="@) {
        match second_piece(line, '=') {
            Some(v) => parse_u64(trim(v)),
            None => None,
        }
    } else {
        None
    }
}

/// Whole seconds of idleness from the first line of `ls` that gives it, or 0.
pub open spec fn hid_idle_from(ls: Seq<Seq<char>>) -> nat
    decreases ls.len(),
{
    if ls.len() == 0 {
        0
    } else {
        match hid_idle_line(ls[0]) {
            Some(n) => n / 1_000_000_000,
            None => hid_idle_from(ls.drop_first()),
        }
    }
}

/// Whole seconds of idleness from the output of `ioreg -c IOHIDSystem`.
pub fn parse_hid_idle(out: &str) -> (r: u64)
    ensures
        r == hid_idle_from(lines(out@)),
{
    let s = chars_of(out);
    let lb = line_bounds(&s);
    let ghost ls = lines(s@);
    let mut i: usize = 0;
    assert(ls.skip(0) =~= ls);
    while i < lb.len()
        invariant
            i <= lb@.len(),
            ls == lines(s@),
            s@ == out@,
            lb@.len() == ls.len(),
            forall|k: int|
                #![trigger lb@[k]]
                0 <= k < lb@.len() ==> {
                    &&& lb@[k].0 <= lb@[k].1 <= s@.len()
                    &&& s@.subrange(lb@[k].0 as int, lb@[k].1 as int) == ls[k]
                },
            hid_idle_from(ls) == hid_idle_from(ls.skip(i as int)),
        decreases lb@.len() - i,
    {
        let (a, b) = lb[i];
        let ghost line = ls[i as int];
        assert(ls.skip(i as int)[0] == line);
        assert(ls.skip(i as int).drop_first() =~= ls.skip(i + 1));
        let lc = string_of(&s, a, b);
        if contains_str(&chars_of(lc.as_str()), "\"HIDIdleTime\" =") {
            match second_piece_bounds(&s, a, b, '=') {
                Some((va, vb)) => {
                    let (ta, tb) = trim_range(&s, va, vb);
                    match parse_unsigned_range(&s, ta, tb, 10, 0xffff_ffff_ffff_ffff) {
                        Some(n) => {
                            return n / 1_000_000_000;
                        },
                        None => {},
                    }
                },
                None => {},
            }
        }
        i = i + 1;
    }
    0
}

/// The remote sessions from the output of `pgrep -fl screensharingd`
/// (`None` when the command failed): the screen-sharing daemon when it runs.
pub fn scan_remote_sessions(pgrep: Option<&str>) -> (r: Vec<RemoteSessionInfo>)
    ensures
        r@.map_values(|x: RemoteSessionInfo| x@) == match pgrep {
            Some(o) => if trim(o@).len() > 0 {
                seq![
                    SessionView {
                        session_type: "macOS ScreenSharing Daemon"@,
                        identifier: "screensharingd"@,
                        details: o@,
                    },
                ]
            } else {
                seq![]
            },
            None => seq![],
        },
{
    let mut r: Vec<RemoteSessionInfo> = Vec::new();
    match pgrep {
        Some(o) => {
            let c = chars_of(o);
            let (a, b) = trim_range(&c, 0, c.len());
            assert(c@.subrange(0, c@.len() as int) =~= c@);
            if a < b {
                let sess = RemoteSessionInfo {
                    session_type: "macOS ScreenSharing Daemon".to_owned(),
                    identifier: "screensharingd".to_owned(),
                    details: o.to_owned(),
                };
                r.push(sess);
                assert(r@.map_values(|x: RemoteSessionInfo| x@) =~= seq![sess@]);
            } else {
                assert(r@.map_values(|x: RemoteSessionInfo| x@) =~= Seq::<SessionView>::empty());
            }
        },
        None => {
            assert(r@.map_values(|x: RemoteSessionInfo| x@) =~= Seq::<SessionView>::empty());
        },
    }
    r
}

/// The AppleScript of the tray's status dialog.
pub fn tray_dialog_script(afk: bool) -> (r: String)
    ensures
        r@ == "button returned of (display dialog \"KISS AV Guard Status: "@ + (if afk {
            "Active"@
        } else {
            "Inactive"@
        }) + "\" buttons {\"Toggle AFK\", \"OK\"} default button \"OK\")"@,
{
    let mut s = String::new();
    push_str(&mut s, "button returned of (display dialog \"KISS AV Guard Status: ");
    push_str(&mut s, if afk { "Active" } else { "Inactive" });
    push_str(&mut s, "\" buttons {\"Toggle AFK\", \"OK\"} default button \"OK\")");
    s
}

/// Whether the dialog's answer asks to toggle the AFK guard.
pub fn tray_toggle_requested(answer: &str) -> (r: bool)
    ensures
        r == (trim(answer@) == "Toggle AFK"@),
{
    let c = chars_of(answer);
    let (a, b) = trim_range(&c, 0, c.len());
    assert(c@.subrange(0, c@.len() as int) =~= c@);
    let t = chars_of("Toggle AFK");
    if b - a != t.len() {
        return false;
    }
    let r = crate::text::range_eq(&c, a, &t, 0, t.len());
    assert(t@.subrange(0, t@.len() as int) =~= t@);
    r
}

} // verus!
