use vstd::prelude::*;
use crate::platform::{InputSource, PermissionStatus, RemoteSessionInfo, SessionView};
use crate::text::{lowercase, push_str, string_views, to_lowercase};

verus! {

/// Low-level hooks are always available on Windows; the message tells whether
/// the token is elevated.
pub fn hook_permission_status(elevated: bool) -> (r: PermissionStatus)
    ensures
        r.hooks_available,
        r.elevation_granted == elevated,
        r.message@ == if elevated {
            "Windows low-level input hooks available with elevated token"@
        } else {
            "Windows low-level input hooks available (non-elevated token)"@
        },
{
    PermissionStatus {
        hooks_available: true,
        elevation_granted: elevated,
        message: if elevated {
            "Windows low-level input hooks available with elevated token".to_owned()
        } else {
            "Windows low-level input hooks available (non-elevated token)".to_owned()
        },
    }
}

/// The source of a keyboard event by its `KBDLLHOOKSTRUCT` flags: injected
/// (`LLKHF_INJECTED`) input is synthetic.
pub fn keyboard_event_source(flags: u32) -> (r: InputSource)
    ensures
        r == if flags & 0x10 != 0 {
            InputSource::SyntheticSoftware
        } else {
            InputSource::PhysicalHardware
        },
{
    if flags & 0x10 != 0 {
        InputSource::SyntheticSoftware
    } else {
        InputSource::PhysicalHardware
    }
}

/// The source of a mouse event by its `MSLLHOOKSTRUCT` flags: injected input
/// (`LLMHF_INJECTED` or `LLMHF_LOWER_IL_INJECTED`) is synthetic.
pub fn mouse_event_source(flags: u32) -> (r: InputSource)
    ensures
        r == if flags & 0x01 != 0 || flags & 0x02 != 0 {
            InputSource::SyntheticSoftware
        } else {
            InputSource::PhysicalHardware
        },
{
    if flags & 0x01 != 0 || flags & 0x02 != 0 {
        InputSource::SyntheticSoftware
    } else {
        InputSource::PhysicalHardware
    }
}

/// A desktop other than the standard ones (`Default`, `Winlogon`,
/// `Disconnect`, `Screen-saver`, in any case) is hidden.
pub open spec fn is_hidden_desktop_name(name: Seq<char>) -> bool {
    !is_standard_desktop(lowercase(name))
}

/// A lower-cased desktop name of one of the standard desktops.
pub open spec fn is_standard_desktop(lower: Seq<char>) -> bool {
    lower == "default"@ || lower == "winlogon"@ || lower == "disconnect"@ || lower == "screen-saver"@
}

/// Whether a desktop name, already in lower case, is one of the standard desktops.
pub fn is_standard_desktop_name(lower: &str) -> (r: bool)
    ensures
        r == is_standard_desktop(lower@),
{
    let n = lower.to_owned();
    n == "default".to_owned() || n == "winlogon".to_owned() || n == "disconnect".to_owned() || n
        == "screen-saver".to_owned()
}

/// Whether an enumerated desktop is a hidden one.
pub fn is_hidden_desktop(name: &str) -> (r: bool)
    ensures
        r == is_hidden_desktop_name(name@),
{
    let n = to_lowercase(name);
    !is_standard_desktop_name(n.as_str())
}

/// The names that the desktop enumeration reported, each kept once, where it
/// was first seen.
pub open spec fn distinct_names(names: Seq<Seq<char>>) -> Seq<Seq<char>>
    decreases names.len(),
{
    if names.len() == 0 {
        seq![]
    } else {
        let d = distinct_names(names.drop_last());
        if d.contains(names.last()) {
            d
        } else {
            d.push(names.last())
        }
    }
}

/// The hidden ones among `names`, in order.
pub open spec fn hidden_names(names: Seq<Seq<char>>) -> Seq<Seq<char>>
    decreases names.len(),
{
    if names.len() == 0 {
        seq![]
    } else if is_hidden_desktop_name(names.last()) {
        hidden_names(names.drop_last()).push(names.last())
    } else {
        hidden_names(names.drop_last())
    }
}

/// The hidden-desktop scan's findings from the desktop names that the
/// enumeration of the window stations reported: each distinct name once, the
/// standard desktops left out.
pub fn hidden_desktops(names: &Vec<String>) -> (r: Vec<String>)
    ensures
        string_views(r@) == hidden_names(distinct_names(string_views(names@))),
{
    let ghost v = string_views(names@);
    let mut seen: Vec<String> = Vec::new();
    let mut i: usize = 0;
    assert(v.take(0) =~= Seq::<Seq<char>>::empty());
    assert(string_views(seen@) =~= Seq::<Seq<char>>::empty());
    while i < names.len()
        invariant
            i <= names@.len(),
            v == string_views(names@),
            string_views(seen@) == distinct_names(v.take(i as int)),
        decreases names@.len() - i,
    {
        let name = &names[i];
        assert(v.take(i + 1).drop_last() =~= v.take(i as int));
        assert(v.take(i + 1).last() == name@);
        let ghost d = string_views(seen@);
        let mut j: usize = 0;
        let mut found = false;
        while j < seen.len()
            invariant
                j <= seen@.len(),
                d == string_views(seen@),
                found == exists|k: int| 0 <= k < j && d[k] == name@,
            decreases seen@.len() - j,
        {
            if seen[j] == *name {
                found = true;
            }
            assert(d[j as int] == seen@[j as int]@);
            j = j + 1;
        }
        proof {
            if found {
                let k = choose|k: int| 0 <= k < j && d[k] == name@;
                assert(d.contains(name@));
            } else {
                assert forall|k: int| 0 <= k < d.len() implies d[k] != name@ by {}
                assert(!d.contains(name@));
            }
        }
        if !found {
            seen.push(name.clone());
            assert(string_views(seen@) =~= d.push(name@));
        }
        i = i + 1;
    }
    assert(v.take(names@.len() as int) =~= v);
    let ghost w = string_views(seen@);
    let mut r: Vec<String> = Vec::new();
    let mut k: usize = 0;
    assert(w.take(0) =~= Seq::<Seq<char>>::empty());
    assert(string_views(r@) =~= Seq::<Seq<char>>::empty());
    while k < seen.len()
        invariant
            k <= seen@.len(),
            w == string_views(seen@),
            string_views(r@) == hidden_names(w.take(k as int)),
        decreases seen@.len() - k,
    {
        assert(w.take(k + 1).drop_last() =~= w.take(k as int));
        assert(w.take(k + 1).last() == seen@[k as int]@);
        if is_hidden_desktop(seen[k].as_str()) {
            let ghost r0 = string_views(r@);
            r.push(seen[k].clone());
            assert(string_views(r@) =~= r0.push(seen@[k as int]@));
        }
        k = k + 1;
    }
    assert(w.take(seen@.len() as int) =~= w);
    r
}

/// No name occurs twice in `s`.
pub open spec fn no_duplicates(s: Seq<Seq<char>>) -> bool {
    forall|i: int, j: int| 0 <= i < j < s.len() ==> s[i] != s[j]
}

proof fn lemma_distinct_names_unique(names: Seq<Seq<char>>)
    ensures
        no_duplicates(distinct_names(names)),
    decreases names.len(),
{
    if names.len() > 0 {
        lemma_distinct_names_unique(names.drop_last());
        let d = distinct_names(names.drop_last());
        if !d.contains(names.last()) {
            assert forall|i: int, j: int|
                0 <= i < j < d.push(names.last()).len() implies d.push(names.last())[i] != d.push(
                names.last(),
            )[j] by {
                if j == d.len() {
                    assert(d[i] == d.push(names.last())[i]);
                }
            }
        }
    }
}

proof fn lemma_hidden_names_from(s: Seq<Seq<char>>)
    ensures
        forall|i: int|
            0 <= i < hidden_names(s).len() ==> is_hidden_desktop_name(#[trigger] hidden_names(s)[i])
                && s.contains(hidden_names(s)[i]),
        no_duplicates(s) ==> no_duplicates(hidden_names(s)),
    decreases s.len(),
{
    if s.len() > 0 {
        let p = s.drop_last();
        lemma_hidden_names_from(p);
        let h = hidden_names(p);
        assert forall|i: int| 0 <= i < h.len() implies s.contains(#[trigger] h[i]) by {
            let k = choose|k: int| 0 <= k < p.len() && p[k] == h[i];
            assert(s[k] == p[k]);
        }
        if is_hidden_desktop_name(s.last()) {
            let h2 = h.push(s.last());
            assert(s[s.len() - 1] == s.last());
            assert forall|i: int| 0 <= i < h2.len() implies is_hidden_desktop_name(#[trigger] h2[i])
                && s.contains(h2[i]) by {
                if i < h.len() {
                    assert(h2[i] == h[i]);
                }
            }
            if no_duplicates(s) {
                assert(no_duplicates(p));
                assert forall|i: int, j: int| 0 <= i < j < h2.len() implies h2[i] != h2[j] by {
                    if j == h.len() {
                        assert(h2[i] == h[i]);
                        assert(p.contains(h[i]));
                        let k = choose|k: int| 0 <= k < p.len() && p[k] == h[i];
                        assert(s[k] == p[k]);
                    }
                }
            }
        } else {
            if no_duplicates(s) {
                assert(no_duplicates(p));
            }
        }
    }
}

/// The hidden-desktop scan never reports one of the standard desktops, and
/// reports each desktop once, however often the enumeration reported it.
pub proof fn lemma_hidden_desktops_exclude_standard(names: Seq<Seq<char>>)
    ensures
        forall|i: int|
            0 <= i < hidden_names(distinct_names(names)).len() ==> is_hidden_desktop_name(
                #[trigger] hidden_names(distinct_names(names))[i],
            ),
        no_duplicates(hidden_names(distinct_names(names))),
{
    lemma_distinct_names_unique(names);
    lemma_hidden_names_from(distinct_names(names));
}

/// The session reported for a hidden desktop.
pub open spec fn desktop_session(name: Seq<char>) -> SessionView {
    SessionView {
        session_type: "Hidden Win32 Desktop"@,
        identifier: name,
        details: "Suspicious background desktop found: "@ + name,
    }
}

/// The remote sessions for the hidden desktops that the scan found, in order.
pub fn desktop_sessions(desktops: &Vec<String>) -> (r: Vec<RemoteSessionInfo>)
    ensures
        r@.map_values(|x: RemoteSessionInfo| x@) == string_views(desktops@).map_values(
            |n: Seq<char>| desktop_session(n),
        ),
{
    let ghost want = string_views(desktops@).map_values(|n: Seq<char>| desktop_session(n));
    let mut r: Vec<RemoteSessionInfo> = Vec::new();
    let mut i: usize = 0;
    assert(r@.map_values(|x: RemoteSessionInfo| x@) =~= want.take(0));
    while i < desktops.len()
        invariant
            i <= desktops@.len(),
            want == string_views(desktops@).map_values(|n: Seq<char>| desktop_session(n)),
            r@.map_values(|x: RemoteSessionInfo| x@) == want.take(i as int),
        decreases desktops@.len() - i,
    {
        let mut details = String::new();
        push_str(&mut details, "Suspicious background desktop found: ");
        push_str(&mut details, desktops[i].as_str());
        let sess = RemoteSessionInfo {
            session_type: "Hidden Win32 Desktop".to_owned(),
            identifier: desktops[i].clone(),
            details,
        };
        let ghost r0 = r@.map_values(|x: RemoteSessionInfo| x@);
        r.push(sess);
        assert(want[i as int] == desktop_session(desktops@[i as int]@));
        assert(r@.map_values(|x: RemoteSessionInfo| x@) =~= r0.push(want[i as int]));
        assert(want.take(i + 1) =~= want.take(i as int).push(want[i as int]));
        i = i + 1;
    }
    assert(want.take(desktops@.len() as int) =~= want);
    r
}

/// The bus label of a raw input device by its type (`RIM_TYPEMOUSE`,
/// `RIM_TYPEKEYBOARD`, `RIM_TYPEHID`).
pub fn raw_device_type_label(device_type: u32) -> (r: String)
    ensures
        r@ == if device_type == 0 {
            "Mouse"@
        } else if device_type == 1 {
            "Keyboard"@
        } else if device_type == 2 {
            "HID Device"@
        } else {
            "Unknown"@
        },
{
    if device_type == 0 {
        "Mouse".to_owned()
    } else if device_type == 1 {
        "Keyboard".to_owned()
    } else if device_type == 2 {
        "HID Device".to_owned()
    } else {
        "Unknown".to_owned()
    }
}

/// Whole seconds since the last input, from the tick counts; zero if the last
/// input is reported after the current tick.
pub fn idle_secs_from_ticks(uptime_ms: u64, last_input_ms: u64) -> (r: u64)
    ensures
        r == if uptime_ms >= last_input_ms {
            (uptime_ms - last_input_ms) / 1000
        } else {
            0
        },
{
    if uptime_ms >= last_input_ms {
        (uptime_ms - last_input_ms) / 1000
    } else {
        0
    }
}

/// The tray menu's AFK entry for the guard's state (`None` before the tray knows it).
pub fn tray_afk_label(afk: Option<bool>) -> (r: String)
    ensures
        r@ == match afk {
            Some(true) => "Disable AFK Mode"@,
            Some(false) => "Enable AFK Mode"@,
            None => "Toggle AFK Mode"@,
        },
{
    match afk {
        Some(true) => "Disable AFK Mode".to_owned(),
        Some(false) => "Enable AFK Mode".to_owned(),
        None => "Toggle AFK Mode".to_owned(),
    }
}

} // verus!
