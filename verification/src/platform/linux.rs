use vstd::prelude::*;
use crate::platform::{DeviceView, InputDeviceInfo, PermissionStatus, RemoteSessionInfo, SessionView};
use crate::text::{
    chars_of, contains, contains_str, decimal, line_bounds, lines, lowercase, parse_hex_u16,
    parse_u64, parse_unsigned_range, push_char, push_decimal, push_str, range_starts_with,
    replace_char, second_piece, starts_with, string_of, strip_all_prefix, to_lowercase, trim,
    trim_char, trim_range, word_bounds, words, char_index_from, lemma_char_index_bounds,
};

verus! {

/// What the hook permission check decides from what it found: hooks are
/// available when an input event device can be opened, or when elevated
/// outside a Wayland session.
pub open spec fn hooks_available(elevated: bool, event_device_readable: bool, wayland: bool) -> bool {
    event_device_readable || (!wayland && elevated)
}

/// The permission status for the facts the check gathered.
pub fn hook_permission_status(elevated: bool, event_device_readable: bool, wayland: bool) -> (r:
    PermissionStatus)
    ensures
        r.hooks_available == hooks_available(elevated, event_device_readable, wayland),
        r.elevation_granted == elevated,
        r.message@ == if r.hooks_available {
            "Linux input hook permission granted"@
        } else {
            "Linux input hook permissions denied or un-privileged Wayland; falling back to Heartbeat Delta Engine"@
        },
{
    let available = event_device_readable || (!wayland && elevated);
    PermissionStatus {
        hooks_available: available,
        elevation_granted: elevated,
        message: if available {
            "Linux input hook permission granted".to_owned()
        } else {
            "Linux input hook permissions denied or un-privileged Wayland; falling back to Heartbeat Delta Engine".to_owned()
        },
    }
}

/// Whether an entry of `/dev/input` is an event device (its path names `event`).
pub fn is_event_device(path: &str) -> (r: bool)
    ensures
        r == contains(path@, "event"@),
{
    contains_str(&chars_of(path), "event")
}

/// Remote-desktop and virtual-display servers recognised in a process command line.
pub open spec fn is_remote_desktop_cmdline(cmdline: Seq<char>) -> bool {
    ||| contains(cmdline, "Xvfb"@)
    ||| contains(cmdline, "x11vnc"@)
    ||| contains(cmdline, "tightvncserver"@)
    ||| contains(cmdline, "tigervnc"@)
    ||| contains(cmdline, "xrdp"@)
}

/// The finding for a process's `/proc/<pid>/cmdline`, with its NUL separators shown as spaces.
pub open spec fn cmdline_finding(cmdline: Seq<char>) -> Option<Seq<char>> {
    if is_remote_desktop_cmdline(cmdline) {
        Some("Virtual Desktop Process: "@ + replace_char(cmdline, '\0', ' '))
    } else {
        None
    }
}

/// The port in a line of `/proc/net/tcp`: the hexadecimal number after the
/// first `:` of the second field.
pub open spec fn tcp_line_port(line: Seq<char>) -> Option<nat> {
    let f = words(line);
    if f.len() > 1 {
        match second_piece(f[1], ':') {
            Some(h) => parse_hex_u16(h),
            None => None,
        }
    } else {
        None
    }
}

/// A VNC port (5900–5999) or VNC web port (5800–5899).
pub open spec fn is_vnc_port(p: nat) -> bool {
    5800 <= p <= 5999
}

/// The VNC ports of the table lines `ls`, in order.
pub open spec fn vnc_ports_of(ls: Seq<Seq<char>>) -> Seq<nat>
    decreases ls.len(),
{
    if ls.len() == 0 {
        seq![]
    } else {
        let r = vnc_ports_of(ls.drop_last());
        match tcp_line_port(ls.last()) {
            Some(p) => if is_vnc_port(p) {
                r.push(p)
            } else {
                r
            },
            None => r,
        }
    }
}

/// The VNC ports a `/proc/net/tcp` table lists, header line excluded.
pub open spec fn vnc_ports(table: Seq<char>) -> Seq<nat> {
    if lines(table).len() == 0 {
        seq![]
    } else {
        vnc_ports_of(lines(table).drop_first())
    }
}

/// The finding for an entry of `/tmp/.X11-unix`: every display other than `X0`.
pub open spec fn x11_socket_finding(name: Seq<char>) -> Option<Seq<char>> {
    if name.len() > 0 && name[0] == 'X' && name != "X0"@ {
        Some("Secondary X11 socket display index detected: "@ + name)
    } else {
        None
    }
}

pub open spec fn some_values(s: Seq<Option<Seq<char>>>) -> Seq<Seq<char>>
    decreases s.len(),
{
    if s.len() == 0 {
        seq![]
    } else {
        match s.last() {
            Some(v) => some_values(s.drop_last()).push(v),
            None => some_values(s.drop_last()),
        }
    }
}

/// All findings of the hidden-desktop scan: remote-desktop processes, then VNC
/// ports of each table, then secondary X11 displays.
pub open spec fn hidden_desktop_findings(
    cmdlines: Seq<Seq<char>>,
    tcp_tables: Seq<Seq<char>>,
    x11_names: Seq<Seq<char>>,
) -> Seq<Seq<char>> {
    some_values(cmdlines.map_values(|c: Seq<char>| cmdline_finding(c))) + tcp_tables.map_values(
        |t: Seq<char>|
            vnc_ports(t).map_values(|p: nat| "Active VNC listening port detected: "@ + decimal(p)),
    ).flatten() + some_values(x11_names.map_values(|n: Seq<char>| x11_socket_finding(n)))
}

fn some_push(out: &mut Vec<String>, v: Option<String>)
    ensures
        crate::text::string_views(final(out)@) == match v {
            Some(s) => crate::text::string_views(old(out)@).push(s@),
            None => crate::text::string_views(old(out)@),
        },
{
    match v {
        Some(s) => {
            let ghost o = out@;
            out.push(s);
            assert(crate::text::string_views(out@) =~= crate::text::string_views(o).push(s@));
        },
        None => {},
    }
}

/// The finding for one process command line.
pub fn cmdline_finding_of(cmdline: &str) -> (r: Option<String>)
    ensures
        match cmdline_finding(cmdline@) {
            Some(f) => r is Some && r->0@ == f,
            None => r is None,
        },
{
    let c = chars_of(cmdline);
    if contains_str(&c, "Xvfb") || contains_str(&c, "x11vnc") || contains_str(&c, "tightvncserver")
        || contains_str(&c, "tigervnc") || contains_str(&c, "xrdp") {
        let mut s = String::new();
        push_str(&mut s, "Virtual Desktop Process: ");
        let ghost s0 = s@;
        let mut i: usize = 0;
        while i < c.len()
            invariant
                i <= c@.len(),
                s@ == s0 + replace_char(c@, '\0', ' ').take(i as int),
            decreases c@.len() - i,
        {
            let ch = if c[i] == '\0' {
                ' '
            } else {
                c[i]
            };
            push_char(&mut s, ch);
            assert(replace_char(c@, '\0', ' ').take(i + 1) =~= replace_char(c@, '\0', ' ').take(
                i as int,
            ).push(ch));
            i = i + 1;
        }
        assert(replace_char(c@, '\0', ' ').take(c@.len() as int) =~= replace_char(c@, '\0', ' '));
        Some(s)
    } else {
        None
    }
}

/// The port in one line of a `/proc/net/tcp` table, given as `s[a..b]`.
fn tcp_line_port_of(s: &Vec<char>, a: usize, b: usize) -> (r: Option<u16>)
    requires
        a <= b <= s@.len(),
    ensures
        match tcp_line_port(s@.subrange(a as int, b as int)) {
            Some(p) => r == Some(p as u16),
            None => r is None,
        },
{
    let ghost line = s@.subrange(a as int, b as int);
    let f = word_bounds(s, a, b);
    if f.len() <= 1 {
        return None;
    }
    let (fa, fb) = f[1];
    let ghost field = s@.subrange(fa as int, fb as int);
    assert(field == words(line)[1]);
    let mut k = fa;
    while k < fb && s[k] != ':'
        invariant
            fa <= k <= fb <= s@.len(),
            field == s@.subrange(fa as int, fb as int),
            char_index_from(field, ':', 0) == char_index_from(field, ':', k - fa),
        decreases fb - k,
    {
        assert(field[k - fa] == s@[k as int]);
        k = k + 1;
    }
    proof {
        if k < fb {
            assert(field[k - fa] == s@[k as int]);
        }
    }
    assert(char_index_from(field, ':', 0) == k - fa);
    if k == fb {
        return None;
    }
    let mut e = k + 1;
    while e < fb && s[e] != ':'
        invariant
            fa <= k < e <= fb <= s@.len(),
            field == s@.subrange(fa as int, fb as int),
            char_index_from(field, ':', k + 1 - fa) == char_index_from(field, ':', e - fa),
        decreases fb - e,
    {
        assert(field[e - fa] == s@[e as int]);
        e = e + 1;
    }
    proof {
        if e < fb {
            assert(field[e - fa] == s@[e as int]);
        }
    }
    assert(char_index_from(field, ':', k + 1 - fa) == e - fa);
    assert(field.subrange(k + 1 - fa, e - fa) =~= s@.subrange(k + 1, e as int));
    match parse_unsigned_range(s, k + 1, e, 16, 0xffff) {
        Some(v) => Some(v as u16),
        None => None,
    }
}

/// The VNC ports a `/proc/net/tcp` table lists.
pub fn vnc_ports_in(table: &str) -> (r: Vec<u16>)
    ensures
        r@.map_values(|p: u16| p as nat) == vnc_ports(table@),
{
    let s = chars_of(table);
    let lb = line_bounds(&s);
    let mut r: Vec<u16> = Vec::new();
    if lb.len() == 0 {
        assert(r@.map_values(|p: u16| p as nat) =~= Seq::<nat>::empty());
        return r;
    }
    let ghost ls = lines(s@).drop_first();
    let mut i: usize = 1;
    assert(ls.take(0) =~= Seq::<Seq<char>>::empty());
    assert(r@.map_values(|p: u16| p as nat) =~= Seq::<nat>::empty());
    while i < lb.len()
        invariant
            1 <= i <= lb@.len(),
            lb@.len() == lines(s@).len(),
            forall|k: int|
                #![trigger lb@[k]]
                0 <= k < lb@.len() ==> {
                    &&& lb@[k].0 <= lb@[k].1 <= s@.len()
                    &&& s@.subrange(lb@[k].0 as int, lb@[k].1 as int) == lines(s@)[k]
                },
            ls == lines(s@).drop_first(),
            r@.map_values(|p: u16| p as nat) == vnc_ports_of(ls.take(i - 1)),
        decreases lb@.len() - i,
    {
        let (a, b) = lb[i];
        let ghost r0 = r@.map_values(|p: u16| p as nat);
        assert(ls.take(i as int).drop_last() =~= ls.take(i - 1));
        assert(ls.take(i as int).last() == lines(s@)[i as int]);
        match tcp_line_port_of(&s, a, b) {
            Some(p) => {
                if 5800 <= p && p <= 5999 {
                    r.push(p);
                    assert(r@.map_values(|p: u16| p as nat) =~= r0.push(p as nat));
                }
            },
            None => {},
        }
        i = i + 1;
    }
    assert(ls.take(lb@.len() - 1) =~= ls);
    r
}

/// The finding for one entry of `/tmp/.X11-unix`.
pub fn x11_socket_finding_of(name: &str) -> (r: Option<String>)
    ensures
        match x11_socket_finding(name@) {
            Some(f) => r is Some && r->0@ == f,
            None => r is None,
        },
{
    let c = chars_of(name);
    proof {
        reveal_strlit("X0");
    }
    if c.len() > 0 && c[0] == 'X' && !(c.len() == 2 && c[1] == '0') {
        let mut s = String::new();
        push_str(&mut s, "Secondary X11 socket display index detected: ");
        push_str(&mut s, name);
        Some(s)
    } else {
        proof {
            if c@.len() == 2 && c@[0] == 'X' && c@[1] == '0' {
                assert(c@ =~= "X0"@);
            }
        }
        None
    }
}

/// The hidden-desktop scan's findings from what it read: the command lines of
/// the processes, the TCP tables and the entries of the X11 socket directory.
pub fn scan_for_hidden_desktops(cmdlines: &Vec<String>, tcp_tables: &Vec<String>, x11_names: &Vec<String>) -> (r: Vec<String>)
    ensures
        crate::text::string_views(r@) == hidden_desktop_findings(
            crate::text::string_views(cmdlines@),
            crate::text::string_views(tcp_tables@),
            crate::text::string_views(x11_names@),
        ),
{
    let mut r: Vec<String> = Vec::new();
    let ghost c = crate::text::string_views(cmdlines@).map_values(|c: Seq<char>| cmdline_finding(c));
    let mut i: usize = 0;
    assert(c.take(0) =~= Seq::<Option<Seq<char>>>::empty());
    assert(crate::text::string_views(r@) =~= Seq::<Seq<char>>::empty());
    while i < cmdlines.len()
        invariant
            i <= cmdlines@.len(),
            c == crate::text::string_views(cmdlines@).map_values(|c: Seq<char>| cmdline_finding(c)),
            crate::text::string_views(r@) == some_values(c.take(i as int)),
        decreases cmdlines@.len() - i,
    {
        let f = cmdline_finding_of(cmdlines[i].as_str());
        assert(c.take(i + 1).drop_last() =~= c.take(i as int));
        some_push(&mut r, f);
        i = i + 1;
    }
    assert(c.take(cmdlines@.len() as int) =~= c);
    let ghost part1 = crate::text::string_views(r@);
    let ghost t = crate::text::string_views(tcp_tables@).map_values(
        |t: Seq<char>|
            vnc_ports(t).map_values(|p: nat| "Active VNC listening port detected: "@ + decimal(p)),
    );
    let mut j: usize = 0;
    assert(t.take(0).flatten() =~= Seq::<Seq<char>>::empty());
    assert(part1 + t.take(0).flatten() =~= part1);
    while j < tcp_tables.len()
        invariant
            j <= tcp_tables@.len(),
            t == crate::text::string_views(tcp_tables@).map_values(
                |t: Seq<char>|
                    vnc_ports(t).map_values(|p: nat| "Active VNC listening port detected: "@ + decimal(p)),
            ),
            crate::text::string_views(r@) == part1 + t.take(j as int).flatten(),
        decreases tcp_tables@.len() - j,
    {
        let ports = vnc_ports_in(tcp_tables[j].as_str());
        let ghost before = crate::text::string_views(r@);
        let ghost msgs = t[j as int];
        assert(crate::text::string_views(tcp_tables@)[j as int] == tcp_tables@[j as int]@);
        assert(msgs.len() == ports@.len()) by {
            assert(ports@.map_values(|p: u16| p as nat).len() == ports@.len());
        }
        let mut k: usize = 0;
        assert(msgs.take(0) =~= Seq::<Seq<char>>::empty());
        assert(before + msgs.take(0) =~= before);
        while k < ports.len()
            invariant
                k <= ports@.len(),
                msgs == vnc_ports(crate::text::string_views(tcp_tables@)[j as int]).map_values(
                    |p: nat| "Active VNC listening port detected: "@ + decimal(p),
                ),
                ports@.map_values(|p: u16| p as nat) == vnc_ports(tcp_tables@[j as int]@),
                crate::text::string_views(tcp_tables@)[j as int] == tcp_tables@[j as int]@,
                msgs.len() == ports@.len(),
                crate::text::string_views(r@) == before + msgs.take(k as int),
            decreases ports@.len() - k,
        {
            let mut m = String::new();
            push_str(&mut m, "Active VNC listening port detected: ");
            push_decimal(&mut m, ports[k] as u64);
            let ghost r0 = r@;
            r.push(m);
            assert(ports@.map_values(|p: u16| p as nat)[k as int] == ports@[k as int] as nat);
            assert(msgs[k as int] == "Active VNC listening port detected: "@ + decimal(
                ports@[k as int] as nat,
            ));
            assert(crate::text::string_views(r@) =~= crate::text::string_views(r0).push(m@));
            assert(msgs.take(k + 1) =~= msgs.take(k as int).push(msgs[k as int]));
            k = k + 1;
        }
        assert(msgs.take(ports@.len() as int) =~= msgs);
        proof {
            lemma_flatten_take_step(t, j as int);
        }
        j = j + 1;
    }
    assert(t.take(tcp_tables@.len() as int) =~= t);
    let ghost part2 = crate::text::string_views(r@);
    let ghost x = crate::text::string_views(x11_names@).map_values(|n: Seq<char>| x11_socket_finding(n));
    let mut k: usize = 0;
    assert(x.take(0) =~= Seq::<Option<Seq<char>>>::empty());
    assert(part2 + some_values(x.take(0)) =~= part2);
    while k < x11_names.len()
        invariant
            k <= x11_names@.len(),
            x == crate::text::string_views(x11_names@).map_values(|n: Seq<char>| x11_socket_finding(n)),
            crate::text::string_views(r@) == part2 + some_values(x.take(k as int)),
        decreases x11_names@.len() - k,
    {
        let f = x11_socket_finding_of(x11_names[k].as_str());
        assert(x.take(k + 1).drop_last() =~= x.take(k as int));
        let ghost b = crate::text::string_views(r@);
        some_push(&mut r, f);
        proof {
            match x[k as int] {
                Some(v) => {
                    assert(part2 + some_values(x.take(k + 1)) =~= b.push(v));
                },
                None => {},
            }
        }
        k = k + 1;
    }
    assert(x.take(x11_names@.len() as int) =~= x);
    r
}

proof fn lemma_flatten_take_step(t: Seq<Seq<Seq<char>>>, j: int)
    requires
        0 <= j < t.len(),
    ensures
        t.take(j + 1).flatten() == t.take(j).flatten() + t[j],
{
    assert(t.take(j + 1).drop_last() =~= t.take(j));
    t.take(j).lemma_flatten_push(t[j]);
    assert(t.take(j).push(t[j]) =~= t.take(j + 1));
}


/// The state of the `/proc/bus/input/devices` reader: the fields of the device
/// being read, and the devices completed so far.
pub struct DeviceScan {
    pub name: Seq<char>,
    pub bus: Seq<char>,
    pub vendor: Option<u16>,
    pub product: Option<u16>,
    pub devices: Seq<DeviceView>,
}

pub open spec fn scan_start() -> DeviceScan {
    DeviceScan { name: seq![], bus: seq![], vendor: None, product: None, devices: seq![] }
}

pub open spec fn hex_u16(s: Seq<char>) -> Option<u16> {
    match parse_hex_u16(s) {
        Some(v) => Some(v as u16),
        None => None,
    }
}

/// A device is virtual by its bus (`0006` virtual, `0000` none) or by a
/// name (in lower case) that names a software input driver.
pub open spec fn is_virtual_device(name: Seq<char>, bus: Seq<char>) -> bool {
    ||| bus == "0006"@
    ||| bus == "0000"@
    ||| names_virtual_driver(lowercase(name))
}

/// A lower-cased device name that names a software input driver: it contains
/// `uinput`, `vmmouse`, `xdotool`, `ydotool` or `virtual`.
pub open spec fn names_virtual_driver(lower: Seq<char>) -> bool {
    ||| contains(lower, "uinput"@)
    ||| contains(lower, "vmmouse"@)
    ||| contains(lower, "xdotool"@)
    ||| contains(lower, "ydotool"@)
    ||| contains(lower, "virtual"@)
}

/// Whether a device name, already in lower case, names a software input driver.
pub fn is_virtual_driver_name(lower: &str) -> (r: bool)
    ensures
        r == names_virtual_driver(lower@),
{
    let c = chars_of(lower);
    contains_str(&c, "uinput") || contains_str(&c, "vmmouse") || contains_str(&c, "xdotool")
        || contains_str(&c, "ydotool") || contains_str(&c, "virtual")
}

/// One field of an `I:` line: `Bus=`, `Vendor=` or `Product=` sets its value.
pub open spec fn scan_field(st: DeviceScan, part: Seq<char>) -> DeviceScan {
    if starts_with(part, "Bus="@) {
        DeviceScan { bus: part.skip(4), ..st }
    } else if starts_with(part, "Vendor="@) {
        DeviceScan { vendor: hex_u16(part.skip(7)), ..st }
    } else if starts_with(part, "Product="@) {
        DeviceScan { product: hex_u16(part.skip(8)), ..st }
    } else {
        st
    }
}

pub open spec fn scan_fields(st: DeviceScan, parts: Seq<Seq<char>>) -> DeviceScan
    decreases parts.len(),
{
    if parts.len() == 0 {
        st
    } else {
        scan_field(scan_fields(st, parts.drop_last()), parts.last())
    }
}

/// One line of the device list: `N: Name=` names the device, `I: Bus=` gives
/// its ids, and an empty line completes it (when it has a name) and starts the next.
pub open spec fn scan_line(st: DeviceScan, line: Seq<char>) -> DeviceScan {
    if starts_with(line, "N: Name="@) {
        DeviceScan { name: trim_char(strip_all_prefix(line, "N: Name="@), '"'), ..st }
    } else if starts_with(line, "I: Bus="@) {
        scan_fields(st, words(line))
    } else if line.len() == 0 {
        let devices = if st.name.len() > 0 {
            st.devices.push(
                DeviceView {
                    name: st.name,
                    vendor_id: st.vendor,
                    product_id: st.product,
                    bus_type: st.bus,
                    is_virtual: is_virtual_device(st.name, st.bus),
                },
            )
        } else {
            st.devices
        };
        DeviceScan { devices, ..scan_start() }
    } else {
        st
    }
}

pub open spec fn scan_lines(st: DeviceScan, ls: Seq<Seq<char>>) -> DeviceScan
    decreases ls.len(),
{
    if ls.len() == 0 {
        st
    } else {
        scan_line(scan_lines(st, ls.drop_last()), ls.last())
    }
}

/// The devices that `/proc/bus/input/devices` lists.
pub open spec fn input_devices(content: Seq<char>) -> Seq<DeviceView> {
    scan_lines(scan_start(), lines(content)).devices
}

/// `s[a..b]` with every leading copy of `p` removed, as bounds.
fn strip_all_prefix_range(s: &Vec<char>, a: usize, b: usize, p: &Vec<char>) -> (r: usize)
    requires
        a <= b <= s@.len(),
    ensures
        a <= r <= b,
        s@.subrange(r as int, b as int) == strip_all_prefix(s@.subrange(a as int, b as int), p@),
{
    let mut i = a;
    if p.len() == 0 {
        return a;
    }
    while range_starts_with(s, i, b, p)
        invariant
            a <= i <= b <= s@.len(),
            p@.len() > 0,
            strip_all_prefix(s@.subrange(a as int, b as int), p@) == strip_all_prefix(
                s@.subrange(i as int, b as int),
                p@,
            ),
        decreases b - i,
    {
        assert(s@.subrange(i as int, b as int).skip(p@.len() as int) =~= s@.subrange(
            i + p@.len(),
            b as int,
        ));
        i = i + p.len();
    }
    i
}

/// `s[a..b]` with every leading and trailing `c` removed, as bounds.
pub fn trim_char_bounds(s: &Vec<char>, a: usize, b: usize, c: char) -> (r: (usize, usize))
    requires
        a <= b <= s@.len(),
    ensures
        a <= r.0 <= r.1 <= b,
        s@.subrange(r.0 as int, r.1 as int) == trim_char(s@.subrange(a as int, b as int), c),
{
    let mut i = a;
    while i < b && s[i] == c
        invariant
            a <= i <= b <= s@.len(),
            trim_char(s@.subrange(a as int, b as int), c) == trim_char(
                s@.subrange(i as int, b as int),
                c,
            ),
        decreases b - i,
    {
        assert(s@.subrange(i as int, b as int).drop_first() =~= s@.subrange(i + 1, b as int));
        i = i + 1;
    }
    let mut j = b;
    while j > i && s[j - 1] == c
        invariant
            a <= i <= j <= b <= s@.len(),
            i < j ==> s@[i as int] != c,
            i == j || i == b || s@[i as int] != c,
            trim_char(s@.subrange(a as int, b as int), c) == trim_char(
                s@.subrange(i as int, j as int),
                c,
            ),
        decreases j - i,
    {
        assert(s@.subrange(i as int, j as int).drop_last() =~= s@.subrange(i as int, j - 1));
        proof {
            let t = s@.subrange(i as int, j as int);
            if t.len() > 0 && t[0] == c {
                assert(t[0] == s@[i as int]);
            }
        }
        j = j - 1;
    }
    proof {
        let t = s@.subrange(i as int, j as int);
        if t.len() > 0 {
            assert(t[0] == s@[i as int]);
            assert(t.last() == s@[j - 1]);
        }
    }
    (i, j)
}

/// Reads `/proc/bus/input/devices`: the devices it lists, each with its name,
/// bus, vendor and product ids, and whether it is a virtual (software) driver.
pub fn audit_input_devices(content: &str) -> (r: Vec<InputDeviceInfo>)
    ensures
        r@.map_values(|d: InputDeviceInfo| d@) == input_devices(content@),
{
    let s = chars_of(content);
    let lb = line_bounds(&s);
    let name_prefix = chars_of("N: Name=");
    let bus_prefix = chars_of("I: Bus=");
    let mut name = String::new();
    let mut bus = String::new();
    let mut vendor: Option<u16> = None;
    let mut product: Option<u16> = None;
    let mut devices: Vec<InputDeviceInfo> = Vec::new();
    let ghost ls = lines(s@);
    let mut i: usize = 0;
    assert(ls.take(0) =~= Seq::<Seq<char>>::empty());
    assert(devices@.map_values(|d: InputDeviceInfo| d@) =~= Seq::<DeviceView>::empty());
    assert(name@ =~= Seq::<char>::empty());
    assert(bus@ =~= Seq::<char>::empty());
    while i < lb.len()
        invariant
            i <= lb@.len(),
            ls == lines(s@),
            s@ == content@,
            name_prefix@ == "N: Name="@,
            bus_prefix@ == "I: Bus="@,
            lb@.len() == ls.len(),
            forall|k: int|
                #![trigger lb@[k]]
                0 <= k < lb@.len() ==> {
                    &&& lb@[k].0 <= lb@[k].1 <= s@.len()
                    &&& s@.subrange(lb@[k].0 as int, lb@[k].1 as int) == ls[k]
                },
            scan_lines(scan_start(), ls.take(i as int)) == (DeviceScan {
                name: name@,
                bus: bus@,
                vendor,
                product,
                devices: devices@.map_values(|d: InputDeviceInfo| d@),
            }),
        decreases lb@.len() - i,
    {
        let (a, b) = lb[i];
        let ghost line = ls[i as int];
        let ghost st = scan_lines(scan_start(), ls.take(i as int));
        assert(ls.take(i + 1).drop_last() =~= ls.take(i as int));
        assert(ls.take(i + 1).last() == line);
        assert(s@.subrange(a as int, b as int) == line);
        if range_starts_with(&s, a, b, &name_prefix) {
            let c = strip_all_prefix_range(&s, a, b, &name_prefix);
            let (x, y) = trim_char_bounds(&s, c, b, '"');
            name = string_of(&s, x, y);
        } else if range_starts_with(&s, a, b, &bus_prefix) {
            let wb = word_bounds(&s, a, b);
            let ghost parts = words(line);
            let mut k: usize = 0;
            assert(parts.take(0) =~= Seq::<Seq<char>>::empty());
            while k < wb.len()
                invariant
                    a <= b <= s@.len(),
                    k <= wb@.len(),
                    wb@.len() == parts.len(),
                    parts == words(s@.subrange(a as int, b as int)),
                    forall|m: int|
                        #![trigger wb@[m]]
                        0 <= m < wb@.len() ==> {
                            &&& a <= wb@[m].0 <= wb@[m].1 <= b
                            &&& s@.subrange(wb@[m].0 as int, wb@[m].1 as int) == parts[m]
                        },
                    scan_fields(st, parts.take(k as int)) == (DeviceScan {
                        name: name@,
                        bus: bus@,
                        vendor,
                        product,
                        devices: devices@.map_values(|d: InputDeviceInfo| d@),
                    }),
                decreases wb@.len() - k,
            {
                let (pa, pb) = wb[k];
                let ghost part = parts[k as int];
                assert(parts.take(k + 1).drop_last() =~= parts.take(k as int));
                assert(parts.take(k + 1).last() == part);
                let bp = chars_of("Bus=");
                let vp = chars_of("Vendor=");
                let pp = chars_of("Product=");
                proof {
                    reveal_strlit("Bus=");
                    reveal_strlit("Vendor=");
                    reveal_strlit("Product=");
                }
                if range_starts_with(&s, pa, pb, &bp) {
                    bus = string_of(&s, pa + 4, pb);
                    proof {
                        reveal_strlit("Bus=");
                        assert(part.skip(4) =~= s@.subrange(pa + 4, pb as int));
                    }
                } else if range_starts_with(&s, pa, pb, &vp) {
                    proof {
                        reveal_strlit("Vendor=");
                        assert(part.skip(7) =~= s@.subrange(pa + 7, pb as int));
                    }
                    vendor = match parse_unsigned_range(&s, pa + 7, pb, 16, 0xffff) {
                        Some(v) => Some(v as u16),
                        None => None,
                    };
                } else if range_starts_with(&s, pa, pb, &pp) {
                    proof {
                        reveal_strlit("Product=");
                        assert(part.skip(8) =~= s@.subrange(pa + 8, pb as int));
                    }
                    product = match parse_unsigned_range(&s, pa + 8, pb, 16, 0xffff) {
                        Some(v) => Some(v as u16),
                        None => None,
                    };
                }
                k = k + 1;
            }
            assert(parts.take(wb@.len() as int) =~= parts);
        } else if a == b {
            if name.unicode_len() > 0 {
                let lower = to_lowercase(name.as_str());
                let bus_c = chars_of(bus.as_str());
                let is_virtual = {
                    proof {
                        reveal_strlit("0006");
                        reveal_strlit("0000");
                    }
                    let virt_bus = (bus_c.len() == 4 && bus_c[0] == '0' && bus_c[1] == '0'
                        && bus_c[2] == '0' && bus_c[3] == '6') || (bus_c.len() == 4 && bus_c[0]
                        == '0' && bus_c[1] == '0' && bus_c[2] == '0' && bus_c[3] == '0');
                    proof {
                        if bus@ == "0006"@ || bus@ == "0000"@ {
                            assert(bus_c@[0] == bus@[0]);
                        }
                        if bus_c@.len() == 4 && bus_c@[0] == '0' && bus_c@[1] == '0' && bus_c@[2]
                            == '0' && (bus_c@[3] == '6' || bus_c@[3] == '0') {
                            assert(bus_c@ =~= "0006"@ || bus_c@ =~= "0000"@);
                        }
                    }
                    virt_bus || is_virtual_driver_name(lower.as_str())
                };
                let ghost d0 = devices@.map_values(|d: InputDeviceInfo| d@);
                let dev = InputDeviceInfo {
                    name: name.clone(),
                    vendor_id: vendor,
                    product_id: product,
                    bus_type: bus.clone(),
                    is_virtual,
                };
                devices.push(dev);
                assert(devices@.map_values(|d: InputDeviceInfo| d@) =~= d0.push(dev@));
            }
            name = String::new();
            bus = String::new();
            vendor = None;
            product = None;
        } else {
            proof {
                reveal_strlit("N: Name=");
                reveal_strlit("I: Bus=");
            }
        }
        i = i + 1;
    }
    assert(ls.take(lb@.len() as int) =~= ls);
    devices
}


/// The session for an entry of `/tmp/.X11-unix`: every display other than `X0`.
pub open spec fn x11_session(name: Seq<char>) -> Option<SessionView> {
    if name.len() > 0 && name[0] == 'X' && name != "X0"@ {
        Some(
            SessionView {
                session_type: "X11 Secondary Socket"@,
                identifier: name,
                details: "Found X11 unix socket at /tmp/.X11-unix/"@ + name,
            },
        )
    } else {
        None
    }
}

pub open spec fn some_sessions(s: Seq<Option<SessionView>>) -> Seq<SessionView>
    decreases s.len(),
{
    if s.len() == 0 {
        seq![]
    } else {
        match s.last() {
            Some(v) => some_sessions(s.drop_last()).push(v),
            None => some_sessions(s.drop_last()),
        }
    }
}

pub open spec fn portal_session() -> SessionView {
    SessionView {
        session_type: "Freedesktop RemoteDesktop Portal"@,
        identifier: "org.freedesktop.portal.RemoteDesktop"@,
        details: "RemoteDesktop DBus Portal service active"@,
    }
}

/// The remote sessions: secondary X11 displays, then the RemoteDesktop portal
/// when the DBus query answered with a version.
pub open spec fn remote_sessions(x11_names: Seq<Seq<char>>, portal_reply: Option<Seq<char>>) -> Seq<SessionView> {
    some_sessions(x11_names.map_values(|n: Seq<char>| x11_session(n))) + match portal_reply {
        Some(out) => if contains(out, "uint32"@) {
            seq![portal_session()]
        } else {
            seq![]
        },
        None => seq![],
    }
}

/// The remote sessions found from the X11 socket directory and the reply of
/// the DBus query for the RemoteDesktop portal (`None` when the query failed).
pub fn scan_remote_sessions(x11_names: &Vec<String>, portal_reply: Option<&str>) -> (r: Vec<RemoteSessionInfo>)
    ensures
        r@.map_values(|x: RemoteSessionInfo| x@) == remote_sessions(
            crate::text::string_views(x11_names@),
            match portal_reply {
                Some(o) => Some(o@),
                None => None,
            },
        ),
{
    let mut r: Vec<RemoteSessionInfo> = Vec::new();
    let ghost x = crate::text::string_views(x11_names@).map_values(|n: Seq<char>| x11_session(n));
    let mut i: usize = 0;
    assert(x.take(0) =~= Seq::<Option<SessionView>>::empty());
    assert(r@.map_values(|x: RemoteSessionInfo| x@) =~= Seq::<SessionView>::empty());
    while i < x11_names.len()
        invariant
            i <= x11_names@.len(),
            x == crate::text::string_views(x11_names@).map_values(|n: Seq<char>| x11_session(n)),
            r@.map_values(|x: RemoteSessionInfo| x@) == some_sessions(x.take(i as int)),
        decreases x11_names@.len() - i,
    {
        let name = &x11_names[i];
        let c = chars_of(name.as_str());
        assert(x.take(i + 1).drop_last() =~= x.take(i as int));
        assert(x[i as int] == x11_session(name@));
        proof {
            reveal_strlit("X0");
        }
        if c.len() > 0 && c[0] == 'X' && !(c.len() == 2 && c[1] == '0') {
            let mut details = String::new();
            push_str(&mut details, "Found X11 unix socket at /tmp/.X11-unix/");
            push_str(&mut details, name.as_str());
            let ghost r0 = r@.map_values(|x: RemoteSessionInfo| x@);
            let sess = RemoteSessionInfo {
                session_type: "X11 Secondary Socket".to_owned(),
                identifier: name.clone(),
                details,
            };
            r.push(sess);
            assert(r@.map_values(|x: RemoteSessionInfo| x@) =~= r0.push(sess@));
        } else {
            proof {
                if c@.len() == 2 && c@[0] == 'X' && c@[1] == '0' {
                    assert(c@ =~= "X0"@);
                }
            }
        }
        i = i + 1;
    }
    assert(x.take(x11_names@.len() as int) =~= x);
    let ghost part = r@.map_values(|x: RemoteSessionInfo| x@);
    match portal_reply {
        Some(out) => {
            if contains_str(&chars_of(out), "uint32") {
                let sess = RemoteSessionInfo {
                    session_type: "Freedesktop RemoteDesktop Portal".to_owned(),
                    identifier: "org.freedesktop.portal.RemoteDesktop".to_owned(),
                    details: "RemoteDesktop DBus Portal service active".to_owned(),
                };
                r.push(sess);
                assert(r@.map_values(|x: RemoteSessionInfo| x@) =~= part.push(sess@));
                assert(part.push(sess@) =~= part + seq![portal_session()]);
            } else {
                assert(part + Seq::<SessionView>::empty() =~= part);
            }
        },
        None => {
            assert(part + Seq::<SessionView>::empty() =~= part);
        },
    }
    r
}

/// Whole seconds of idleness from `xprintidle`'s output (milliseconds).
pub open spec fn xprintidle_secs(out: Seq<char>) -> Option<nat> {
    match parse_u64(trim(out)) {
        Some(ms) => Some(ms / 1000),
        None => None,
    }
}

/// Whole seconds of idleness from the reply of Mutter's `GetIdletime` over
/// DBus: the digits after the first `uint64 `, which must be followed by
/// something other than a digit.
pub open spec fn mutter_idle_secs(out: Seq<char>) -> Option<nat> {
    match crate::text::find_from(out, "uint64 "@, 0) {
        Some(st) => {
            let rest = out.skip(st + 7);
            let end = crate::text::nondigit_index_from(rest, 0);
            if end < rest.len() {
                match parse_u64(rest.take(end)) {
                    Some(ms) => Some(ms / 1000),
                    None => None,
                }
            } else {
                None
            }
        },
        None => None,
    }
}

/// Parses `xprintidle`'s output.
pub fn parse_xprintidle(out: &str) -> (r: Option<u64>)
    ensures
        match xprintidle_secs(out@) {
            Some(v) => r == Some(v as u64),
            None => r is None,
        },
{
    let c = chars_of(out);
    let (a, b) = trim_range(&c, 0, c.len());
    assert(c@.subrange(0, c@.len() as int) =~= c@);
    match parse_unsigned_range(&c, a, b, 10, 0xffff_ffff_ffff_ffff) {
        Some(ms) => Some(ms / 1000),
        None => None,
    }
}

/// Parses Mutter's `GetIdletime` reply.
pub fn parse_mutter_idle(out: &str) -> (r: Option<u64>)
    ensures
        match mutter_idle_secs(out@) {
            Some(v) => r == Some(v as u64),
            None => r is None,
        },
{
    let c = chars_of(out);
    let p = chars_of("uint64 ");
    proof {
        reveal_strlit("uint64 ");
    }
    assert(c@.subrange(0, c@.len() as int) =~= c@);
    match crate::text::find_in(&c, 0, c.len(), &p) {
        Some(st) => {
            proof {
                crate::text::lemma_find_from_found(c@, p@, 0);
            }
            let from = st + 7;
            let ghost rest = c@.skip(from as int);
            let mut e = from;
            while e < c.len() && '0' <= c[e] && c[e] <= '9'
                invariant
                    from <= e <= c@.len(),
                    rest == c@.skip(from as int),
                    crate::text::nondigit_index_from(rest, 0) == crate::text::nondigit_index_from(
                        rest,
                        e - from,
                    ),
                decreases c@.len() - e,
            {
                assert(rest[e - from] == c@[e as int]);
                e = e + 1;
            }
            proof {
                if e < c@.len() {
                    assert(rest[e - from] == c@[e as int]);
                }
            }
            assert(crate::text::nondigit_index_from(rest, 0) == e - from);
            if e == c.len() {
                return None;
            }
            assert(rest.take(e - from) =~= c@.subrange(from as int, e as int));
            match parse_unsigned_range(&c, from, e, 10, 0xffff_ffff_ffff_ffff) {
                Some(ms) => Some(ms / 1000),
                None => None,
            }
        },
        None => None,
    }
}

/// The desktop notification for a change of the AFK guard.
pub fn tray_status_message(afk: bool) -> (r: String)
    ensures
        r@ == if afk {
            "KISS AV: AFK Guard Enabled"@
        } else {
            "KISS AV: AFK Guard Disabled"@
        },
{
    if afk {
        "KISS AV: AFK Guard Enabled".to_owned()
    } else {
        "KISS AV: AFK Guard Disabled".to_owned()
    }
}

/// A process whose command line names a remote-desktop or virtual-display
/// server (`Xvfb`, `x11vnc`, `tightvncserver`, `tigervnc`, `xrdp`) is
/// reported, with its command line and the NUL separators shown as spaces; any
/// other process is not.
pub proof fn lemma_remote_desktop_processes_reported(cmdline: Seq<char>)
    ensures
        contains(cmdline, "Xvfb"@) || contains(cmdline, "x11vnc"@) || contains(cmdline, "tightvncserver"@)
            || contains(cmdline, "tigervnc"@) || contains(cmdline, "xrdp"@) ==> cmdline_finding(cmdline)
            == Some("Virtual Desktop Process: "@ + replace_char(cmdline, '\0', ' ')),
        !(contains(cmdline, "Xvfb"@) || contains(cmdline, "x11vnc"@) || contains(
            cmdline,
            "tightvncserver"@,
        ) || contains(cmdline, "tigervnc"@) || contains(cmdline, "xrdp"@)) ==> cmdline_finding(cmdline)
            is None,
{
}

/// Every device on the virtual bus (`0006`) or on no bus (`0000`) is virtual,
/// whatever its name, and so is every device whose name, in lower case, names a
/// software input driver.
pub proof fn lemma_virtual_bus_devices(name: Seq<char>, bus: Seq<char>)
    ensures
        is_virtual_device(name, "0006"@),
        is_virtual_device(name, "0000"@),
        contains(lowercase(name), "uinput"@) ==> is_virtual_device(name, bus),
        contains(lowercase(name), "virtual"@) ==> is_virtual_device(name, bus),
{
}

/// Every device the scan has completed is marked virtual exactly as its name
/// and bus say.
pub open spec fn devices_marked(ds: Seq<DeviceView>) -> bool {
    forall|i: int| 0 <= i < ds.len() ==> (#[trigger] ds[i]).is_virtual == is_virtual_device(ds[i].name, ds[i].bus_type)
}

proof fn lemma_scan_fields_devices(st: DeviceScan, parts: Seq<Seq<char>>)
    ensures
        scan_fields(st, parts).devices == st.devices,
    decreases parts.len(),
{
    if parts.len() > 0 {
        lemma_scan_fields_devices(st, parts.drop_last());
    }
}

proof fn lemma_scan_lines_marked(st: DeviceScan, ls: Seq<Seq<char>>)
    requires
        devices_marked(st.devices),
    ensures
        devices_marked(scan_lines(st, ls).devices),
    decreases ls.len(),
{
    if ls.len() > 0 {
        lemma_scan_lines_marked(st, ls.drop_last());
        let p = scan_lines(st, ls.drop_last());
        let line = ls.last();
        if starts_with(line, "I: Bus="@) {
            lemma_scan_fields_devices(p, words(line));
        }
        let q = scan_line(p, line);
        assert forall|i: int| 0 <= i < q.devices.len() implies (#[trigger] q.devices[i]).is_virtual
            == is_virtual_device(q.devices[i].name, q.devices[i].bus_type) by {
            if i < p.devices.len() {
                assert(q.devices[i] == p.devices[i]);
            }
        }
    }
}

/// In the device list read from `/proc/bus/input/devices`, every device is
/// marked virtual exactly when its bus is virtual (`0006`) or absent (`0000`)
/// or its lower-cased name names a software input driver; in particular every
/// device on bus `0006` or `0000` is virtual.
pub proof fn lemma_input_devices_marked(content: Seq<char>)
    ensures
        forall|i: int|
            0 <= i < input_devices(content).len() ==> (#[trigger] input_devices(content)[i]).is_virtual
                == (input_devices(content)[i].bus_type == "0006"@ || input_devices(content)[i].bus_type
                == "0000"@ || names_virtual_driver(lowercase(input_devices(content)[i].name))),
        forall|i: int|
            0 <= i < input_devices(content).len() && ((#[trigger] input_devices(content)[i]).bus_type
                == "0006"@ || input_devices(content)[i].bus_type == "0000"@) ==> input_devices(
                content,
            )[i].is_virtual,
{
    lemma_scan_lines_marked(scan_start(), lines(content));
}

} // verus!
