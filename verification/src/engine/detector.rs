use vstd::prelude::*;
use crate::config::{
    crostini_proxy_display, display_entry_matches, display_number, display_number_of,
    with_crostini, AllowlistConfig, AppConfig,
};
use crate::engine::fallback::FallbackManager;
use crate::engine::heartbeat::{
    after_activity, after_input, delta_reports, heartbeat_verdict, idle_secs, is_recent,
    is_suspicious, keep_recent, ActivityView, BackgroundActivity, DeltaView, HeartbeatDeltaReport,
    HeartbeatEngine, HeartbeatView,
};
use crate::platform::{DeviceView, InputDeviceInfo, InputEvent, InputSource};
use crate::text::{
    chars_of, decimal, lemma_parse_decimal, trim_end, trim_start, leading_word, leading_word_end, push_char, push_decimal, push_str,
    range_starts_with, starts_with, string_of, string_views, trim, trim_range,
};

verus! {

/// A detected anomaly. `timestamp` is the daemon's monotonic clock, in milliseconds.
#[derive(Debug, Clone, PartialEq, Eq)]
pub struct ViolationReport {
    pub target_pid: Option<u32>,
    pub desktop_identifier: Option<String>,
    pub event_flags: Vec<String>,
    pub description: String,
    pub timestamp: u64,
}

/// A violation that triggers network isolation.
pub type IsolationTrigger = ViolationReport;

pub struct ReportView {
    pub target_pid: Option<u32>,
    pub desktop_identifier: Option<Seq<char>>,
    pub event_flags: Seq<Seq<char>>,
    pub description: Seq<char>,
    pub timestamp: u64,
}

pub open spec fn opt_view(o: Option<String>) -> Option<Seq<char>> {
    match o {
        Some(s) => Some(s@),
        None => None,
    }
}

impl View for ViolationReport {
    type V = ReportView;

    open spec fn view(&self) -> ReportView {
        ReportView {
            target_pid: self.target_pid,
            desktop_identifier: opt_view(self.desktop_identifier),
            event_flags: string_views(self.event_flags@),
            description: self.description@,
            timestamp: self.timestamp,
        }
    }
}

/// What an allowlist exemption applies to.
#[derive(Debug, Clone, Copy, PartialEq, Eq, Structural)]
pub enum ExemptionKind {
    Display,
    Driver,
    Process,
}

/// The decision on one observation.
#[derive(Debug, Clone)]
pub enum Verdict {
    /// Nothing to report.
    Clear,
    /// An anomaly that the allowlist exempts; the string names it in the exemption log.
    Exempt(ExemptionKind, String),
    /// A violation.
    Flag(ViolationReport),
}

pub enum VerdictView {
    Clear,
    Exempt(ExemptionKind, Seq<char>),
    Flag(ReportView),
}

impl View for Verdict {
    type V = VerdictView;

    open spec fn view(&self) -> VerdictView {
        match self {
            Verdict::Clear => VerdictView::Clear,
            Verdict::Exempt(k, n) => VerdictView::Exempt(*k, n@),
            Verdict::Flag(r) => VerdictView::Flag(r@),
        }
    }
}

/// What the daemon must do, in order, on behalf of the detector.
#[derive(Debug, Clone)]
pub enum Directive {
    /// Log that the allowlist exempted an anomaly.
    Exempted(ExemptionKind, String),
    /// Log the violation and, when `cut_network` holds, run the network killswitch.
    Isolate(ViolationReport, bool),
}

pub enum DirectiveView {
    Exempted(ExemptionKind, Seq<char>),
    Isolate(ReportView, bool),
}

impl View for Directive {
    type V = DirectiveView;

    open spec fn view(&self) -> DirectiveView {
        match self {
            Directive::Exempted(k, n) => DirectiveView::Exempted(*k, n@),
            Directive::Isolate(r, c) => DirectiveView::Isolate(r@, *c),
        }
    }
}

pub open spec fn report_views(v: Seq<ViolationReport>) -> Seq<ReportView> {
    v.map_values(|x: ViolationReport| x@)
}

pub open spec fn directive_views(v: Seq<Directive>) -> Seq<DirectiveView> {
    v.map_values(|x: Directive| x@)
}

/// The violations among `vs`, in order.
pub open spec fn flagged(vs: Seq<VerdictView>) -> Seq<ReportView>
    decreases vs.len(),
{
    if vs.len() == 0 {
        seq![]
    } else {
        match vs.last() {
            VerdictView::Flag(r) => flagged(vs.drop_last()).push(r),
            _ => flagged(vs.drop_last()),
        }
    }
}

/// The exemption log entries among `vs`, in order.
pub open spec fn exemption_log(vs: Seq<VerdictView>) -> Seq<DirectiveView>
    decreases vs.len(),
{
    if vs.len() == 0 {
        seq![]
    } else {
        match vs.last() {
            VerdictView::Exempt(k, n) => exemption_log(vs.drop_last()).push(
                DirectiveView::Exempted(k, n),
            ),
            _ => exemption_log(vs.drop_last()),
        }
    }
}

/// The directives for `vs` when each violation is isolated as it is found.
pub open spec fn directives_for(vs: Seq<VerdictView>, cut_network: bool) -> Seq<DirectiveView>
    decreases vs.len(),
{
    if vs.len() == 0 {
        seq![]
    } else {
        let d = directives_for(vs.drop_last(), cut_network);
        match vs.last() {
            VerdictView::Clear => d,
            VerdictView::Exempt(k, n) => d.push(DirectiveView::Exempted(k, n)),
            VerdictView::Flag(r) => d.push(DirectiveView::Isolate(r, cut_network)),
        }
    }
}

/// An isolation directive for each report, in order.
pub open spec fn isolations(rs: Seq<ReportView>, cut_network: bool) -> Seq<DirectiveView> {
    rs.map_values(|r: ReportView| DirectiveView::Isolate(r, cut_network))
}

pub open spec fn report_of(
    pid: Option<u32>,
    desktop: Option<Seq<char>>,
    flag1: Seq<char>,
    flag2: Seq<char>,
    description: Seq<char>,
    now: u64,
) -> ReportView {
    ReportView {
        target_pid: pid,
        desktop_identifier: desktop,
        event_flags: seq![flag1, flag2],
        description,
        timestamp: now,
    }
}

pub open spec fn x11_prefix() -> Seq<char> {
    "Secondary X11 socket display index detected: "@
}

pub open spec fn process_prefix() -> Seq<char> {
    "Virtual Desktop Process: "@
}

pub open spec fn hidden_desktop_report(desktop: Seq<char>, now: u64) -> ReportView {
    report_of(
        None,
        Some(desktop),
        "HIDDEN_DESKTOP_DETECTED"@,
        "HVNC_SESSION_FLAG"@,
        "Non-standard hidden desktop session detected: "@ + desktop,
        now,
    )
}

/// The four spellings of a display index that the allowlist may hold, and the
/// display as written, checked for an exemption.
pub open spec fn index_exempt(c: AppConfig, n: nat, written: Seq<char>, crostini: bool) -> bool {
    ||| c.display_allowed(seq!['X'] + decimal(n), crostini)
    ||| c.display_allowed(seq![':'] + decimal(n), crostini)
    ||| c.display_allowed(decimal(n), crostini)
    ||| c.display_allowed(written, crostini)
}

/// The verdict on an entry of the X11 socket directory: a socket for a display
/// index above 2 is a hidden desktop unless the allowlist covers the index.
pub open spec fn socket_verdict(c: AppConfig, name: Seq<char>, crostini: bool, now: u64) -> VerdictView {
    let t = trim(name);
    match display_number(t) {
        Some(n) => if n > 2 {
            if index_exempt(c, n, t, crostini) {
                VerdictView::Exempt(ExemptionKind::Display, seq!['X'] + decimal(n))
            } else {
                VerdictView::Flag(
                    report_of(
                        None,
                        Some(name),
                        "HIDDEN_DESKTOP_DETECTED"@,
                        "HVNC_SESSION_FLAG"@,
                        "Non-standard hidden desktop session detected: "@ + x11_prefix() + name,
                        now,
                    ),
                )
            }
        } else {
            VerdictView::Clear
        },
        None => VerdictView::Clear,
    }
}

pub open spec fn virtual_driver_report(name: Seq<char>, now: u64) -> ReportView {
    report_of(
        None,
        None,
        "VIRTUAL_INPUT_DRIVER_DETECTED"@,
        "UNAUTHORIZED_INJECTION_DEVICE"@,
        "Virtual software input driver '"@ + name + "' active while hardware user idle"@,
        now,
    )
}

/// The verdict on an input device: a virtual driver is flagged unless allowlisted.
pub open spec fn device_verdict(c: AppConfig, d: DeviceView, now: u64) -> VerdictView {
    if d.is_virtual {
        if c.allowlist.drivers().contains(d.name) {
            VerdictView::Exempt(ExemptionKind::Driver, d.name)
        } else {
            VerdictView::Flag(virtual_driver_report(d.name, now))
        }
    } else {
        VerdictView::Clear
    }
}

/// The display named by a hidden-desktop finding, if it names one.
pub open spec fn desktop_display(desk: Seq<char>) -> Option<Seq<char>> {
    if starts_with(desk, x11_prefix()) {
        Some(trim(desk.skip(x11_prefix().len() as int)))
    } else if desk.len() > 0 && desk[0] == 'X' && desk != "X0"@ {
        Some(desk)
    } else {
        None
    }
}

/// Whether the allowlist exempts a named display, and the name the exemption log uses.
pub open spec fn display_exemption(c: AppConfig, d: Seq<char>, crostini: bool) -> Option<Seq<char>> {
    match display_number(d) {
        Some(n) => if index_exempt(c, n, d, crostini) {
            Some(seq!['X'] + decimal(n))
        } else {
            None
        },
        None => if c.display_allowed(d, crostini) {
            Some(d)
        } else {
            None
        },
    }
}

/// Whether the allowlist exempts a virtual-desktop process finding (by its
/// command line or its executable), and the name the exemption log uses.
pub open spec fn process_exemption(c: AppConfig, desk: Seq<char>) -> Option<Seq<char>> {
    if starts_with(desk, process_prefix()) {
        let cmd = trim(desk.skip(process_prefix().len() as int));
        let first = leading_word(cmd);
        if c.allowlist.processes().contains(cmd) || c.allowlist.processes().contains(first) {
            Some(first)
        } else {
            None
        }
    } else {
        None
    }
}

/// The verdict on a hidden-desktop finding of the platform scan.
pub open spec fn desktop_verdict(c: AppConfig, desk: Seq<char>, crostini: bool, now: u64) -> VerdictView {
    match desktop_display(desk) {
        Some(d) if display_exemption(c, d, crostini) is Some => VerdictView::Exempt(
            ExemptionKind::Display,
            display_exemption(c, d, crostini)->0,
        ),
        _ => match process_exemption(c, desk) {
            Some(p) => VerdictView::Exempt(ExemptionKind::Process, p),
            None => VerdictView::Flag(hidden_desktop_report(desk, now)),
        },
    }
}

/// The verdict on a virtual input device during a sensor audit: only while the
/// physical user has been idle for 15 seconds.
pub open spec fn audit_device_verdict(c: AppConfig, d: DeviceView, idle: nat, now: u64) -> VerdictView {
    if idle >= 15 {
        device_verdict(c, d, now)
    } else {
        VerdictView::Clear
    }
}

/// The verdict on a heartbeat report: a violation unless the process is allowlisted.
pub open spec fn delta_verdict(c: AppConfig, d: DeltaView, flag2: Seq<char>, now: u64) -> VerdictView {
    if c.allowlist.processes().contains(d.process_name) {
        VerdictView::Exempt(ExemptionKind::Process, d.process_name)
    } else {
        VerdictView::Flag(
            report_of(
                Some(d.target_pid),
                None,
                "HEARTBEAT_DELTA_VIOLATION"@,
                flag2,
                d.flag_reason,
                now,
            ),
        )
    }
}

/// The verdict on an input event, given the idle time once it is recorded:
/// synthetic input from a driver that is not allowlisted is a violation when
/// the physical user has been idle for 15 seconds, or always in test mode.
pub open spec fn input_verdict(
    c: AppConfig,
    source: InputSource,
    pid: Option<u32>,
    device: Option<Seq<char>>,
    idle: nat,
    test_mode: bool,
    now: u64,
) -> VerdictView {
    if source != InputSource::SyntheticSoftware {
        VerdictView::Clear
    } else if device is Some && c.allowlist.drivers().contains(device->0) {
        VerdictView::Exempt(ExemptionKind::Driver, device->0)
    } else if idle >= 15 || test_mode {
        VerdictView::Flag(
            report_of(
                pid,
                None,
                "SYNTHETIC_INPUT_DURING_IDLE"@,
                "INJECTED_HOOK_FLAG"@,
                "Synthetic input detected while physical hardware idle for "@ + decimal(idle)
                    + "s"@,
                now,
            ),
        )
    } else {
        VerdictView::Clear
    }
}

/// The verdicts of a full sensor audit: hidden desktops, then virtual input
/// devices, then the heartbeat's reports, each in the order found.
pub open spec fn audit_verdicts(
    c: AppConfig,
    h: HeartbeatView,
    desktops: Seq<Seq<char>>,
    devices: Seq<DeviceView>,
    crostini: bool,
    now: u64,
) -> Seq<VerdictView> {
    desktops.map_values(|d: Seq<char>| desktop_verdict(c, d, crostini, now)) + devices.map_values(
        |d: DeviceView| audit_device_verdict(c, d, idle_secs(h, now), now),
    ) + heartbeat_verdict(h, now).map_values(
        |d: DeltaView| delta_verdict(c, d, "BACKGROUND_SCRAPE_OR_SOCKET_WHILE_IDLE"@, now),
    )
}

pub open spec fn device_views(v: Seq<InputDeviceInfo>) -> Seq<DeviceView> {
    v.map_values(|d: InputDeviceInfo| d@)
}

fn make_report(
    pid: Option<u32>,
    desktop: Option<String>,
    flag1: &str,
    flag2: &str,
    description: String,
    now: u64,
) -> (r: ViolationReport)
    ensures
        r@ == report_of(pid, opt_view(desktop), flag1@, flag2@, description@, now),
{
    let mut flags: Vec<String> = Vec::new();
    flags.push(flag1.to_owned());
    flags.push(flag2.to_owned());
    let r = ViolationReport {
        target_pid: pid,
        desktop_identifier: desktop,
        event_flags: flags,
        description,
        timestamp: now,
    };
    assert(r@.event_flags =~= seq![flag1@, flag2@]);
    r
}

fn hidden_report(desktop: String, now: u64) -> (r: ViolationReport)
    ensures
        r@ == hidden_desktop_report(desktop@, now),
{
    let mut description = String::new();
    push_str(&mut description, "Non-standard hidden desktop session detected: ");
    push_str(&mut description, desktop.as_str());
    make_report(
        None,
        Some(desktop),
        "HIDDEN_DESKTOP_DETECTED",
        "HVNC_SESSION_FLAG",
        description,
        now,
    )
}

/// `prefix` followed by the decimal digits of `n`.
fn index_name(prefix: Option<char>, n: u64) -> (r: String)
    ensures
        r@ == match prefix {
            Some(p) => seq![p] + decimal(n as nat),
            None => decimal(n as nat),
        },
{
    let mut s = String::new();
    match prefix {
        Some(p) => push_char(&mut s, p),
        None => {},
    }
    push_decimal(&mut s, n);
    assert(s@ =~= match prefix {
        Some(p) => seq![p] + decimal(n as nat),
        None => decimal(n as nat),
    });
    s
}

fn index_exempt_exec(c: &AppConfig, n: u64, written: &str, crostini: bool) -> (r: bool)
    ensures
        r == index_exempt(*c, n as nat, written@, crostini),
{
    c.is_display_allowed(index_name(Some('X'), n).as_str(), crostini) || c.is_display_allowed(
        index_name(Some(':'), n).as_str(),
        crostini,
    ) || c.is_display_allowed(index_name(None, n).as_str(), crostini) || c.is_display_allowed(
        written,
        crostini,
    )
}

/// Decides on one entry of the X11 socket directory.
pub fn socket_verdict_of(c: &AppConfig, name: &String, crostini: bool, now: u64) -> (v: Verdict)
    ensures
        v@ == socket_verdict(*c, name@, crostini, now),
{
    let nc = chars_of(name.as_str());
    let (a, b) = trim_range(&nc, 0, nc.len());
    assert(nc@.subrange(0, nc@.len() as int) =~= nc@);
    match display_number_of(&nc, a, b) {
        Some(n) => {
            if n > 2 {
                let trimmed = string_of(&nc, a, b);
                if index_exempt_exec(c, n, trimmed.as_str(), crostini) {
                    Verdict::Exempt(ExemptionKind::Display, index_name(Some('X'), n))
                } else {
                    let mut description = String::new();
                    push_str(&mut description, "Non-standard hidden desktop session detected: ");
                    push_str(&mut description, "Secondary X11 socket display index detected: ");
                    push_str(&mut description, name.as_str());
                    Verdict::Flag(
                        make_report(
                            None,
                            Some(name.clone()),
                            "HIDDEN_DESKTOP_DETECTED",
                            "HVNC_SESSION_FLAG",
                            description,
                            now,
                        ),
                    )
                }
            } else {
                Verdict::Clear
            }
        },
        None => Verdict::Clear,
    }
}

/// Decides on one input device.
pub fn device_verdict_of(c: &AppConfig, d: &InputDeviceInfo, now: u64) -> (v: Verdict)
    ensures
        v@ == device_verdict(*c, d@, now),
{
    if d.is_virtual {
        if c.is_driver_allowed(d.name.as_str()) {
            Verdict::Exempt(ExemptionKind::Driver, d.name.clone())
        } else {
            let mut description = String::new();
            push_str(&mut description, "Virtual software input driver '");
            push_str(&mut description, d.name.as_str());
            push_str(&mut description, "' active while hardware user idle");
            Verdict::Flag(
                make_report(
                    None,
                    None,
                    "VIRTUAL_INPUT_DRIVER_DETECTED",
                    "UNAUTHORIZED_INJECTION_DEVICE",
                    description,
                    now,
                ),
            )
        }
    } else {
        Verdict::Clear
    }
}

fn display_exemption_of(c: &AppConfig, dc: &Vec<char>, a: usize, b: usize, crostini: bool) -> (r:
    Option<String>)
    requires
        a <= b <= dc@.len(),
    ensures
        opt_view(r) == display_exemption(*c, dc@.subrange(a as int, b as int), crostini),
{
    let d = string_of(dc, a, b);
    match display_number_of(dc, a, b) {
        Some(n) => {
            if index_exempt_exec(c, n, d.as_str(), crostini) {
                Some(index_name(Some('X'), n))
            } else {
                None
            }
        },
        None => {
            if c.is_display_allowed(d.as_str(), crostini) {
                Some(d)
            } else {
                None
            }
        },
    }
}

fn process_exemption_of(c: &AppConfig, dc: &Vec<char>) -> (r: Option<String>)
    ensures
        opt_view(r) == process_exemption(*c, dc@),
{
    let p = chars_of("Virtual Desktop Process: ");
    assert(dc@.subrange(0, dc@.len() as int) =~= dc@);
    if !range_starts_with(dc, 0, dc.len(), &p) {
        return None;
    }
    let (a, b) = trim_range(dc, p.len(), dc.len());
    assert(dc@.skip(p@.len() as int) =~= dc@.subrange(p@.len() as int, dc@.len() as int));
    let e = leading_word_end(dc, a, b);
    let cmd = string_of(dc, a, b);
    let first = string_of(dc, a, e);
    if c.is_process_allowed(cmd.as_str()) || c.is_process_allowed(first.as_str()) {
        Some(first)
    } else {
        None
    }
}

/// Decides on one hidden-desktop finding of the platform scan.
pub fn desktop_verdict_of(c: &AppConfig, desk: &String, crostini: bool, now: u64) -> (v: Verdict)
    ensures
        v@ == desktop_verdict(*c, desk@, crostini, now),
{
    let dc = chars_of(desk.as_str());
    let xp = chars_of("Secondary X11 socket display index detected: ");
    assert(dc@.subrange(0, dc@.len() as int) =~= dc@);
    let mut bounds: Option<(usize, usize)> = None;
    if range_starts_with(&dc, 0, dc.len(), &xp) {
        let (a, b) = trim_range(&dc, xp.len(), dc.len());
        assert(dc@.skip(xp@.len() as int) =~= dc@.subrange(xp@.len() as int, dc@.len() as int));
        bounds = Some((a, b));
    } else if dc.len() > 0 && dc[0] == 'X' && !(dc.len() == 2 && dc[1] == '0') {
        proof {
            reveal_strlit("X0");
            if dc@ == "X0"@ {
                assert(dc@[1] == '0');
            }
        }
        bounds = Some((0, dc.len()));
    } else {
        proof {
            reveal_strlit("X0");
            if dc@.len() == 2 && dc@[0] == 'X' && dc@[1] == '0' {
                assert(dc@ =~= "X0"@);
            }
        }
    }
    match bounds {
        Some((a, b)) => {
            match display_exemption_of(c, &dc, a, b, crostini) {
                Some(name) => {
                    return Verdict::Exempt(ExemptionKind::Display, name);
                },
                None => {},
            }
        },
        None => {},
    }
    match process_exemption_of(c, &dc) {
        Some(p) => Verdict::Exempt(ExemptionKind::Process, p),
        None => Verdict::Flag(hidden_report(desk.clone(), now)),
    }
}

/// Decides on one heartbeat report; `flag2` is the second event flag of the violation.
pub fn delta_verdict_of(c: &AppConfig, d: &HeartbeatDeltaReport, flag2: &str, now: u64) -> (v:
    Verdict)
    ensures
        v@ == delta_verdict(*c, d@, flag2@, now),
{
    if c.is_process_allowed(d.process_name.as_str()) {
        Verdict::Exempt(ExemptionKind::Process, d.process_name.clone())
    } else {
        Verdict::Flag(
            make_report(
                Some(d.target_pid),
                None,
                "HEARTBEAT_DELTA_VIOLATION",
                flag2,
                d.flag_reason.clone(),
                now,
            ),
        )
    }
}

/// Decides on an input event, given the idle seconds once it is recorded.
pub fn input_verdict_of(c: &AppConfig, event: &InputEvent, idle: u64, test_mode: bool, now: u64) -> (v: Verdict)
    ensures
        v@ == input_verdict(
            *c,
            event.source,
            event.pid,
            opt_view(event.device_name),
            idle as nat,
            test_mode,
            now,
        ),
{
    if event.source != InputSource::SyntheticSoftware {
        return Verdict::Clear;
    }
    match &event.device_name {
        Some(name) => {
            if c.is_driver_allowed(name.as_str()) {
                return Verdict::Exempt(ExemptionKind::Driver, name.clone());
            }
        },
        None => {},
    }
    if idle >= 15 || test_mode {
        let mut description = String::new();
        push_str(&mut description, "Synthetic input detected while physical hardware idle for ");
        push_decimal(&mut description, idle);
        push_str(&mut description, "s");
        Verdict::Flag(
            make_report(
                event.pid,
                None,
                "SYNTHETIC_INPUT_DURING_IDLE",
                "INJECTED_HOOK_FLAG",
                description,
                now,
            ),
        )
    } else {
        Verdict::Clear
    }
}

} // verus!

verus! {

fn copy_strings(v: &Vec<String>) -> (r: Vec<String>)
    ensures
        string_views(r@) == string_views(v@),
{
    let mut r: Vec<String> = Vec::new();
    let mut i: usize = 0;
    while i < v.len()
        invariant
            i <= v@.len(),
            string_views(r@) == string_views(v@).take(i as int),
        decreases v@.len() - i,
    {
        let ghost r0 = r@;
        let c = v[i].clone();
        assert(c@ == v@[i as int]@);
        r.push(c);
        assert(r@ == r0.push(c));
        assert(string_views(r0).len() == r0.len());
        assert(r0.len() == i);
        assert(string_views(r@)[i as int] == c@);
        assert forall|j: int| 0 <= j < i + 1 implies #[trigger] string_views(r@)[j]
            == string_views(v@).take(i + 1)[j] by {
            if j < i {
                assert(string_views(r0)[j] == string_views(v@).take(i as int)[j]);
            }
        }
        assert(string_views(r@) =~= string_views(v@).take(i + 1));
        i = i + 1;
    }
    assert(string_views(v@).take(v@.len() as int) =~= string_views(v@));
    r
}

fn copy_report(r: &ViolationReport) -> (c: ViolationReport)
    ensures
        c@ == r@,
{
    let desktop = match &r.desktop_identifier {
        Some(d) => Some(d.clone()),
        None => None,
    };
    ViolationReport {
        target_pid: r.target_pid,
        desktop_identifier: desktop,
        event_flags: copy_strings(&r.event_flags),
        description: r.description.clone(),
        timestamp: r.timestamp,
    }
}

/// Sorts a verdict into the reports and the exemption log.
fn sort_verdict(v: Verdict, reports: &mut Vec<ViolationReport>, log: &mut Vec<Directive>)
    ensures
        report_views(final(reports)@) == match v@ {
            VerdictView::Flag(r) => report_views(old(reports)@).push(r),
            _ => report_views(old(reports)@),
        },
        directive_views(final(log)@) == match v@ {
            VerdictView::Exempt(k, n) => directive_views(old(log)@).push(
                DirectiveView::Exempted(k, n),
            ),
            _ => directive_views(old(log)@),
        },
{
    let ghost r0 = reports@;
    let ghost l0 = log@;
    match v {
        Verdict::Clear => {},
        Verdict::Exempt(k, n) => {
            log.push(Directive::Exempted(k, n));
            assert(directive_views(log@) =~= directive_views(l0).push(
                DirectiveView::Exempted(k, n@),
            ));
        },
        Verdict::Flag(r) => {
            reports.push(r);
            assert(report_views(reports@) =~= report_views(r0).push(r@));
        },
    }
}

/// Audits the entries of the X11 socket directory: each socket for a display
/// index above 2 is a hidden desktop unless the allowlist covers it. Exemptions
/// are logged to `log`; nothing is isolated.
pub fn check_x11_sockets(
    config: &AppConfig,
    socket_names: &Vec<String>,
    crostini: bool,
    now: u64,
    log: &mut Vec<Directive>,
) -> (r: Vec<IsolationTrigger>)
    ensures
        ({
            let vs = string_views(socket_names@).map_values(
                |n: Seq<char>| socket_verdict(*config, n, crostini, now),
            );
            &&& report_views(r@) == flagged(vs)
            &&& directive_views(final(log)@) == directive_views(old(log)@) + exemption_log(vs)
        }),
{
    let ghost vs = string_views(socket_names@).map_values(
        |n: Seq<char>| socket_verdict(*config, n, crostini, now),
    );
    let ghost l0 = directive_views(log@);
    let mut reports: Vec<ViolationReport> = Vec::new();
    let mut i: usize = 0;
    assert(vs.take(0) =~= Seq::<VerdictView>::empty());
    assert(report_views(reports@) =~= Seq::<ReportView>::empty());
    assert(l0 + exemption_log(vs.take(0)) =~= l0);
    while i < socket_names.len()
        invariant
            i <= socket_names@.len(),
            vs == string_views(socket_names@).map_values(
                |n: Seq<char>| socket_verdict(*config, n, crostini, now),
            ),
            report_views(reports@) == flagged(vs.take(i as int)),
            directive_views(log@) == l0 + exemption_log(vs.take(i as int)),
        decreases socket_names@.len() - i,
    {
        let v = socket_verdict_of(config, &socket_names[i], crostini, now);
        assert(vs.take(i + 1).drop_last() =~= vs.take(i as int));
        assert(vs.take(i + 1).last() == v@);
        sort_verdict(v, &mut reports, log);
        assert(directive_views(log@) =~= l0 + exemption_log(vs.take(i + 1)));
        i = i + 1;
    }
    assert(vs.take(socket_names@.len() as int) =~= vs);
    reports
}

/// Audits the platform's input devices: each virtual driver is flagged unless
/// the allowlist holds it. Exemptions are logged to `log`; nothing is isolated.
pub fn check_virtual_inputs(
    config: &AppConfig,
    devices: &Vec<InputDeviceInfo>,
    now: u64,
    log: &mut Vec<Directive>,
) -> (r: Vec<IsolationTrigger>)
    ensures
        ({
            let vs = device_views(devices@).map_values(|d: DeviceView| device_verdict(*config, d, now));
            &&& report_views(r@) == flagged(vs)
            &&& directive_views(final(log)@) == directive_views(old(log)@) + exemption_log(vs)
        }),
{
    let ghost vs = device_views(devices@).map_values(|d: DeviceView| device_verdict(*config, d, now));
    let ghost l0 = directive_views(log@);
    let mut reports: Vec<ViolationReport> = Vec::new();
    let mut i: usize = 0;
    assert(vs.take(0) =~= Seq::<VerdictView>::empty());
    assert(report_views(reports@) =~= Seq::<ReportView>::empty());
    assert(l0 + exemption_log(vs.take(0)) =~= l0);
    while i < devices.len()
        invariant
            i <= devices@.len(),
            vs == device_views(devices@).map_values(|d: DeviceView| device_verdict(*config, d, now)),
            report_views(reports@) == flagged(vs.take(i as int)),
            directive_views(log@) == l0 + exemption_log(vs.take(i as int)),
        decreases devices@.len() - i,
    {
        let v = device_verdict_of(config, &devices[i], now);
        assert(vs.take(i + 1).drop_last() =~= vs.take(i as int));
        assert(vs.take(i + 1).last() == v@);
        sort_verdict(v, &mut reports, log);
        assert(directive_views(log@) =~= l0 + exemption_log(vs.take(i + 1)));
        i = i + 1;
    }
    assert(vs.take(devices@.len() as int) =~= vs);
    reports
}

/// The same audit as `check_virtual_inputs`.
pub fn check_virtual_input_drivers(
    config: &AppConfig,
    devices: &Vec<InputDeviceInfo>,
    now: u64,
    log: &mut Vec<Directive>,
) -> (r: Vec<IsolationTrigger>)
    ensures
        ({
            let vs = device_views(devices@).map_values(|d: DeviceView| device_verdict(*config, d, now));
            &&& report_views(r@) == flagged(vs)
            &&& directive_views(final(log)@) == directive_views(old(log)@) + exemption_log(vs)
        }),
{
    check_virtual_inputs(config, devices, now, log)
}

/// Both audits: X11 sockets, then virtual input devices.
pub fn run_checks(
    config: &AppConfig,
    socket_names: &Vec<String>,
    devices: &Vec<InputDeviceInfo>,
    crostini: bool,
    now: u64,
    log: &mut Vec<Directive>,
) -> (r: Vec<IsolationTrigger>)
    ensures
        ({
            let vs = string_views(socket_names@).map_values(
                |n: Seq<char>| socket_verdict(*config, n, crostini, now),
            ) + device_views(devices@).map_values(|d: DeviceView| device_verdict(*config, d, now));
            &&& report_views(r@) == flagged(vs)
            &&& directive_views(final(log)@) == directive_views(old(log)@) + exemption_log(vs)
        }),
{
    let mut triggers = check_x11_sockets(config, socket_names, crostini, now, log);
    let mut more = check_virtual_inputs(config, devices, now, log);
    let ghost a = string_views(socket_names@).map_values(
        |n: Seq<char>| socket_verdict(*config, n, crostini, now),
    );
    let ghost b = device_views(devices@).map_values(|d: DeviceView| device_verdict(*config, d, now));
    let ghost t0 = report_views(triggers@);
    let ghost m0 = report_views(more@);
    triggers.append(&mut more);
    proof {
        lemma_flagged_append(a, b);
        lemma_exemption_log_append(a, b);
        assert(report_views(triggers@) =~= t0 + m0);
    }
    triggers
}

/// `flagged` distributes over concatenation.
pub proof fn lemma_flagged_append(a: Seq<VerdictView>, b: Seq<VerdictView>)
    ensures
        flagged(a + b) == flagged(a) + flagged(b),
    decreases b.len(),
{
    if b.len() == 0 {
        assert(a + b =~= a);
        assert(flagged(a) + flagged(b) =~= flagged(a));
    } else {
        assert((a + b).drop_last() =~= a + b.drop_last());
        assert((a + b).last() == b.last());
        lemma_flagged_append(a, b.drop_last());
        match b.last() {
            VerdictView::Flag(r) => {
                assert(flagged(a) + flagged(b) =~= (flagged(a) + flagged(b.drop_last())).push(r));
            },
            _ => {},
        }
    }
}

/// `exemption_log` distributes over concatenation.
pub proof fn lemma_exemption_log_append(a: Seq<VerdictView>, b: Seq<VerdictView>)
    ensures
        exemption_log(a + b) == exemption_log(a) + exemption_log(b),
    decreases b.len(),
{
    if b.len() == 0 {
        assert(a + b =~= a);
        assert(exemption_log(a) + exemption_log(b) =~= exemption_log(a));
    } else {
        assert((a + b).drop_last() =~= a + b.drop_last());
        assert((a + b).last() == b.last());
        lemma_exemption_log_append(a, b.drop_last());
        match b.last() {
            VerdictView::Exempt(k, n) => {
                assert(exemption_log(a) + exemption_log(b) =~= (exemption_log(a) + exemption_log(
                    b.drop_last(),
                )).push(DirectiveView::Exempted(k, n)));
            },
            _ => {},
        }
    }
}

} // verus!

verus! {

/// The detector: the heartbeat, the hook fallback, the isolation state and the
/// configuration, plus the directives (logs, isolations) it has not yet handed out.
pub struct DetectorEngine {
    pub heartbeat: HeartbeatEngine,
    pub fallback: FallbackManager,
    pub isolation_triggered: bool,
    pub test_mode: bool,
    pub config: AppConfig,
    pub pending: Vec<Directive>,
}

impl DetectorEngine {
    /// The directives produced since they were last taken, in order.
    pub open spec fn outbox(&self) -> Seq<DirectiveView> {
        directive_views(self.pending@)
    }

    /// A detector with the configuration loaded from the outcome of reading and
    /// parsing the configuration file (see `AppConfig::load`).
    pub fn new(heartbeat_threshold_secs: u64, parsed: Option<AppConfig>, crostini: bool, now: u64) -> (r:
        DetectorEngine)
        ensures
            r.heartbeat@.last_physical_input == now,
            r.heartbeat@.last_synthetic_input is None,
            r.heartbeat@.activities.len() == 0,
            r.heartbeat@.idle_threshold_secs == heartbeat_threshold_secs,
            !r.fallback.forced(),
            !r.isolation_triggered,
            !r.test_mode,
            r.outbox().len() == 0,
            match parsed {
                Some(c) => {
                    &&& r.config.allowlist.displays() == with_crostini(c.allowlist.displays(), crostini)
                    &&& r.config.allowlist.drivers() == c.allowlist.drivers()
                    &&& r.config.allowlist.processes() == c.allowlist.processes()
                },
                None => {
                    &&& r.config.allowlist.displays() == with_crostini(seq![], crostini)
                    &&& r.config.allowlist.drivers().len() == 0
                    &&& r.config.allowlist.processes().len() == 0
                },
            },
    {
        DetectorEngine::with_config(heartbeat_threshold_secs, AppConfig::load(parsed, crostini), now)
    }

    /// A detector with the given configuration.
    pub fn with_config(heartbeat_threshold_secs: u64, config: AppConfig, now: u64) -> (r:
        DetectorEngine)
        ensures
            r.heartbeat@.last_physical_input == now,
            r.heartbeat@.last_synthetic_input is None,
            r.heartbeat@.activities.len() == 0,
            r.heartbeat@.idle_threshold_secs == heartbeat_threshold_secs,
            !r.fallback.forced(),
            !r.isolation_triggered,
            !r.test_mode,
            r.config == config,
            r.outbox().len() == 0,
    {
        let r = DetectorEngine {
            heartbeat: HeartbeatEngine::new(heartbeat_threshold_secs, now),
            fallback: FallbackManager::new(),
            isolation_triggered: false,
            test_mode: false,
            config,
            pending: Vec::new(),
        };
        assert(r.outbox() =~= Seq::<DirectiveView>::empty());
        r
    }

    /// In test mode violations are still reported and isolation is still
    /// recorded, but the network is never cut.
    pub fn set_test_mode(&mut self, enabled: bool)
        ensures
            final(self).test_mode == enabled,
            final(self).isolation_triggered == old(self).isolation_triggered,
            final(self).heartbeat == old(self).heartbeat,
            final(self).config == old(self).config,
            final(self).outbox() == old(self).outbox(),
    {
        self.test_mode = enabled;
    }

    pub fn is_isolation_triggered(&self) -> (r: bool)
        ensures
            r == self.isolation_triggered,
    {
        self.isolation_triggered
    }

    pub fn reset_isolation_state(&mut self)
        ensures
            !final(self).isolation_triggered,
            final(self).test_mode == old(self).test_mode,
            final(self).heartbeat == old(self).heartbeat,
            final(self).config == old(self).config,
            final(self).outbox() == old(self).outbox(),
    {
        self.isolation_triggered = false;
    }

    /// Hands out the pending directives, oldest first.
    pub fn take_directives(&mut self) -> (r: Vec<Directive>)
        ensures
            directive_views(r@) == old(self).outbox(),
            final(self).outbox().len() == 0,
            final(self).isolation_triggered == old(self).isolation_triggered,
            final(self).test_mode == old(self).test_mode,
            final(self).heartbeat == old(self).heartbeat,
            final(self).config == old(self).config,
    {
        let mut taken: Vec<Directive> = Vec::new();
        std::mem::swap(&mut taken, &mut self.pending);
        assert(self.outbox() =~= Seq::<DirectiveView>::empty());
        taken
    }

    /// Records a violation: isolation is triggered, and the network is to be
    /// cut unless in test mode.
    fn trigger_isolation(&mut self, report: &ViolationReport)
        ensures
            final(self).isolation_triggered,
            final(self).outbox() == old(self).outbox().push(
                DirectiveView::Isolate(report@, !old(self).test_mode),
            ),
            final(self).test_mode == old(self).test_mode,
            final(self).heartbeat == old(self).heartbeat,
            final(self).fallback == old(self).fallback,
            final(self).config == old(self).config,
    {
        self.isolation_triggered = true;
        let ghost p0 = self.pending@;
        self.pending.push(Directive::Isolate(copy_report(report), !self.test_mode));
        assert(self.outbox() =~= directive_views(p0).push(
            DirectiveView::Isolate(report@, !self.test_mode),
        ));
    }

    /// Handles one outcome of the checks.
    fn apply_verdict(&mut self, v: Verdict, reports: &mut Vec<ViolationReport>)
        ensures
            report_views(final(reports)@) == match v@ {
                VerdictView::Flag(r) => report_views(old(reports)@).push(r),
                _ => report_views(old(reports)@),
            },
            final(self).outbox() == old(self).outbox() + directives_for(seq![v@], !old(self).test_mode),
            final(self).isolation_triggered == (old(self).isolation_triggered || v@ is Flag),
            final(self).test_mode == old(self).test_mode,
            final(self).heartbeat == old(self).heartbeat,
            final(self).fallback == old(self).fallback,
            final(self).config == old(self).config,
    {
        let ghost vv = v@;
        assert(seq![vv].drop_last() =~= Seq::<VerdictView>::empty());
        assert(directives_for(Seq::<VerdictView>::empty(), !self.test_mode) =~= Seq::<
            DirectiveView,
        >::empty());
        assert(seq![vv].last() == vv);
        let ghost r0 = reports@;
        let ghost p0 = self.pending@;
        match v {
            Verdict::Clear => {
                assert(self.outbox() =~= directive_views(p0) + directives_for(seq![vv], !self.test_mode));
            },
            Verdict::Exempt(k, n) => {
                self.pending.push(Directive::Exempted(k, n));
                assert(self.outbox() =~= directive_views(p0) + directives_for(seq![vv], !self.test_mode));
            },
            Verdict::Flag(r) => {
                self.trigger_isolation(&r);
                reports.push(r);
                assert(report_views(reports@) =~= report_views(r0).push(vv->Flag_0));
                assert(self.outbox() =~= directive_views(p0) + directives_for(seq![vv], !self.test_mode));
            },
        }
    }

    /// Records an input event at `now`. Synthetic input from a driver that is
    /// not allowlisted, while the physical user has been idle for 15 seconds
    /// (or in test mode), is a violation and triggers isolation.
    pub fn process_input_event(&mut self, event: &InputEvent, now: u64) -> (r: Option<ViolationReport>)
        ensures
            ({
                let h = after_input(old(self).heartbeat@, event.source, now);
                let v = input_verdict(
                    old(self).config,
                    event.source,
                    event.pid,
                    opt_view(event.device_name),
                    idle_secs(h, now),
                    old(self).test_mode,
                    now,
                );
                &&& final(self).heartbeat@ == h
                &&& match v {
                    VerdictView::Flag(rep) => r is Some && r->0@ == rep,
                    _ => r is None,
                }
                &&& final(self).outbox() == old(self).outbox() + directives_for(seq![v], !old(self).test_mode)
                &&& final(self).isolation_triggered == (old(self).isolation_triggered || v is Flag)
            }),
            final(self).test_mode == old(self).test_mode,
            final(self).fallback == old(self).fallback,
            final(self).config == old(self).config,
    {
        self.heartbeat.process_input_event(event, now);
        let idle = self.heartbeat.idle_secs(now);
        let v = input_verdict_of(&self.config, event, idle, self.test_mode, now);
        let ghost vv = v@;
        let mut reports: Vec<ViolationReport> = Vec::new();
        assert(report_views(reports@) =~= Seq::<ReportView>::empty());
        self.apply_verdict(v, &mut reports);
        assert(report_views(reports@).len() == reports@.len());
        assert(vv is Flag ==> reports@.len() == 1);
        if reports.len() > 0 {
            assert(report_views(reports@)[0] == vv->Flag_0);
            assert(reports@[0]@ == vv->Flag_0);
            reports.pop()
        } else {
            None
        }
    }

    /// Records a background activity at `now`, then runs the heartbeat analysis:
    /// its first report, unless the process is allowlisted, is a violation and
    /// triggers isolation.
    pub fn register_background_activity(&mut self, activity: BackgroundActivity, now: u64) -> (r:
        Option<ViolationReport>)
        ensures
            ({
                let h = after_activity(old(self).heartbeat@, activity@, now);
                let ds = heartbeat_verdict(h, now);
                let v = if ds.len() > 0 {
                    delta_verdict(old(self).config, ds[0], "ACTIVE_SCREEN_SCRAPING_WHILE_IDLE"@, now)
                } else {
                    VerdictView::Clear
                };
                &&& final(self).heartbeat@ == h
                &&& match v {
                    VerdictView::Flag(rep) => r is Some && r->0@ == rep,
                    _ => r is None,
                }
                &&& final(self).outbox() == old(self).outbox() + directives_for(seq![v], !old(self).test_mode)
                &&& final(self).isolation_triggered == (old(self).isolation_triggered || v is Flag)
            }),
            final(self).test_mode == old(self).test_mode,
            final(self).fallback == old(self).fallback,
            final(self).config == old(self).config,
    {
        self.heartbeat.record_background_activity(activity, now);
        let deltas = self.heartbeat.evaluate_delta(now);
        let v = if deltas.len() > 0 {
            delta_verdict_of(&self.config, &deltas[0], "ACTIVE_SCREEN_SCRAPING_WHILE_IDLE", now)
        } else {
            Verdict::Clear
        };
        let ghost vv = v@;
        let mut reports: Vec<ViolationReport> = Vec::new();
        assert(report_views(reports@) =~= Seq::<ReportView>::empty());
        self.apply_verdict(v, &mut reports);
        assert(report_views(reports@).len() == reports@.len());
        assert(vv is Flag ==> reports@.len() == 1);
        if reports.len() > 0 {
            assert(report_views(reports@)[0] == vv->Flag_0);
            assert(reports@[0]@ == vv->Flag_0);
            reports.pop()
        } else {
            None
        }
    }

    fn isolate_all(&mut self, reports: &Vec<ViolationReport>)
        ensures
            final(self).outbox() == old(self).outbox() + isolations(
                report_views(reports@),
                !old(self).test_mode,
            ),
            final(self).isolation_triggered == (old(self).isolation_triggered || reports@.len() > 0),
            final(self).test_mode == old(self).test_mode,
            final(self).heartbeat == old(self).heartbeat,
            final(self).fallback == old(self).fallback,
            final(self).config == old(self).config,
    {
        let ghost o0 = self.outbox();
        let ghost rs = report_views(reports@);
        let ghost t0 = self.isolation_triggered;
        let mut i: usize = 0;
        assert(isolations(rs.take(0), !self.test_mode) =~= Seq::<DirectiveView>::empty());
        assert(o0 + Seq::<DirectiveView>::empty() =~= o0);
        while i < reports.len()
            invariant
                i <= reports@.len(),
                rs == report_views(reports@),
                self.outbox() == o0 + isolations(rs.take(i as int), !self.test_mode),
                self.isolation_triggered == (t0 || i > 0),
                self.test_mode == old(self).test_mode,
                self.heartbeat == old(self).heartbeat,
                self.fallback == old(self).fallback,
                self.config == old(self).config,
            decreases reports@.len() - i,
        {
            self.trigger_isolation(&reports[i]);
            assert(isolations(rs.take(i + 1), !self.test_mode) =~= isolations(
                rs.take(i as int),
                !self.test_mode,
            ).push(DirectiveView::Isolate(reports@[i as int]@, !self.test_mode)));
            i = i + 1;
        }
        assert(rs.take(reports@.len() as int) =~= rs);
    }

    /// Audits the X11 socket directory (see the free `check_x11_sockets`), then
    /// isolates every violation found.
    pub fn check_x11_sockets(
        &mut self,
        config: &AppConfig,
        socket_names: &Vec<String>,
        crostini: bool,
        now: u64,
    ) -> (r: Vec<IsolationTrigger>)
        ensures
            ({
                let vs = string_views(socket_names@).map_values(
                    |n: Seq<char>| socket_verdict(*config, n, crostini, now),
                );
                &&& report_views(r@) == flagged(vs)
                &&& final(self).outbox() == old(self).outbox() + exemption_log(vs) + isolations(
                    flagged(vs),
                    !old(self).test_mode,
                )
                &&& final(self).isolation_triggered == (old(self).isolation_triggered
                    || flagged(vs).len() > 0)
            }),
            final(self).test_mode == old(self).test_mode,
            final(self).heartbeat == old(self).heartbeat,
            final(self).fallback == old(self).fallback,
            final(self).config == old(self).config,
    {
        let triggers = check_x11_sockets(config, socket_names, crostini, now, &mut self.pending);
        self.isolate_all(&triggers);
        triggers
    }

    /// Audits the input devices (see the free `check_virtual_inputs`), then
    /// isolates every violation found.
    pub fn check_virtual_inputs(&mut self, config: &AppConfig, devices: &Vec<InputDeviceInfo>, now: u64) -> (r:
        Vec<IsolationTrigger>)
        ensures
            ({
                let vs = device_views(devices@).map_values(
                    |d: DeviceView| device_verdict(*config, d, now),
                );
                &&& report_views(r@) == flagged(vs)
                &&& final(self).outbox() == old(self).outbox() + exemption_log(vs) + isolations(
                    flagged(vs),
                    !old(self).test_mode,
                )
                &&& final(self).isolation_triggered == (old(self).isolation_triggered
                    || flagged(vs).len() > 0)
            }),
            final(self).test_mode == old(self).test_mode,
            final(self).heartbeat == old(self).heartbeat,
            final(self).fallback == old(self).fallback,
            final(self).config == old(self).config,
    {
        let triggers = check_virtual_inputs(config, devices, now, &mut self.pending);
        self.isolate_all(&triggers);
        triggers
    }

    /// The same as `check_virtual_inputs`.
    pub fn check_virtual_input_drivers(
        &mut self,
        config: &AppConfig,
        devices: &Vec<InputDeviceInfo>,
        now: u64,
    ) -> (r: Vec<IsolationTrigger>)
        ensures
            ({
                let vs = device_views(devices@).map_values(
                    |d: DeviceView| device_verdict(*config, d, now),
                );
                &&& report_views(r@) == flagged(vs)
                &&& final(self).outbox() == old(self).outbox() + exemption_log(vs) + isolations(
                    flagged(vs),
                    !old(self).test_mode,
                )
                &&& final(self).isolation_triggered == (old(self).isolation_triggered
                    || flagged(vs).len() > 0)
            }),
            final(self).test_mode == old(self).test_mode,
            final(self).heartbeat == old(self).heartbeat,
            final(self).fallback == old(self).fallback,
            final(self).config == old(self).config,
    {
        self.check_virtual_inputs(config, devices, now)
    }
    /// The full sensor audit with the given configuration: hidden desktops and
    /// remote sessions, then virtual input devices (only while the physical
    /// user has been idle for 15 seconds), then the heartbeat's reports. Every
    /// violation is isolated as it is found; exemptions are logged.
    pub fn run_sensor_audit_with_config(
        &mut self,
        config: &AppConfig,
        desktops: &Vec<String>,
        devices: &Vec<InputDeviceInfo>,
        crostini: bool,
        now: u64,
    ) -> (r: Vec<ViolationReport>)
        ensures
            ({
                let vs = audit_verdicts(
                    *config,
                    old(self).heartbeat@,
                    string_views(desktops@),
                    device_views(devices@),
                    crostini,
                    now,
                );
                &&& report_views(r@) == flagged(vs)
                &&& final(self).outbox() == old(self).outbox() + directives_for(vs, !old(self).test_mode)
                &&& final(self).isolation_triggered == (old(self).isolation_triggered
                    || flagged(vs).len() > 0)
            }),
            final(self).test_mode == old(self).test_mode,
            final(self).heartbeat == old(self).heartbeat,
            final(self).fallback == old(self).fallback,
            final(self).config == old(self).config,
    {
        let ghost h = self.heartbeat@;
        let ghost o0 = self.outbox();
        let ghost t0 = self.isolation_triggered;
        let ghost cut = !self.test_mode;
        let ghost vs1 = string_views(desktops@).map_values(
            |d: Seq<char>| desktop_verdict(*config, d, crostini, now),
        );
        let ghost vs2 = device_views(devices@).map_values(
            |d: DeviceView| audit_device_verdict(*config, d, idle_secs(h, now), now),
        );
        let ghost vs3 = heartbeat_verdict(h, now).map_values(
            |d: DeltaView| delta_verdict(*config, d, "BACKGROUND_SCRAPE_OR_SOCKET_WHILE_IDLE"@, now),
        );
        let ghost mut done: Seq<VerdictView> = Seq::empty();
        let mut reports: Vec<ViolationReport> = Vec::new();
        assert(report_views(reports@) =~= flagged(done));
        assert(o0 + directives_for(done, cut) =~= o0);
        let mut i: usize = 0;
        while i < desktops.len()
            invariant
                i <= desktops@.len(),
                done == vs1.take(i as int),
                vs1 == string_views(desktops@).map_values(
                    |d: Seq<char>| desktop_verdict(*config, d, crostini, now),
                ),
                report_views(reports@) == flagged(done),
                self.outbox() == o0 + directives_for(done, cut),
                self.isolation_triggered == (t0 || flagged(done).len() > 0),
                cut == !self.test_mode,
                self.test_mode == old(self).test_mode,
                self.heartbeat == old(self).heartbeat,
                self.fallback == old(self).fallback,
                self.config == old(self).config,
            decreases desktops@.len() - i,
        {
            let v = desktop_verdict_of(config, &desktops[i], crostini, now);
            proof {
                lemma_step(done, v@, cut);
                assert(vs1.take(i + 1) =~= done.push(v@));
                done = done.push(v@);
            }
            self.apply_verdict(v, &mut reports);
            assert(self.outbox() =~= o0 + directives_for(done, cut));
            i = i + 1;
        }
        let idle = self.heartbeat.idle_secs(now);
        let mut j: usize = 0;
        assert(vs1.take(desktops@.len() as int) =~= vs1);
        assert(done =~= vs1 + vs2.take(0));
        while j < devices.len()
            invariant
                j <= devices@.len(),
                done == vs1 + vs2.take(j as int),
                idle == idle_secs(h, now),
                h == self.heartbeat@,
                vs2 == device_views(devices@).map_values(
                    |d: DeviceView| audit_device_verdict(*config, d, idle_secs(h, now), now),
                ),
                report_views(reports@) == flagged(done),
                self.outbox() == o0 + directives_for(done, cut),
                self.isolation_triggered == (t0 || flagged(done).len() > 0),
                cut == !self.test_mode,
                self.test_mode == old(self).test_mode,
                self.heartbeat == old(self).heartbeat,
                self.fallback == old(self).fallback,
                self.config == old(self).config,
            decreases devices@.len() - j,
        {
            let v = if idle >= 15 {
                device_verdict_of(config, &devices[j], now)
            } else {
                Verdict::Clear
            };
            proof {
                lemma_step(done, v@, cut);
                assert(vs1 + vs2.take(j + 1) =~= done.push(v@));
                done = done.push(v@);
            }
            self.apply_verdict(v, &mut reports);
            assert(self.outbox() =~= o0 + directives_for(done, cut));
            j = j + 1;
        }
        let deltas = self.heartbeat.evaluate_delta(now);
        let ghost dvs = deltas@.map_values(|d: HeartbeatDeltaReport| d@);
        let mut k: usize = 0;
        assert(vs2.take(devices@.len() as int) =~= vs2);
        assert(done =~= vs1 + vs2 + vs3.take(0));
        while k < deltas.len()
            invariant
                k <= deltas@.len(),
                done == vs1 + vs2 + vs3.take(k as int),
                dvs == deltas@.map_values(|d: HeartbeatDeltaReport| d@),
                dvs == heartbeat_verdict(h, now),
                vs3 == heartbeat_verdict(h, now).map_values(
                    |d: DeltaView| delta_verdict(*config, d, "BACKGROUND_SCRAPE_OR_SOCKET_WHILE_IDLE"@, now),
                ),
                report_views(reports@) == flagged(done),
                self.outbox() == o0 + directives_for(done, cut),
                self.isolation_triggered == (t0 || flagged(done).len() > 0),
                cut == !self.test_mode,
                self.test_mode == old(self).test_mode,
                self.heartbeat == old(self).heartbeat,
                self.fallback == old(self).fallback,
                self.config == old(self).config,
            decreases deltas@.len() - k,
        {
            let v = delta_verdict_of(config, &deltas[k], "BACKGROUND_SCRAPE_OR_SOCKET_WHILE_IDLE", now);
            proof {
                assert(dvs[k as int] == deltas@[k as int]@);
                lemma_step(done, v@, cut);
                assert(vs1 + vs2 + vs3.take(k + 1) =~= done.push(v@));
                done = done.push(v@);
            }
            self.apply_verdict(v, &mut reports);
            assert(self.outbox() =~= o0 + directives_for(done, cut));
            k = k + 1;
        }
        assert(vs3.take(deltas@.len() as int) =~= vs3);
        assert(done =~= audit_verdicts(
            *config,
            h,
            string_views(desktops@),
            device_views(devices@),
            crostini,
            now,
        ));
        reports
    }

    /// The full sensor audit (see `run_sensor_audit_with_config`).
    pub fn run_checks(
        &mut self,
        config: &AppConfig,
        desktops: &Vec<String>,
        devices: &Vec<InputDeviceInfo>,
        crostini: bool,
        now: u64,
    ) -> (r: Vec<IsolationTrigger>)
        ensures
            ({
                let vs = audit_verdicts(
                    *config,
                    old(self).heartbeat@,
                    string_views(desktops@),
                    device_views(devices@),
                    crostini,
                    now,
                );
                &&& report_views(r@) == flagged(vs)
                &&& final(self).outbox() == old(self).outbox() + directives_for(vs, !old(self).test_mode)
                &&& final(self).isolation_triggered == (old(self).isolation_triggered
                    || flagged(vs).len() > 0)
            }),
            final(self).test_mode == old(self).test_mode,
            final(self).heartbeat == old(self).heartbeat,
            final(self).fallback == old(self).fallback,
            final(self).config == old(self).config,
    {
        self.run_sensor_audit_with_config(config, desktops, devices, crostini, now)
    }

    /// The full sensor audit with the detector's own configuration.
    pub fn run_sensor_audit(
        &mut self,
        desktops: &Vec<String>,
        devices: &Vec<InputDeviceInfo>,
        crostini: bool,
        now: u64,
    ) -> (r: Vec<ViolationReport>)
        ensures
            ({
                let vs = audit_verdicts(
                    old(self).config,
                    old(self).heartbeat@,
                    string_views(desktops@),
                    device_views(devices@),
                    crostini,
                    now,
                );
                &&& report_views(r@) == flagged(vs)
                &&& final(self).outbox() == old(self).outbox() + directives_for(vs, !old(self).test_mode)
                &&& final(self).isolation_triggered == (old(self).isolation_triggered
                    || flagged(vs).len() > 0)
            }),
            final(self).test_mode == old(self).test_mode,
            final(self).heartbeat == old(self).heartbeat,
            final(self).fallback == old(self).fallback,
            final(self).config == old(self).config,
    {
        let mut config = AppConfig { allowlist: AllowlistConfig::empty() };
        std::mem::swap(&mut config, &mut self.config);
        let r = self.run_sensor_audit_with_config(&config, desktops, devices, crostini, now);
        std::mem::swap(&mut config, &mut self.config);
        r
    }
}

/// One more verdict adds its report and its directive at the end.
pub proof fn lemma_step(done: Seq<VerdictView>, v: VerdictView, cut: bool)
    ensures
        flagged(done.push(v)) == match v {
            VerdictView::Flag(r) => flagged(done).push(r),
            _ => flagged(done),
        },
        directives_for(done.push(v), cut) == directives_for(done, cut) + directives_for(seq![v], cut),
        exemption_log(done.push(v)) == exemption_log(done) + exemption_log(seq![v]),
{
    assert(done.push(v).drop_last() =~= done);
    assert(seq![v].drop_last() =~= Seq::<VerdictView>::empty());
    assert(directives_for(Seq::<VerdictView>::empty(), cut) =~= Seq::<DirectiveView>::empty());
    assert(exemption_log(Seq::<VerdictView>::empty()) =~= Seq::<DirectiveView>::empty());
    match v {
        VerdictView::Clear => {
            assert(directives_for(done, cut) + directives_for(seq![v], cut) =~= directives_for(done, cut));
            assert(exemption_log(done) + exemption_log(seq![v]) =~= exemption_log(done));
        },
        VerdictView::Exempt(k, n) => {
            assert(directives_for(seq![v], cut) =~= seq![DirectiveView::Exempted(k, n)]);
            assert(exemption_log(seq![v]) =~= seq![DirectiveView::Exempted(k, n)]);
        },
        VerdictView::Flag(r) => {
            assert(directives_for(seq![v], cut) =~= seq![DirectiveView::Isolate(r, cut)]);
            assert(exemption_log(done) + exemption_log(seq![v]) =~= exemption_log(done));
        },
    }
}


/// The AFK guard: while it is on, input the system saw within the last 4
/// seconds while the physical heartbeat has been idle for 5 seconds or more
/// is synthetic input.
pub fn afk_violation(system_idle_secs: u64, heartbeat_idle_secs: u64) -> (r: bool)
    ensures
        r == (system_idle_secs < 4 && heartbeat_idle_secs >= 5),
{
    system_idle_secs < 4 && heartbeat_idle_secs >= 5
}

/// The reports of the isolation directives of `ds`, in order.
pub open spec fn isolated_reports(ds: Seq<DirectiveView>) -> Seq<ReportView>
    decreases ds.len(),
{
    if ds.len() == 0 {
        seq![]
    } else {
        match ds.last() {
            DirectiveView::Isolate(r, _) => isolated_reports(ds.drop_last()).push(r),
            _ => isolated_reports(ds.drop_last()),
        }
    }
}

/// The exemption directives of `ds`, in order.
pub open spec fn exemptions_in(ds: Seq<DirectiveView>) -> Seq<DirectiveView>
    decreases ds.len(),
{
    if ds.len() == 0 {
        seq![]
    } else {
        match ds.last() {
            DirectiveView::Exempted(k, n) => exemptions_in(ds.drop_last()).push(ds.last()),
            _ => exemptions_in(ds.drop_last()),
        }
    }
}

/// Each violation found is isolated, in the order found, and nothing else is;
/// each exemption is logged, in order; in test mode no directive cuts the network.
pub proof fn lemma_every_violation_isolated(vs: Seq<VerdictView>, cut: bool)
    ensures
        isolated_reports(directives_for(vs, cut)) == flagged(vs),
        exemptions_in(directives_for(vs, cut)) == exemption_log(vs),
        forall|i: int|
            0 <= i < directives_for(vs, cut).len() ==> match #[trigger] directives_for(vs, cut)[i] {
                DirectiveView::Isolate(_, c) => c == cut,
                _ => true,
            },
    decreases vs.len(),
{
    if vs.len() > 0 {
        let p = vs.drop_last();
        lemma_every_violation_isolated(p, cut);
        let d = directives_for(p, cut);
        match vs.last() {
            VerdictView::Clear => {},
            VerdictView::Exempt(k, n) => {
                let x = DirectiveView::Exempted(k, n);
                assert(d.push(x).drop_last() =~= d);
                assert forall|i: int| 0 <= i < d.push(x).len() implies match #[trigger] d.push(x)[i] {
                    DirectiveView::Isolate(_, c) => c == cut,
                    _ => true,
                } by {
                    if i < d.len() {
                        assert(d.push(x)[i] == d[i]);
                    }
                }
            },
            VerdictView::Flag(r) => {
                let x = DirectiveView::Isolate(r, cut);
                assert(d.push(x).drop_last() =~= d);
                assert forall|i: int| 0 <= i < d.push(x).len() implies match #[trigger] d.push(x)[i] {
                    DirectiveView::Isolate(_, c) => c == cut,
                    _ => true,
                } by {
                    if i < d.len() {
                        assert(d.push(x)[i] == d[i]);
                    }
                }
            },
        }
    }
}

/// An allowlisted virtual driver is never flagged, by the device audit or as
/// the source of synthetic input.
pub proof fn lemma_allowlisted_driver_never_flagged(
    c: AppConfig,
    d: DeviceView,
    pid: Option<u32>,
    idle: nat,
    test_mode: bool,
    now: u64,
)
    requires
        c.allowlist.drivers().contains(d.name),
    ensures
        !(device_verdict(c, d, now) is Flag),
        !(audit_device_verdict(c, d, idle, now) is Flag),
        !(input_verdict(c, InputSource::SyntheticSoftware, pid, Some(d.name), idle, test_mode, now) is Flag),
{
}

/// An allowlisted process is never flagged by the heartbeat analysis.
pub proof fn lemma_allowlisted_process_never_flagged(
    c: AppConfig,
    d: DeltaView,
    flag2: Seq<char>,
    now: u64,
)
    requires
        c.allowlist.processes().contains(d.process_name),
    ensures
        !(delta_verdict(c, d, flag2, now) is Flag),
{
}

/// Physical input and input of unknown origin are never violations.
pub proof fn lemma_only_synthetic_input_flagged(
    c: AppConfig,
    source: InputSource,
    pid: Option<u32>,
    device: Option<Seq<char>>,
    idle: nat,
    test_mode: bool,
    now: u64,
)
    requires
        source != InputSource::SyntheticSoftware,
    ensures
        input_verdict(c, source, pid, device, idle, test_mode, now) == VerdictView::Clear,
{
}

/// Synthetic input from a driver that is not allowlisted is a violation when
/// the physical user has been idle for 15 seconds or more.
pub proof fn lemma_synthetic_input_while_idle_flagged(
    c: AppConfig,
    pid: Option<u32>,
    device: Option<Seq<char>>,
    idle: nat,
    test_mode: bool,
    now: u64,
)
    requires
        idle >= 15 || test_mode,
        device is Some ==> !c.allowlist.drivers().contains(device->0),
    ensures
        input_verdict(c, InputSource::SyntheticSoftware, pid, device, idle, test_mode, now) is Flag,
{
}

/// An X11 socket whose display index the allowlist names (as `X<n>`, `:<n>`
/// or `<n>`) is never flagged.
pub proof fn lemma_allowlisted_socket_exempt(
    c: AppConfig,
    name: Seq<char>,
    n: nat,
    crostini: bool,
    now: u64,
)
    requires
        display_number(trim(name)) == Some(n),
        c.allowlist.displays().contains(seq!['X'] + decimal(n)) || c.allowlist.displays().contains(
            seq![':'] + decimal(n),
        ) || c.allowlist.displays().contains(decimal(n)),
    ensures
        !(socket_verdict(c, name, crostini, now) is Flag),
{
    let l = c.allowlist.displays();
    let x = seq!['X'] + decimal(n);
    if l.contains(decimal(n)) {
        let k = choose|k: int| 0 <= k < l.len() && l[k] == decimal(n);
        assert(display_entry_matches(l[k], decimal(n)));
        assert(c.display_allowed(decimal(n), crostini));
    } else {
        let k = if l.contains(x) {
            choose|k: int| 0 <= k < l.len() && l[k] == x
        } else {
            choose|k: int| 0 <= k < l.len() && l[k] == seq![':'] + decimal(n)
        };
        assert(display_entry_matches(l[k], x)) by {
            if !l.contains(x) {
                assert(l[k].drop_first() =~= x.drop_first());
            }
        }
        assert(c.display_allowed(x, crostini));
    }
}

proof fn lemma_trim_x_decimal(n: nat)
    ensures
        trim(seq!['X'] + decimal(n)) == seq!['X'] + decimal(n),
{
    let s = seq!['X'] + decimal(n);
    lemma_decimal_last_is_digit(n);
    assert(s[0] == 'X');
    assert(trim_start(s) == s);
    assert(s.last() == decimal(n).last());
    assert(trim_end(s) == s);
}

proof fn lemma_decimal_last_is_digit(n: nat)
    ensures
        decimal(n).len() > 0,
        '0' <= decimal(n).last() <= '9',
    decreases n,
{
    if n >= 10 {
        lemma_decimal_last_is_digit(n / 10);
    }
}

/// Under Crostini the sockets of the display proxies (indices 1 and 20) are never flagged.
pub proof fn lemma_crostini_sockets_exempt(c: AppConfig, name: Seq<char>, now: u64)
    requires
        display_number(trim(name)) == Some(1nat) || display_number(trim(name)) == Some(20nat),
    ensures
        !(socket_verdict(c, name, true, now) is Flag),
{
    if display_number(trim(name)) == Some(20nat) {
        let x = seq!['X'] + decimal(20);
        lemma_trim_x_decimal(20);
        assert(x.drop_first() =~= decimal(20));
        lemma_parse_decimal(20, u32::MAX as nat);
        assert(display_number(x) == Some(20nat));
        assert(crostini_proxy_display(x));
        assert(c.display_allowed(x, true));
    }
}

/// With the physical user idle for at least the threshold, recording a recent
/// activity that captures the screen or holds an outbound socket makes the
/// heartbeat report something.
pub proof fn lemma_idle_suspicious_activity_reported(h: HeartbeatView, a: ActivityView, now: u64)
    requires
        idle_secs(h, now) >= h.idle_threshold_secs,
        is_suspicious(a),
        is_recent(a, now),
    ensures
        heartbeat_verdict(after_activity(h, a, now), now).len() > 0,
{
    let s = h.activities.push(a);
    assert(s.drop_last() =~= h.activities);
    let kept = keep_recent(s, now);
    assert(kept == keep_recent(h.activities, now).push(a));
    lemma_delta_reports_last(kept, idle_secs(h, now));
}

proof fn lemma_delta_reports_last(s: Seq<ActivityView>, idle: nat)
    requires
        s.len() > 0,
        is_suspicious(s.last()),
    ensures
        delta_reports(s, idle).len() > 0,
{
}

/// What one call on a detector did to its isolation state: a call that looks
/// for violations (`Checked(true)` when it returned a report, or a non-empty
/// list of them; `Checked(false)` otherwise, and for the calls that look for
/// nothing), or `reset_isolation_state`.
pub enum IsolationEvent {
    Checked(bool),
    Reset,
}

/// The isolation flag before and after one call, as the methods' contracts
/// give it: a check raises it when it found a violation and never lowers it;
/// a reset lowers it.
pub open spec fn latch_step(before: bool, e: IsolationEvent, after: bool) -> bool {
    match e {
        IsolationEvent::Checked(found) => after == (before || found),
        IsolationEvent::Reset => !after,
    }
}

/// The call reported a violation.
pub open spec fn found_violation(e: IsolationEvent) -> bool {
    match e {
        IsolationEvent::Checked(found) => found,
        IsolationEvent::Reset => false,
    }
}

/// No call of `events` after the `i`-th was a reset.
pub open spec fn no_reset_after(events: Seq<IsolationEvent>, i: int) -> bool {
    forall|j: int| i < j < events.len() ==> !(#[trigger] events[j] is Reset)
}

/// Some call in `events` reported a violation, and no reset came after it.
pub open spec fn reported_since_reset(events: Seq<IsolationEvent>) -> bool {
    exists|i: int| 0 <= i < events.len() && found_violation(#[trigger] events[i]) && no_reset_after(events, i)
}

/// The isolation flag after `events`, starting without isolation.
pub open spec fn latch_of(events: Seq<IsolationEvent>) -> bool
    decreases events.len(),
{
    if events.len() == 0 {
        false
    } else {
        match events.last() {
            IsolationEvent::Checked(found) => latch_of(events.drop_last()) || found,
            IsolationEvent::Reset => false,
        }
    }
}

proof fn lemma_latch_flags(flags: Seq<bool>, events: Seq<IsolationEvent>)
    requires
        flags.len() == events.len() + 1,
        !flags[0],
        forall|i: int| 0 <= i < events.len() ==> latch_step(#[trigger] flags[i], events[i], flags[i + 1]),
    ensures
        flags.last() == latch_of(events),
    decreases events.len(),
{
    if events.len() > 0 {
        let n = events.len() - 1;
        let f0 = flags.drop_last();
        let v0 = events.drop_last();
        assert forall|i: int| 0 <= i < v0.len() implies latch_step(#[trigger] f0[i], v0[i], f0[i + 1]) by {
            assert(latch_step(flags[i], events[i], flags[i + 1]));
        }
        lemma_latch_flags(f0, v0);
        assert(latch_step(flags[n], events[n], flags[n + 1]));
    }
}

proof fn lemma_no_reset_after_prefix(events: Seq<IsolationEvent>, i: int)
    requires
        events.len() > 0,
        0 <= i < events.len() - 1,
    ensures
        no_reset_after(events, i) <==> (no_reset_after(events.drop_last(), i) && !(events.last() is Reset)),
{
    let v0 = events.drop_last();
    if no_reset_after(events, i) {
        assert forall|j: int| i < j < v0.len() implies !(#[trigger] v0[j] is Reset) by {
            assert(v0[j] == events[j]);
        }
        assert(!(events[events.len() - 1] is Reset));
    }
    if no_reset_after(v0, i) && !(events.last() is Reset) {
        assert forall|j: int| i < j < events.len() implies !(#[trigger] events[j] is Reset) by {
            if j < v0.len() {
                assert(v0[j] == events[j]);
            }
        }
    }
}

#[verifier::rlimit(30)]
proof fn lemma_latch_reported(events: Seq<IsolationEvent>)
    ensures
        latch_of(events) == reported_since_reset(events),
    decreases events.len(),
{
    if events.len() > 0 {
        let n = events.len() - 1;
        let v0 = events.drop_last();
        lemma_latch_reported(v0);
        if reported_since_reset(events) {
            let i = choose|i: int|
                0 <= i < events.len() && found_violation(#[trigger] events[i]) && no_reset_after(events, i);
            if i < n {
                lemma_no_reset_after_prefix(events, i);
                assert(v0[i] == events[i]);
                assert(found_violation(v0[i]));
                assert(reported_since_reset(v0));
            }
        }
        match events[n] {
            IsolationEvent::Reset => {
                if reported_since_reset(events) {
                    let i = choose|i: int|
                        0 <= i < events.len() && found_violation(#[trigger] events[i]) && no_reset_after(events, i);
                    if i < n {
                        lemma_no_reset_after_prefix(events, i);
                    }
                }
            },
            IsolationEvent::Checked(found) => {
                if found {
                    assert(found_violation(events[n]));
                    assert(no_reset_after(events, n as int));
                }
                if reported_since_reset(v0) {
                    let i = choose|i: int|
                        0 <= i < v0.len() && found_violation(#[trigger] v0[i]) && no_reset_after(v0, i);
                    lemma_no_reset_after_prefix(events, i);
                    assert(events[i] == v0[i]);
                    assert(found_violation(events[i]));
                }
            },
        }
    }
}

/// The isolation latch: for a detector that starts without isolation (as
/// `new` and `with_config` build it) and then goes through a sequence of calls,
/// `is_isolation_triggered` holds exactly when some call since the start or
/// since the last `reset_isolation_state` returned a violation report or a
/// non-empty list of them.
pub proof fn lemma_isolation_latch(engines: Seq<DetectorEngine>, events: Seq<IsolationEvent>)
    requires
        engines.len() == events.len() + 1,
        !engines[0].isolation_triggered,
        forall|i: int|
            0 <= i < events.len() ==> latch_step(
                #[trigger] engines[i].isolation_triggered,
                events[i],
                engines[i + 1].isolation_triggered,
            ),
    ensures
        engines.last().isolation_triggered <==> reported_since_reset(events),
{
    let flags = engines.map_values(|e: DetectorEngine| e.isolation_triggered);
    assert forall|i: int| 0 <= i < events.len() implies latch_step(#[trigger] flags[i], events[i], flags[i + 1]) by {
        assert(latch_step(engines[i].isolation_triggered, events[i], engines[i + 1].isolation_triggered));
    }
    lemma_latch_flags(flags, events);
    lemma_latch_reported(events);
    assert(flags.last() == engines.last().isolation_triggered);
}

/// Every isolation directive of `ds` has `cut` as its network flag.
pub open spec fn cuts_follow(ds: Seq<DirectiveView>, cut: bool) -> bool {
    forall|i: int|
        0 <= i < ds.len() ==> match #[trigger] ds[i] {
            DirectiveView::Isolate(_, c) => c == cut,
            _ => true,
        }
}

/// The directives that a call appended to the detector's pending ones.
pub open spec fn appended(a: DetectorEngine, b: DetectorEngine) -> Seq<DirectiveView> {
    if b.outbox().len() >= a.outbox().len() {
        b.outbox().skip(a.outbox().len() as int)
    } else {
        seq![]
    }
}

/// One public call on a detector, as the methods' contracts give it: the test
/// mode is kept, and the pending directives either are handed out
/// (`take_directives`) or grow by directives whose isolations cut the network
/// exactly when the detector was not in test mode.
pub open spec fn engine_call(a: DetectorEngine, b: DetectorEngine) -> bool {
    &&& b.test_mode == a.test_mode
    &&& (b.outbox().len() == 0 || (a.outbox().len() <= b.outbox().len() && b.outbox().take(
        a.outbox().len() as int,
    ) == a.outbox()))
    &&& cuts_follow(appended(a, b), !a.test_mode)
}

/// What the methods append follows the network flag they are given: the
/// directives of a run of verdicts, an exemption log followed by isolations,
/// and nothing at all.
pub proof fn lemma_appended_forms(vs: Seq<VerdictView>, rs: Seq<ReportView>, cut: bool)
    ensures
        cuts_follow(directives_for(vs, cut), cut),
        cuts_follow(exemption_log(vs) + isolations(rs, cut), cut),
        cuts_follow(Seq::<DirectiveView>::empty(), cut),
{
    lemma_every_violation_isolated(vs, cut);
    lemma_exemption_log_kinds(vs);
    let d = exemption_log(vs) + isolations(rs, cut);
    assert forall|i: int| 0 <= i < d.len() implies match #[trigger] d[i] {
        DirectiveView::Isolate(_, c) => c == cut,
        _ => true,
    } by {
        if i < exemption_log(vs).len() {
            assert(d[i] == exemption_log(vs)[i]);
        } else {
            assert(d[i] == isolations(rs, cut)[i - exemption_log(vs).len()]);
        }
    }
}

/// A call whose contract keeps the test mode and appends `added` (whose
/// isolations follow the detector's own flag) to the pending directives, or
/// hands them all out, is an `engine_call`.
pub proof fn lemma_engine_call_of(a: DetectorEngine, b: DetectorEngine, added: Seq<DirectiveView>)
    requires
        b.test_mode == a.test_mode,
        b.outbox() == a.outbox() + added || b.outbox().len() == 0,
        b.outbox() == a.outbox() + added ==> cuts_follow(added, !a.test_mode),
    ensures
        engine_call(a, b),
{
    if b.outbox() == a.outbox() + added {
        assert(b.outbox().take(a.outbox().len() as int) =~= a.outbox());
        assert(appended(a, b) =~= added);
    } else {
        assert(appended(a, b).len() == 0);
    }
}

proof fn lemma_exemption_log_kinds(vs: Seq<VerdictView>)
    ensures
        forall|i: int| 0 <= i < exemption_log(vs).len() ==> #[trigger] exemption_log(vs)[i] is Exempted,
    decreases vs.len(),
{
    if vs.len() > 0 {
        lemma_exemption_log_kinds(vs.drop_last());
        let p = exemption_log(vs.drop_last());
        match vs.last() {
            VerdictView::Exempt(k, n) => {
                assert forall|i: int| 0 <= i < exemption_log(vs).len() implies #[trigger] exemption_log(vs)[i] is Exempted by {
                    if i < p.len() {
                        assert(exemption_log(vs)[i] == p[i]);
                    }
                }
            },
            _ => {},
        }
    }
}

/// Test mode never cuts the network: along any sequence of calls on a
/// detector in test mode (`set_test_mode(true)` among them), the detector stays
/// in test mode and no call appends an isolation directive that cuts the
/// network; when none was pending at the start, none is ever pending, so none
/// is ever handed out by `take_directives`.
pub proof fn lemma_test_mode_never_cuts(engines: Seq<DetectorEngine>)
    requires
        engines.len() > 0,
        engines[0].test_mode,
        forall|i: int| 0 <= i < engines.len() - 1 ==> engine_call(#[trigger] engines[i], engines[i + 1]),
    ensures
        forall|i: int| 0 <= i < engines.len() ==> (#[trigger] engines[i]).test_mode,
        forall|i: int| 0 <= i < engines.len() - 1 ==> cuts_follow(appended(#[trigger] engines[i], engines[i + 1]), false),
        cuts_follow(engines[0].outbox(), false) ==> forall|i: int|
            0 <= i < engines.len() ==> cuts_follow((#[trigger] engines[i]).outbox(), false),
    decreases engines.len(),
{
    if engines.len() > 1 {
        let e0 = engines.drop_last();
        let n = engines.len() - 1;
        assert forall|i: int| 0 <= i < e0.len() - 1 implies engine_call(#[trigger] e0[i], e0[i + 1]) by {
            assert(engine_call(engines[i], engines[i + 1]));
        }
        lemma_test_mode_never_cuts(e0);
        assert(e0[n - 1] == engines[n - 1]);
        assert(engine_call(engines[n - 1], engines[n]));
        assert forall|i: int| 0 <= i < engines.len() implies (#[trigger] engines[i]).test_mode by {
            if i < n {
                assert(e0[i] == engines[i]);
            }
        }
        assert forall|i: int| 0 <= i < engines.len() - 1 implies cuts_follow(
            appended(#[trigger] engines[i], engines[i + 1]),
            false,
        ) by {
            if i < n - 1 {
                assert(e0[i] == engines[i] && e0[i + 1] == engines[i + 1]);
            }
        }
        if cuts_follow(engines[0].outbox(), false) {
            assert forall|i: int| 0 <= i < engines.len() implies cuts_follow(
                (#[trigger] engines[i]).outbox(),
                false,
            ) by {
                if i < n {
                    assert(e0[i] == engines[i]);
                } else {
                    let a = engines[n - 1];
                    let b = engines[n];
                    assert(cuts_follow(a.outbox(), false));
                    if b.outbox().len() > 0 {
                        let k = a.outbox().len() as int;
                        assert forall|j: int| 0 <= j < b.outbox().len() implies match #[trigger] b.outbox()[j] {
                            DirectiveView::Isolate(_, c) => c == false,
                            _ => true,
                        } by {
                            if j < k {
                                assert(b.outbox()[j] == b.outbox().take(k)[j]);
                                assert(b.outbox()[j] == a.outbox()[j]);
                            } else {
                                assert(b.outbox()[j] == appended(a, b)[j - k]);
                            }
                        }
                    }
                }
            }
        }
    }
}

/// A hidden-desktop finding of the platform scan is never passed over: unless
/// the allowlist exempts its display or its process, it is a violation whose
/// report names the finding, carries the hidden-desktop flags and says that a
/// non-standard hidden desktop session was detected, whatever the display's
/// index.
pub proof fn lemma_hidden_desktop_findings_flagged(c: AppConfig, desk: Seq<char>, crostini: bool, now: u64)
    ensures
        !(desktop_verdict(c, desk, crostini, now) is Clear),
        (match desktop_display(desk) {
            Some(d) => display_exemption(c, d, crostini) is None,
            None => true,
        }) && process_exemption(c, desk) is None ==> desktop_verdict(c, desk, crostini, now)
            == VerdictView::Flag(
            ReportView {
                target_pid: None,
                desktop_identifier: Some(desk),
                event_flags: seq!["HIDDEN_DESKTOP_DETECTED"@, "HVNC_SESSION_FLAG"@],
                description: "Non-standard hidden desktop session detected: "@ + desk,
                timestamp: now,
            },
        ),
{
}

} // verus!
