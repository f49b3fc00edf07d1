use vstd::prelude::*;
use crate::platform::{InputEvent, InputSource};
use crate::text::{decimal, push_decimal, push_str};

verus! {

/// How long a background activity stays in the heartbeat's window, in milliseconds.
pub const RETENTION_MS: u64 = 60_000;

/// A background process doing screen capture or network work, observed at
/// `timestamp` (milliseconds on the daemon's monotonic clock).
#[derive(Debug)]
pub struct BackgroundActivity {
    pub pid: u32,
    pub process_name: String,
    pub has_framebuffer_capture: bool,
    pub has_outbound_socket: bool,
    pub timestamp: u64,
}

pub struct ActivityView {
    pub pid: u32,
    pub process_name: Seq<char>,
    pub has_framebuffer_capture: bool,
    pub has_outbound_socket: bool,
    pub timestamp: u64,
}

impl View for BackgroundActivity {
    type V = ActivityView;

    open spec fn view(&self) -> ActivityView {
        ActivityView {
            pid: self.pid,
            process_name: self.process_name@,
            has_framebuffer_capture: self.has_framebuffer_capture,
            has_outbound_socket: self.has_outbound_socket,
            timestamp: self.timestamp,
        }
    }
}

impl Clone for BackgroundActivity {
    fn clone(&self) -> (r: Self)
        ensures
            r@ == self@,
    {
        BackgroundActivity {
            pid: self.pid,
            process_name: self.process_name.clone(),
            has_framebuffer_capture: self.has_framebuffer_capture,
            has_outbound_socket: self.has_outbound_socket,
            timestamp: self.timestamp,
        }
    }
}

/// The heartbeat's verdict on one background activity seen while the user was idle.
#[derive(Debug, Clone)]
pub struct HeartbeatDeltaReport {
    pub target_pid: u32,
    pub process_name: String,
    pub idle_duration_secs: u64,
    pub has_framebuffer_capture: bool,
    pub has_outbound_socket: bool,
    pub is_violation: bool,
    pub flag_reason: String,
}

pub struct DeltaView {
    pub target_pid: u32,
    pub process_name: Seq<char>,
    pub idle_duration_secs: nat,
    pub has_framebuffer_capture: bool,
    pub has_outbound_socket: bool,
    pub is_violation: bool,
    pub flag_reason: Seq<char>,
}

impl View for HeartbeatDeltaReport {
    type V = DeltaView;

    open spec fn view(&self) -> DeltaView {
        DeltaView {
            target_pid: self.target_pid,
            process_name: self.process_name@,
            idle_duration_secs: self.idle_duration_secs as nat,
            has_framebuffer_capture: self.has_framebuffer_capture,
            has_outbound_socket: self.has_outbound_socket,
            is_violation: self.is_violation,
            flag_reason: self.flag_reason@,
        }
    }
}

/// Tracks the last physical input, the last synthetic input and the recent
/// background activities, to tell when the machine works while nobody is at it.
pub struct HeartbeatEngine {
    last_physical_input: u64,
    last_synthetic_input: Option<u64>,
    recent_activities: Vec<BackgroundActivity>,
    idle_threshold_secs: u64,
}

pub struct HeartbeatView {
    pub last_physical_input: u64,
    pub last_synthetic_input: Option<u64>,
    pub activities: Seq<ActivityView>,
    pub idle_threshold_secs: u64,
}

impl View for HeartbeatEngine {
    type V = HeartbeatView;

    closed spec fn view(&self) -> HeartbeatView {
        HeartbeatView {
            last_physical_input: self.last_physical_input,
            last_synthetic_input: self.last_synthetic_input,
            activities: self.recent_activities@.map_values(|a: BackgroundActivity| a@),
            idle_threshold_secs: self.idle_threshold_secs,
        }
    }
}

/// The heartbeat once an input event from `source` is recorded at `now`.
pub open spec fn after_input(h: HeartbeatView, source: InputSource, now: u64) -> HeartbeatView {
    match source {
        InputSource::PhysicalHardware => HeartbeatView { last_physical_input: now, ..h },
        InputSource::SyntheticSoftware => HeartbeatView { last_synthetic_input: Some(now), ..h },
        InputSource::Unknown => h,
    }
}

/// The heartbeat once a background activity is recorded at `now`.
pub open spec fn after_activity(h: HeartbeatView, a: ActivityView, now: u64) -> HeartbeatView {
    HeartbeatView { activities: keep_recent(h.activities.push(a), now), ..h }
}

/// Milliseconds from `from` to `now`, zero when `now` is earlier (`Instant::duration_since`).
pub open spec fn elapsed_ms(from: u64, now: u64) -> nat {
    if now >= from {
        (now - from) as nat
    } else {
        0
    }
}

/// Whole seconds of physical idleness at `now`.
pub open spec fn idle_secs(h: HeartbeatView, now: u64) -> nat {
    elapsed_ms(h.last_physical_input, now) / 1000
}

/// An activity is kept while it is at most a minute old.
pub open spec fn is_recent(a: ActivityView, now: u64) -> bool {
    elapsed_ms(a.timestamp, now) <= RETENTION_MS
}

/// The activities of `s` that are still recent at `now`, in order.
pub open spec fn keep_recent(s: Seq<ActivityView>, now: u64) -> Seq<ActivityView>
    decreases s.len(),
{
    if s.len() == 0 {
        seq![]
    } else {
        let r = keep_recent(s.drop_last(), now);
        if is_recent(s.last(), now) {
            r.push(s.last())
        } else {
            r
        }
    }
}

/// An activity the heartbeat flags: it captures the screen or holds an outbound socket.
pub open spec fn is_suspicious(a: ActivityView) -> bool {
    a.has_framebuffer_capture || a.has_outbound_socket
}

pub open spec fn delta_reason(idle: nat, pid: u32, name: Seq<char>) -> Seq<char> {
    "Physical input zero for "@ + decimal(idle) + "s (>=15s), but target PID "@ + decimal(
        pid as nat,
    ) + " ("@ + name + ") executed active framebuffer capture/outbound socket"@
}

pub open spec fn delta_of(a: ActivityView, idle: nat) -> DeltaView {
    DeltaView {
        target_pid: a.pid,
        process_name: a.process_name,
        idle_duration_secs: idle,
        has_framebuffer_capture: a.has_framebuffer_capture,
        has_outbound_socket: a.has_outbound_socket,
        is_violation: true,
        flag_reason: delta_reason(idle, a.pid, a.process_name),
    }
}

/// One report for each suspicious activity of `s`, in order.
pub open spec fn delta_reports(s: Seq<ActivityView>, idle: nat) -> Seq<DeltaView>
    decreases s.len(),
{
    if s.len() == 0 {
        seq![]
    } else {
        let r = delta_reports(s.drop_last(), idle);
        if is_suspicious(s.last()) {
            r.push(delta_of(s.last(), idle))
        } else {
            r
        }
    }
}

/// What the heartbeat reports at `now`: nothing unless the user has been idle
/// for the threshold, and then every suspicious recent activity.
pub open spec fn heartbeat_verdict(h: HeartbeatView, now: u64) -> Seq<DeltaView> {
    if idle_secs(h, now) >= h.idle_threshold_secs {
        delta_reports(h.activities, idle_secs(h, now))
    } else {
        seq![]
    }
}

impl HeartbeatEngine {
    /// A heartbeat that counts the physical user as present at `now`.
    pub fn new(idle_threshold_secs: u64, now: u64) -> (r: HeartbeatEngine)
        ensures
            r@.last_physical_input == now,
            r@.last_synthetic_input is None,
            r@.activities.len() == 0,
            r@.idle_threshold_secs == idle_threshold_secs,
    {
        let r = HeartbeatEngine {
            last_physical_input: now,
            last_synthetic_input: None,
            recent_activities: Vec::new(),
            idle_threshold_secs,
        };
        assert(r@.activities =~= Seq::<ActivityView>::empty());
        r
    }

    /// The idle threshold, in seconds.
    pub fn idle_threshold_secs(&self) -> (r: u64)
        ensures
            r == self@.idle_threshold_secs,
    {
        self.idle_threshold_secs
    }

    /// Records physical input at `now`.
    pub fn record_physical_input(&mut self, now: u64)
        ensures
            final(self)@ == (HeartbeatView { last_physical_input: now, ..old(self)@ }),
    {
        self.last_physical_input = now;
    }

    /// Makes the physical user look idle for `secs` seconds at `now`; when the
    /// clock cannot go back that far, the user counts as present at `now`.
    pub fn simulate_idle_seconds(&mut self, secs: u64, now: u64)
        ensures
            final(self)@ == (HeartbeatView {
                last_physical_input: if secs * 1000 <= now {
                    (now - secs * 1000) as u64
                } else {
                    now
                },
                ..old(self)@
            }),
    {
        if secs <= now / 1000 {
            self.last_physical_input = now - secs * 1000;
        } else {
            self.last_physical_input = now;
        }
    }

    /// Records synthetic input at `now`.
    pub fn record_synthetic_input(&mut self, now: u64)
        ensures
            final(self)@ == (HeartbeatView { last_synthetic_input: Some(now), ..old(self)@ }),
    {
        self.last_synthetic_input = Some(now);
    }

    /// Adds an activity to the window, then drops those more than a minute older than `now`.
    pub fn record_background_activity(&mut self, activity: BackgroundActivity, now: u64)
        ensures
            final(self)@ == after_activity(old(self)@, activity@, now),
    {
        let ghost all = self@.activities.push(activity@);
        self.recent_activities.push(activity);
        let mut kept: Vec<BackgroundActivity> = Vec::new();
        let n = self.recent_activities.len();
        let mut i: usize = 0;
        assert(all.take(0) =~= Seq::<ActivityView>::empty());
        while i < n
            invariant
                n == self.recent_activities@.len(),
                i <= n,
                all == self.recent_activities@.map_values(|a: BackgroundActivity| a@),
                kept@.map_values(|a: BackgroundActivity| a@) == keep_recent(
                    all.take(i as int),
                    now,
                ),
            decreases n - i,
        {
            let a = &self.recent_activities[i];
            let ghost before = kept@.map_values(|a: BackgroundActivity| a@);
            assert(all.take(i + 1).drop_last() =~= all.take(i as int));
            assert(all.take(i + 1).last() == a@);
            if a.timestamp > now || now - a.timestamp <= RETENTION_MS {
                kept.push(a.clone());
                assert(kept@.map_values(|a: BackgroundActivity| a@) =~= before.push(
                    self.recent_activities@[i as int]@,
                ));
            }
            i = i + 1;
        }
        assert(all.take(n as int) =~= all);
        self.recent_activities = kept;
    }

    /// Records an input event at `now`: physical input resets the idle time,
    /// synthetic input is noted, input of unknown origin is ignored.
    pub fn process_input_event(&mut self, event: &InputEvent, now: u64)
        ensures
            final(self)@ == after_input(old(self)@, event.source, now),
    {
        match event.source {
            InputSource::PhysicalHardware => self.record_physical_input(now),
            InputSource::SyntheticSoftware => self.record_synthetic_input(now),
            InputSource::Unknown => {},
        }
    }

    /// Milliseconds since the last physical input.
    pub fn get_idle_duration(&self, now: u64) -> (r: u64)
        ensures
            r == elapsed_ms(self@.last_physical_input, now),
    {
        if now >= self.last_physical_input {
            now - self.last_physical_input
        } else {
            0
        }
    }

    /// Whole seconds since the last physical input.
    pub fn idle_secs(&self, now: u64) -> (r: u64)
        ensures
            r == idle_secs(self@, now),
    {
        self.get_idle_duration(now) / 1000
    }

    /// Heartbeat delta analysis: when the user has been idle for at least the
    /// threshold, every recent activity that captures the screen or holds an
    /// outbound socket is flagged.
    pub fn evaluate_delta(&self, now: u64) -> (r: Vec<HeartbeatDeltaReport>)
        ensures
            r@.map_values(|d: HeartbeatDeltaReport| d@) == heartbeat_verdict(self@, now),
    {
        let mut reports: Vec<HeartbeatDeltaReport> = Vec::new();
        let idle = self.idle_secs(now);
        if idle < self.idle_threshold_secs {
            assert(reports@.map_values(|d: HeartbeatDeltaReport| d@) =~= Seq::<DeltaView>::empty());
            return reports;
        }
        let ghost acts = self@.activities;
        let n = self.recent_activities.len();
        let mut i: usize = 0;
        assert(acts.take(0) =~= Seq::<ActivityView>::empty());
        assert(reports@.map_values(|d: HeartbeatDeltaReport| d@) =~= Seq::<DeltaView>::empty());
        while i < n
            invariant
                n == self.recent_activities@.len(),
                i <= n,
                acts == self@.activities,
                acts == self.recent_activities@.map_values(|a: BackgroundActivity| a@),
                idle == idle_secs(self@, now),
                reports@.map_values(|d: HeartbeatDeltaReport| d@) == delta_reports(
                    acts.take(i as int),
                    idle as nat,
                ),
            decreases n - i,
        {
            let act = &self.recent_activities[i];
            let ghost before = reports@.map_values(|d: HeartbeatDeltaReport| d@);
            assert(acts.take(i + 1).drop_last() =~= acts.take(i as int));
            assert(acts.take(i + 1).last() == act@);
            if act.has_framebuffer_capture || act.has_outbound_socket {
                let mut reason = String::new();
                push_str(&mut reason, "Physical input zero for ");
                push_decimal(&mut reason, idle);
                push_str(&mut reason, "s (>=15s), but target PID ");
                push_decimal(&mut reason, act.pid as u64);
                push_str(&mut reason, " (");
                push_str(&mut reason, act.process_name.as_str());
                push_str(&mut reason, ") executed active framebuffer capture/outbound socket");
                assert(reason@ =~= delta_reason(idle as nat, act.pid, act.process_name@));
                let report = HeartbeatDeltaReport {
                    target_pid: act.pid,
                    process_name: act.process_name.clone(),
                    idle_duration_secs: idle,
                    has_framebuffer_capture: act.has_framebuffer_capture,
                    has_outbound_socket: act.has_outbound_socket,
                    is_violation: true,
                    flag_reason: reason,
                };
                reports.push(report);
                assert(reports@.map_values(|d: HeartbeatDeltaReport| d@) =~= before.push(
                    delta_of(act@, idle as nat),
                ));
            }
            i = i + 1;
        }
        assert(acts.take(n as int) =~= acts);
        reports
    }
}

/// Physical input at `now` leaves no idle time at `now`, so (with a positive
/// threshold) the heartbeat flags nothing.
pub proof fn lemma_physical_input_clears_idle(h: HeartbeatView, now: u64)
    requires
        h.last_physical_input == now,
    ensures
        idle_secs(h, now) == 0,
        h.idle_threshold_secs > 0 ==> heartbeat_verdict(h, now) == Seq::<DeltaView>::empty(),
{
}

/// After simulating `secs` seconds of idleness at `now`, the heartbeat reads
/// exactly `secs` seconds of idleness at `now`.
pub proof fn lemma_simulated_idle_reads_back(h: HeartbeatView, secs: u64, now: u64)
    requires
        secs * 1000 <= now,
        h.last_physical_input == now - secs * 1000,
    ensures
        idle_secs(h, now) == secs,
{
    assert(elapsed_ms(h.last_physical_input, now) == secs * 1000);
    assert((secs * 1000) as nat / 1000 == secs) by (nonlinear_arith);
}

/// The activity window keeps only activities at most a minute old, in their
/// original order, and a just-recorded activity that is recent stays at its end.
pub proof fn lemma_window_keeps_recent(s: Seq<ActivityView>, now: u64)
    ensures
        forall|i: int| 0 <= i < keep_recent(s, now).len() ==> is_recent(
            #[trigger] keep_recent(s, now)[i],
            now,
        ),
        keep_recent(s, now).len() <= s.len(),
        s.len() > 0 && is_recent(s.last(), now) ==> keep_recent(s, now).last() == s.last(),
        (forall|i: int| 0 <= i < s.len() ==> is_recent(#[trigger] s[i], now)) ==> keep_recent(
            s,
            now,
        ) == s,
    decreases s.len(),
{
    if s.len() > 0 {
        lemma_window_keeps_recent(s.drop_last(), now);
        let r = keep_recent(s.drop_last(), now);
        if is_recent(s.last(), now) {
            assert forall|i: int| 0 <= i < r.push(s.last()).len() implies is_recent(
                #[trigger] r.push(s.last())[i],
                now,
            ) by {
                if i < r.len() {
                    assert(r.push(s.last())[i] == r[i]);
                }
            }
        }
        if forall|i: int| 0 <= i < s.len() ==> is_recent(#[trigger] s[i], now) {
            assert forall|i: int| 0 <= i < s.drop_last().len() implies is_recent(
                #[trigger] s.drop_last()[i],
                now,
            ) by {
                assert(s.drop_last()[i] == s[i]);
            }
            assert(s.drop_last().push(s.last()) =~= s);
        }
    }
}

/// Every heartbeat report is a violation for a suspicious activity, carries the
/// idle time it was made with, and there is one report per suspicious activity.
pub proof fn lemma_delta_reports_flag_suspicious(s: Seq<ActivityView>, idle: nat)
    ensures
        forall|i: int|
            0 <= i < delta_reports(s, idle).len() ==> {
                let d = #[trigger] delta_reports(s, idle)[i];
                &&& d.is_violation
                &&& d.has_framebuffer_capture || d.has_outbound_socket
                &&& d.idle_duration_secs == idle
                &&& d.flag_reason == delta_reason(idle, d.target_pid, d.process_name)
            },
        (forall|i: int| 0 <= i < s.len() ==> !is_suspicious(#[trigger] s[i])) ==> delta_reports(
            s,
            idle,
        ).len() == 0,
        (forall|i: int| 0 <= i < s.len() ==> is_suspicious(#[trigger] s[i])) ==> delta_reports(
            s,
            idle,
        ).len() == s.len(),
    decreases s.len(),
{
    if s.len() > 0 {
        let p = s.drop_last();
        lemma_delta_reports_flag_suspicious(p, idle);
        let r = delta_reports(p, idle);
        if is_suspicious(s.last()) {
            assert forall|i: int| 0 <= i < r.push(delta_of(s.last(), idle)).len() implies {
                let d = #[trigger] r.push(delta_of(s.last(), idle))[i];
                &&& d.is_violation
                &&& d.has_framebuffer_capture || d.has_outbound_socket
                &&& d.idle_duration_secs == idle
                &&& d.flag_reason == delta_reason(idle, d.target_pid, d.process_name)
            } by {
                if i < r.len() {
                    assert(r.push(delta_of(s.last(), idle))[i] == r[i]);
                }
            }
        }
        if forall|i: int| 0 <= i < s.len() ==> !is_suspicious(#[trigger] s[i]) {
            assert forall|i: int| 0 <= i < p.len() implies !is_suspicious(#[trigger] p[i]) by {
                assert(p[i] == s[i]);
            }
            assert(!is_suspicious(s[s.len() - 1]));
        }
        if forall|i: int| 0 <= i < s.len() ==> is_suspicious(#[trigger] s[i]) {
            assert forall|i: int| 0 <= i < p.len() implies is_suspicious(#[trigger] p[i]) by {
                assert(p[i] == s[i]);
            }
            assert(is_suspicious(s[s.len() - 1]));
        }
    }
}

} // verus!
