//! Presence on the server: automatic away after idle time, and the lag
//! meter (a PING every half minute, the PONG's delay shown in colour).

use vstd::prelude::*;

use crate::numfmt::{dec, push_dec};
use crate::text::to_string;

verus! {

/// Seconds between two lag probes.
pub const LAG_CHECK_INTERVAL_SECS: u64 = 30;

/// Away state as the client tracks it.
pub struct AwayState {
    /// `None` = not away, `Some(msg)` = away with message.
    pub away_status: Option<String>,
    /// Whether the current away status was set by the idle timer.
    pub auto_away_triggered: bool,
}

/// What the caller does after an away step.
#[derive(Debug, Clone, PartialEq, Eq)]
pub enum AwayAction {
    /// Send `AWAY :msg` and note `Auto-away: msg` in the server window.
    GoAway(String),
    /// Send a bare `AWAY` and note that we are back.
    ComeBack,
}

/// The away state as plain values.
pub struct AwayView {
    pub away_status: Option<Seq<char>>,
    pub auto_away_triggered: bool,
}

impl View for AwayState {
    type V = AwayView;

    open spec fn view(&self) -> AwayView {
        AwayView {
            away_status: match self.away_status {
                Some(m) => Some(m@),
                None => None,
            },
            auto_away_triggered: self.auto_away_triggered,
        }
    }
}

pub enum AwayActionView {
    GoAway(Seq<char>),
    ComeBack,
}

pub open spec fn away_action_view(a: AwayAction) -> AwayActionView {
    match a {
        AwayAction::GoAway(m) => AwayActionView::GoAway(m@),
        AwayAction::ComeBack => AwayActionView::ComeBack,
    }
}

/// The state after activity: an automatic away ends.
pub open spec fn after_activity(s: AwayView, activity: bool) -> (AwayView, Seq<AwayActionView>) {
    if activity && s.auto_away_triggered && s.away_status.is_some() {
        (AwayView { away_status: None, auto_away_triggered: false }, seq![AwayActionView::ComeBack])
    } else {
        (s, Seq::empty())
    }
}

/// One step of the idle timer: activity (if any) first ends an automatic
/// away; then, connected, not away and with auto-away enabled, being idle
/// for at least `minutes` minutes sets away with `message`. `idle_secs` is
/// measured from the last activity, this step's included.
pub open spec fn away_step(s: AwayView, activity: bool, connected: bool, enabled: bool, idle_secs: u64, minutes: u32,
    message: Seq<char>) -> (AwayView, Seq<AwayActionView>) {
    let (s1, a1) = after_activity(s, activity);
    if connected && s1.away_status.is_none() && enabled && idle_secs >= minutes * 60 {
        (AwayView { away_status: Some(message), auto_away_triggered: true }, a1.push(AwayActionView::GoAway(message)))
    } else {
        (s1, a1)
    }
}

impl AwayState {
    /// Not away.
    pub fn new() -> (r: AwayState)
        ensures
            r@ == (AwayView { away_status: None, auto_away_triggered: false }),
    {
        AwayState { away_status: None, auto_away_triggered: false }
    }

    /// Run one step of the idle timer (see `away_step`).
    pub fn step(&mut self, activity: bool, connected: bool, enabled: bool, idle_secs: u64, minutes: u32, message: &str)
        -> (acts: Vec<AwayAction>)
        ensures
            ({
                let (s2, a2) = away_step(old(self)@, activity, connected, enabled, idle_secs, minutes, message@);
                &&& final(self)@ == s2
                &&& acts@.map_values(|a: AwayAction| away_action_view(a)) == a2
            }),
    {
        let mut acts: Vec<AwayAction> = Vec::new();
        if activity && self.auto_away_triggered && self.away_status.is_some() {
            self.away_status = None;
            self.auto_away_triggered = false;
            acts.push(AwayAction::ComeBack);
        }
        let timeout: u64 = minutes as u64 * 60;
        if connected && self.away_status.is_none() && enabled && idle_secs >= timeout {
            let m = to_string(message);
            self.away_status = Some(to_string(message));
            self.auto_away_triggered = true;
            acts.push(AwayAction::GoAway(m));
        }
        let ghost want = away_step(old(self)@, activity, connected, enabled, idle_secs, minutes, message@).1;
        assert(acts@.map_values(|a: AwayAction| away_action_view(a)) =~= want);
        acts
    }
}

/// Whether a lag probe is due: connected and at least the interval since
/// the last one.
pub fn lag_check_due(connected: bool, secs_since_check: u64) -> (r: bool)
    ensures
        r == (connected && secs_since_check >= LAG_CHECK_INTERVAL_SECS),
{
    connected && secs_since_check >= LAG_CHECK_INTERVAL_SECS
}

/// The lag shown for a PONG that came `elapsed_millis` after our PING: the
/// milliseconds, kept to 32 bits as the meter stores them.
pub fn lag_from_elapsed(elapsed_millis: u128) -> (r: u32)
    ensures
        r as int == elapsed_millis as int % 0x1_0000_0000,
{
    let r = elapsed_millis as u32;
    assert(r as int == elapsed_millis as int % 0x1_0000_0000) by (bit_vector)
        requires
            r == elapsed_millis as u32,
    ;
    r
}

/// How the lag meter colours a lag.
#[derive(Debug, Clone, Copy, PartialEq, Eq)]
pub enum LagLevel {
    /// Under 100 ms.
    Good,
    /// Under 300 ms.
    Fair,
    Poor,
}

/// The meter's colour band for `lag` milliseconds.
pub fn lag_level(lag: u32) -> (r: LagLevel)
    ensures
        r == (if lag < 100 { LagLevel::Good } else if lag < 300 { LagLevel::Fair } else { LagLevel::Poor }),
{
    if lag < 100 {
        LagLevel::Good
    } else if lag < 300 {
        LagLevel::Fair
    } else {
        LagLevel::Poor
    }
}

/// The meter's text, `(Nms)`.
pub fn lag_label(lag: u32) -> (r: String)
    ensures
        r@ == "("@ + dec(lag as nat) + "ms)"@,
{
    let mut r = to_string("(");
    push_dec(&mut r, lag as u64);
    crate::text::push_str(&mut r, "ms)");
    proof {
        reveal_strlit("(");
        reveal_strlit("ms)");
    }
    r
}

} // verus!
