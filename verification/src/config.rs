//! Configuration, schedule, and lock-state types + the lock invariants
//! that make "Cold Turkey mode" honest: while locked, protection can only
//! get *stronger*, never weaker, and never permanent.
//!
//! Instants are whole seconds since the Unix epoch (UTC). Local wall-clock
//! time, which depends on the machine's time zone, is handed in already
//! broken down as a [`LocalTime`].

use vstd::prelude::*;
use crate::error::Error;
use crate::{SINK_IPV4, SINK_IPV6};

verus! {

pub const CONFIG_SCHEMA: u32 = 1;

/// Hard ceiling on any lock's duration. The clamp is applied at EVERY write
/// to the unlock time, so no bug, fat-finger, or tampered clock can ever
/// create an effectively permanent lock. The timer is always a guaranteed,
/// secret-free exit.
pub const MAX_LOCK_DURATION_DAYS: i64 = 90;

pub const SECS_PER_DAY: i64 = 86_400;

/// The latest instant from which the lock ceiling can still be expressed.
pub const LATEST_NOW: i64 = 9223372036846999807;

/// The furthest-future instant a lock may be set to, given `now`.
pub open spec fn max_unlock_spec(now: i64) -> int {
    now + MAX_LOCK_DURATION_DAYS * SECS_PER_DAY
}

/// The furthest-future instant a lock may be set to, given `now`.
pub fn max_unlock_at(now: i64) -> (r: i64)
    requires
        now <= LATEST_NOW,
    ensures
        r == max_unlock_spec(now),
{
    now + MAX_LOCK_DURATION_DAYS * SECS_PER_DAY
}

/// A moment as seen on the local wall clock: the UTC instant, the minute of
/// the local day (0..1440) and the local weekday (0 = Monday .. 6 = Sunday).
#[derive(Clone, Copy, Debug, PartialEq, Eq, Structural)]
pub struct LocalTime {
    pub utc: i64,
    pub minute_of_day: u16,
    pub weekday: u8,
}

/// A daily protection window, in minutes since local midnight. If
/// `start_min > end_min`, the window wraps past midnight (e.g. 21:00-06:00).
#[derive(Clone, Debug)]
pub struct TimeWindow {
    pub start_min: u16,
    pub end_min: u16,
    /// Days the window applies to (empty = every day), 0 = Mon .. 6 = Sun.
    pub days: Vec<u8>,
}

/// A window as (start, end, days).
pub open spec fn window_view(w: TimeWindow) -> (u16, u16, Seq<u8>) {
    (w.start_min, w.end_min, w.days@)
}

/// A list of windows as values.
pub open spec fn windows_view(ws: Seq<TimeWindow>) -> Seq<(u16, u16, Seq<u8>)> {
    ws.map_values(|w: TimeWindow| window_view(w))
}

/// Whether the window applies on `weekday`.
pub open spec fn applies_on_spec(w: (u16, u16, Seq<u8>), weekday: u8) -> bool {
    w.2.len() == 0 || w.2.contains(weekday)
}

/// Whether minute `m` of the day lies in the window.
pub open spec fn contains_minute_spec(w: (u16, u16, Seq<u8>), m: u16) -> bool {
    if w.0 == w.1 {
        false
    } else if w.0 < w.1 {
        w.0 <= m && m < w.1
    } else {
        m >= w.0 || m < w.1
    }
}

impl TimeWindow {
    pub fn applies_on(&self, weekday: u8) -> (r: bool)
        ensures
            r == applies_on_spec(window_view(*self), weekday),
    {
        if self.days.len() == 0 {
            return true;
        }
        let mut i: usize = 0;
        while i < self.days.len()
            invariant
                i <= self.days.len(),
                forall|j: int| 0 <= j < i ==> self.days@[j] != weekday,
            decreases self.days.len() - i,
        {
            if self.days[i] == weekday {
                assert(self.days@[i as int] == weekday);
                return true;
            }
            i += 1;
        }
        false
    }

    pub fn contains_minute(&self, m: u16) -> (r: bool)
        ensures
            r == contains_minute_spec(window_view(*self), m),
    {
        if self.start_min == self.end_min {
            false
        } else if self.start_min < self.end_min {
            m >= self.start_min && m < self.end_min
        } else {
            m >= self.start_min || m < self.end_min
        }
    }

    /// A copy of this window.
    pub fn duplicate(&self) -> (r: Self)
        ensures
            window_view(r) == window_view(*self),
    {
        TimeWindow { start_min: self.start_min, end_min: self.end_min, days: self.days.clone() }
    }
}

/// When protection is enforced.
#[derive(Clone, Debug)]
pub enum Schedule {
    /// Enforced 24/7.
    AlwaysOn,
    /// Never enforced by schedule (protection can still be manually on).
    Off,
    /// Enforced during the given daily windows.
    Windows { windows: Vec<TimeWindow> },
    /// A one-off focus session that ends at a fixed instant.
    Focus { ends_at: i64 },
}

/// A schedule as a mathematical value.
pub enum ScheduleView {
    AlwaysOn,
    Off,
    Windows(Seq<(u16, u16, Seq<u8>)>),
    Focus(i64),
}

impl View for Schedule {
    type V = ScheduleView;

    open spec fn view(&self) -> ScheduleView {
        match self {
            Schedule::AlwaysOn => ScheduleView::AlwaysOn,
            Schedule::Off => ScheduleView::Off,
            Schedule::Windows { windows } => ScheduleView::Windows(
                windows_view(windows@),
            ),
            Schedule::Focus { ends_at } => ScheduleView::Focus(*ends_at),
        }
    }
}

/// Whether the schedule calls for protection at `now`.
pub open spec fn schedule_active(s: ScheduleView, now: LocalTime) -> bool {
    match s {
        ScheduleView::AlwaysOn => true,
        ScheduleView::Off => false,
        ScheduleView::Focus(ends_at) => now.utc < ends_at,
        ScheduleView::Windows(ws) => exists|i: int| 0 <= i < ws.len() && #[trigger] window_hits(ws[i], now),
    }
}

/// Whether window `w` covers the moment `now`.
pub open spec fn window_hits(w: (u16, u16, Seq<u8>), now: LocalTime) -> bool {
    applies_on_spec(w, now.weekday) && contains_minute_spec(w, now.minute_of_day)
}

fn windows_eq(a: &Vec<TimeWindow>, b: &Vec<TimeWindow>) -> (r: bool)
    ensures
        r == (windows_view(a@) == windows_view(b@)),
{
    let ghost va = windows_view(a@);
    let ghost vb = windows_view(b@);
    if a.len() != b.len() {
        assert(va.len() != vb.len());
        return false;
    }
    let mut i: usize = 0;
    while i < a.len()
        invariant
            i <= a.len(),
            a.len() == b.len(),
            va == windows_view(a@),
            vb == windows_view(b@),
            forall|j: int| 0 <= j < i ==> va[j] == vb[j],
        decreases a.len() - i,
    {
        let x = &a[i];
        let y = &b[i];
        assert(va[i as int] == window_view(*x));
        assert(vb[i as int] == window_view(*y));
        if x.start_min != y.start_min || x.end_min != y.end_min || x.days.len() != y.days.len() {
            assert(va[i as int] != vb[i as int]);
            return false;
        }
        let mut k: usize = 0;
        while k < x.days.len()
            invariant
                k <= x.days.len(),
                x.days.len() == y.days.len(),
                i < a.len(),
                va == windows_view(a@),
                vb == windows_view(b@),
                va[i as int] == window_view(*x),
                vb[i as int] == window_view(*y),
                forall|j: int| 0 <= j < k ==> x.days@[j] == y.days@[j],
            decreases x.days.len() - k,
        {
            if x.days[k] != y.days[k] {
                assert(x.days@[k as int] != y.days@[k as int]);
                assert(window_view(*x).2 != window_view(*y).2);
                assert(va[i as int] != vb[i as int]);
                return false;
            }
            k += 1;
        }
        assert(x.days@ =~= y.days@);
        i += 1;
    }
    assert(va =~= vb);
    true
}

proof fn lemma_window_hit_active(ws: Seq<(u16, u16, Seq<u8>)>, now: LocalTime, i: int)
    requires
        0 <= i < ws.len(),
        window_hits(ws[i], now),
    ensures
        schedule_active(ScheduleView::Windows(ws), now),
{
    assert(exists|j: int| 0 <= j < ws.len() && #[trigger] window_hits(ws[j], now));
    let s = ScheduleView::Windows(ws);
    assert(s matches ScheduleView::Windows(x) && x == ws);
}

impl Schedule {
    /// Whether the schedule calls for protection at local time `now`.
    pub fn is_active_at(&self, now: &LocalTime) -> (r: bool)
        ensures
            r == schedule_active(self@, *now),
    {
        match self {
            Schedule::AlwaysOn => true,
            Schedule::Off => false,
            Schedule::Focus { ends_at } => now.utc < *ends_at,
            Schedule::Windows { windows } => {
                let ghost ws = windows_view(windows@);
                let mut i: usize = 0;
                while i < windows.len()
                    invariant
                        i <= windows.len(),
                        ws == windows_view(windows@),
                        self@ == ScheduleView::Windows(ws),
                        forall|j: int| 0 <= j < i ==> !#[trigger] window_hits(ws[j], *now),
                    decreases windows.len() - i,
                {
                    assert(ws[i as int] == window_view(windows@[i as int]));
                    if windows[i].applies_on(now.weekday) && windows[i].contains_minute(
                        now.minute_of_day,
                    ) {
                        assert(window_hits(ws[i as int], *now));
                        proof {
                            lemma_window_hit_active(ws, *now, i as int);
                        }
                        return true;
                    }
                    i += 1;
                }
                false
            },
        }
    }

    /// Whether two schedules are the same.
    pub fn same_as(&self, other: &Schedule) -> (r: bool)
        ensures
            r == (self@ == other@),
    {
        match (self, other) {
            (Schedule::AlwaysOn, Schedule::AlwaysOn) => true,
            (Schedule::Off, Schedule::Off) => true,
            (Schedule::Focus { ends_at: a }, Schedule::Focus { ends_at: b }) => *a == *b,
            (Schedule::Windows { windows: a }, Schedule::Windows { windows: b }) => windows_eq(a, b),
            _ => false,
        }
    }
}

/// Persisted application configuration.
#[derive(Clone, Debug)]
pub struct AppConfig {
    pub schema: u32,
    /// Master switch. Even when true, `schedule` decides active windows.
    pub protection_enabled: bool,
    pub schedule: Schedule,
    pub sink_ipv4: String,
    pub sink_ipv6: String,
    pub enforce_safesearch: bool,
    pub block_doh: bool,
    /// Block bypass tools (DoH resolvers, VPN/proxy services, Tor) at the DNS
    /// layer. On by default; turning it off is a weakening op (password-gated,
    /// frozen while locked), so a locked session also seals the escape hatches.
    pub block_bypass: bool,
    /// Block known DoH provider IPs on :443 via Windows Firewall.
    pub block_doh_ips: bool,
    /// Block outbound plaintext DNS (:53/:853) to non-Sanctum resolvers.
    /// Off by default.
    pub block_plaintext_dns: bool,
    /// Cooldown before an *unlocked* uninstall is permitted.
    pub uninstall_cooldown_hours: u32,
}

/// A configuration as a mathematical value.
pub struct ConfigView {
    pub schema: u32,
    pub protection_enabled: bool,
    pub schedule: ScheduleView,
    pub sink_ipv4: Seq<char>,
    pub sink_ipv6: Seq<char>,
    pub enforce_safesearch: bool,
    pub block_doh: bool,
    pub block_bypass: bool,
    pub block_doh_ips: bool,
    pub block_plaintext_dns: bool,
    pub uninstall_cooldown_hours: u32,
}

impl View for AppConfig {
    type V = ConfigView;

    open spec fn view(&self) -> ConfigView {
        ConfigView {
            schema: self.schema,
            protection_enabled: self.protection_enabled,
            schedule: self.schedule@,
            sink_ipv4: self.sink_ipv4@,
            sink_ipv6: self.sink_ipv6@,
            enforce_safesearch: self.enforce_safesearch,
            block_doh: self.block_doh,
            block_bypass: self.block_bypass,
            block_doh_ips: self.block_doh_ips,
            block_plaintext_dns: self.block_plaintext_dns,
            uninstall_cooldown_hours: self.uninstall_cooldown_hours,
        }
    }
}

impl Default for AppConfig {
    fn default() -> (r: Self)
        ensures
            r@ == (ConfigView {
                schema: CONFIG_SCHEMA,
                protection_enabled: true,
                schedule: ScheduleView::AlwaysOn,
                sink_ipv4: SINK_IPV4@,
                sink_ipv6: SINK_IPV6@,
                enforce_safesearch: true,
                block_doh: true,
                block_bypass: true,
                block_doh_ips: true,
                block_plaintext_dns: false,
                uninstall_cooldown_hours: 24,
            }),
    {
        AppConfig {
            schema: CONFIG_SCHEMA,
            protection_enabled: true,
            schedule: Schedule::AlwaysOn,
            sink_ipv4: SINK_IPV4.to_string(),
            sink_ipv6: SINK_IPV6.to_string(),
            enforce_safesearch: true,
            block_doh: true,
            block_bypass: true,
            block_doh_ips: true,
            block_plaintext_dns: false,
            uninstall_cooldown_hours: 24,
        }
    }
}

impl AppConfig {
    /// Whether two configurations are the same in every setting.
    pub fn same_as(&self, other: &AppConfig) -> (r: bool)
        ensures
            r == (self@ == other@),
    {
        let r = self.schema == other.schema && self.protection_enabled == other.protection_enabled
            && self.sink_ipv4 == other.sink_ipv4 && self.sink_ipv6 == other.sink_ipv6
            && self.enforce_safesearch == other.enforce_safesearch && self.block_doh
            == other.block_doh && self.block_bypass == other.block_bypass && self.block_doh_ips
            == other.block_doh_ips && self.block_plaintext_dns == other.block_plaintext_dns
            && self.uninstall_cooldown_hours == other.uninstall_cooldown_hours
            && self.schedule.same_as(&other.schedule);
        r
    }
}

/// Lock ("Cold Turkey") state. A real lock always has an expiry: Sanctum
/// never claims to be permanent or unremovable.
#[derive(Clone, Copy, Debug, PartialEq, Eq, Structural)]
pub struct LockState {
    pub locked: bool,
    /// When the lock expires. `None` while unlocked. A locked state with no
    /// expiry is treated as *inactive* on purpose, so a bug can never brick
    /// the machine.
    pub locked_until: Option<i64>,
}

/// Whether the lock is in force at `now`.
pub open spec fn lock_active(l: LockState, now: i64) -> bool {
    l.locked && (l.locked_until matches Some(u) && now < u)
}

/// The message refusing a lock longer than the ceiling.
pub open spec fn too_long_msg() -> Seq<char> {
    "lock duration exceeds the 90-day maximum"@
}

/// The message refusing to shorten or end an active lock.
pub open spec fn extend_only_msg() -> Seq<char> {
    "a locked session can only be extended, not shortened or ended early"@
}

/// The message refusing a settings change while locked.
pub open spec fn frozen_msg() -> Seq<char> {
    "settings are frozen until the locked session ends"@
}

/// The proposed lock would run past the ceiling.
pub open spec fn exceeds_ceiling(proposed: LockState, now: i64) -> bool {
    proposed.locked && (proposed.locked_until matches Some(u) && u > max_unlock_spec(now))
}

/// While `current` is active, `proposed` keeps it locked and not shorter.
pub open spec fn extends(current: LockState, proposed: LockState) -> bool {
    proposed.locked && (current.locked_until matches Some(c) && (proposed.locked_until matches Some(
        n,
    ) && n >= c))
}

/// Whether `guard_lock_change` accepts the change.
pub open spec fn lock_change_ok(current: LockState, proposed: LockState, now: i64) -> bool {
    !exceeds_ceiling(proposed, now) && (!lock_active(current, now) || extends(current, proposed))
}

impl LockState {
    pub fn unlocked() -> (r: Self)
        ensures
            !r.locked,
            r.locked_until is None,
    {
        LockState { locked: false, locked_until: None }
    }

    pub fn locked_until(until: i64) -> (r: Self)
        ensures
            r.locked,
            r.locked_until == Some(until),
    {
        LockState { locked: true, locked_until: Some(until) }
    }

    /// Whether the lock is currently in force.
    pub fn is_active(&self, now: i64) -> (r: bool)
        ensures
            r == lock_active(*self, now),
    {
        self.locked && match self.locked_until {
            Some(u) => now < u,
            None => false,
        }
    }

    /// The seconds left on an active lock.
    pub fn remaining(&self, now: i64) -> (r: Option<u64>)
        ensures
            match r {
                Some(d) => lock_active(*self, now) && d == self.locked_until.unwrap() - now,
                None => !lock_active(*self, now),
            },
    {
        match self.locked_until {
            Some(u) => {
                if self.locked && now < u {
                    let d: i128 = (u as i128) - (now as i128);
                    Some(d as u64)
                } else {
                    None
                }
            },
            None => None,
        }
    }
}

/// Guard a proposed config change against an active lock. While locked,
/// every setting is frozen; protection cannot be turned off.
pub fn guard_config_change(
    current: &AppConfig,
    proposed: &AppConfig,
    lock: &LockState,
    now: i64,
) -> (r: Result<(), Error>)
    ensures
        r is Ok <==> (!lock_active(*lock, now) || current@ == proposed@),
        r matches Err(e) ==> e matches Error::Locked(m) && m@ == frozen_msg(),
{
    if !lock.is_active(now) {
        return Ok(());
    }
    if !current.same_as(proposed) {
        return Err(Error::Locked("settings are frozen until the locked session ends".to_string()));
    }
    Ok(())
}

/// Guard a proposed new lock state. While locked you may only *extend* the
/// timer, never shorten it or unlock early; no lock may ever run past the
/// ceiling.
pub fn guard_lock_change(current: &LockState, proposed: &LockState, now: i64) -> (r: Result<
    (),
    Error,
>)
    requires
        now <= LATEST_NOW,
    ensures
        r is Ok <==> lock_change_ok(*current, *proposed, now),
        r matches Err(e) ==> e matches Error::Locked(m) && m@ == (if exceeds_ceiling(
            *proposed,
            now,
        ) {
            too_long_msg()
        } else {
            extend_only_msg()
        }),
{
    // The clamp applies to EVERY write, locked or not.
    if let Some(until) = proposed.locked_until {
        if proposed.locked && until > max_unlock_at(now) {
            return Err(Error::Locked("lock duration exceeds the 90-day maximum".to_string()));
        }
    }
    if !current.is_active(now) {
        return Ok(());
    }
    match (current.locked_until, proposed.locked_until) {
        (Some(cur), Some(new)) => {
            if proposed.locked && new >= cur {
                Ok(())
            } else {
                Err(
                    Error::Locked(
                        "a locked session can only be extended, not shortened or ended early".to_string(),
                    ),
                )
            }
        },
        _ => Err(
            Error::Locked(
                "a locked session can only be extended, not shortened or ended early".to_string(),
            ),
        ),
    }
}

/// An accepted change never ends an active lock early: at every later moment
/// at which the old lock would still have been in force, the new one is too.
pub proof fn lemma_lock_only_extends(current: LockState, proposed: LockState, now: i64, t: i64)
    requires
        lock_change_ok(current, proposed, now),
        lock_active(current, now),
        lock_active(current, t),
    ensures
        lock_active(proposed, t),
{
}

/// No accepted lock runs past the ceiling measured from the moment it was set.
pub proof fn lemma_lock_never_past_ceiling(current: LockState, proposed: LockState, now: i64, t: i64)
    requires
        lock_change_ok(current, proposed, now),
        t > max_unlock_spec(now),
    ensures
        !lock_active(proposed, t),
{
}

/// An expired (or absent) lock imposes no restriction beyond the ceiling, and
/// freezes no setting.
pub proof fn lemma_expired_lock_restricts_nothing(
    current: LockState,
    proposed: LockState,
    now: i64,
)
    requires
        !lock_active(current, now),
        !exceeds_ceiling(proposed, now),
    ensures
        lock_change_ok(current, proposed, now),
{
}

} // verus!
