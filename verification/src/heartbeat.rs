//! The "still protected" heartbeat (accountability digest).
//!
//! Real-time alerts tell a partner the moment protection is *weakened*. But
//! the most honest signal is a positive one whose ABSENCE is the tell: a short
//! periodic "still protected" note. If Sanctum is uninstalled, disabled, or
//! the machine simply stops running it, the weekly note stops arriving. The
//! message carries only counts and protection state, never anything about
//! what was browsed.

use vstd::prelude::*;
use crate::fmt::{decimal, push_decimal};
use crate::text::{push_str, string_of};

verus! {

/// How long between heartbeats (weekly), in seconds.
pub const INTERVAL_SECS: i64 = 604_800;

/// The heartbeat interval, in seconds.
pub fn interval() -> (r: i64)
    ensures
        r == INTERVAL_SECS,
{
    INTERVAL_SECS
}

/// Whether a heartbeat is due at `now` (seconds since the Unix epoch). The
/// first one (never sent) is always due, so the partner gets an immediate
/// note that confirms the channel.
pub fn due(last_sent: Option<i64>, now: i64, interval: i64) -> (r: bool)
    ensures
        r == match last_sent {
            None => true,
            Some(t) => now - t >= interval,
        },
{
    match last_sent {
        None => true,
        Some(t) => (now as i128) - (t as i128) >= interval as i128,
    }
}

pub open spec fn state_line(protection_on: bool) -> Seq<char> {
    if protection_on {
        "Weekly check-in: still protected."@
    } else {
        "Weekly check-in: heads up, protection is currently turned off."@
    }
}

pub open spec fn urges_line(n: u64) -> Seq<char> {
    if n == 0 {
        "No urges needed resisting this week."@
    } else if n == 1 {
        "1 urge resisted this week."@
    } else {
        decimal(n as nat) + " urges resisted this week."@
    }
}

pub open spec fn streak_line(days: u64) -> Seq<char> {
    if days >= 2 {
        " "@ + decimal(days as nat) + "-day protected streak."@
    } else {
        Seq::empty()
    }
}

pub open spec fn closing_line() -> Seq<char> {
    " If these check-ins stop arriving, protection may have been removed."@
}

/// The digest: the protection state, the week's resisted urges (pluralized),
/// the streak when it is at least two days, and what silence would mean.
pub open spec fn message_spec(protection_on: bool, urges: u64, streak: u64) -> Seq<char> {
    state_line(protection_on) + " "@ + urges_line(urges) + streak_line(streak) + closing_line()
}

/// Build the digest text. Honest, no shame, no browsing data.
pub fn message(protection_on: bool, urges_past_week: u64, streak_days: u64) -> (r: String)
    ensures
        r@ == message_spec(protection_on, urges_past_week, streak_days),
{
    let mut s: Vec<char> = Vec::new();
    if protection_on {
        push_str(&mut s, "Weekly check-in: still protected.");
    } else {
        push_str(&mut s, "Weekly check-in: heads up, protection is currently turned off.");
    }
    let ghost a = s@;
    push_str(&mut s, " ");
    let ghost b = s@;
    if urges_past_week == 0 {
        push_str(&mut s, "No urges needed resisting this week.");
    } else if urges_past_week == 1 {
        push_str(&mut s, "1 urge resisted this week.");
    } else {
        push_decimal(&mut s, urges_past_week);
        push_str(&mut s, " urges resisted this week.");
        assert(s@ =~= b + (decimal(urges_past_week as nat) + " urges resisted this week."@));
    }
    let ghost c = s@;
    if streak_days >= 2 {
        push_str(&mut s, " ");
        push_decimal(&mut s, streak_days);
        push_str(&mut s, "-day protected streak.");
        assert(s@ =~= c + streak_line(streak_days));
    } else {
        assert(s@ =~= c + streak_line(streak_days));
    }
    push_str(&mut s, " If these check-ins stop arriving, protection may have been removed.");
    assert(s@ =~= message_spec(protection_on, urges_past_week, streak_days));
    string_of(&s)
}

} // verus!
