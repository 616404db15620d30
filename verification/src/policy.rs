//! The service's authority over UI commands.
//!
//! The service is the sole authority: every mutating command is validated
//! server-side against the lock invariants, and the client is never trusted.
//! Weakening operations are frozen during a locked session and otherwise
//! password-gated; strengthening ones are always allowed. This module makes
//! that decision for each command; the handler around it then carries the
//! command out (database, resolver, notifications).

use vstd::prelude::*;
use crate::config::{
    extend_only_msg, lock_active, lock_change_ok, max_unlock_spec, too_long_msg,
    LockState, Schedule, LATEST_NOW,
};
use crate::error::Error;
use crate::password::{check_password, password_accepts, phc_parses};

verus! {

/// Commands the UI may send. Weakening operations carry a password and are
/// refused while a lock is active.
#[derive(Debug, Clone)]
pub enum Command {
    /// Current protection status for the home screen.
    GetStatus,
    /// Recent activity-log entries (most recent first).
    RecentEvents { limit: u32 },
    /// The user-added (custom) blocked domains.
    ListCustomBlocks,
    /// Add a domain to the block list. Always allowed (grow-only).
    AddBlock { domain: String },
    /// Remove a blocked domain. Refused while locked; else password-gated.
    RemoveBlock { domain: String, password: String },
    /// Add an allowlist exception. Refused while locked (can't whitelist out).
    AddAllow { domain: String, password: String },
    /// Remove an allowlist exception. Always allowed (strengthens).
    RemoveAllow { domain: String },
    /// Change the schedule. Refused while locked; else password-gated.
    SetSchedule { schedule: Schedule, password: String },
    /// Start a locked ("Cold Turkey") session for `minutes`.
    StartLock { minutes: i64 },
    /// Extend the current lock by `minutes` (extend-only, clamped).
    ExtendLock { minutes: i64 },
    /// Set or change the settings password.
    SetPassword { new: String, current: Option<String> },
    /// Check a password (for gating UI without mutating anything).
    VerifyPassword { password: String },
    /// Turn protection off. Refused while locked; else password-gated.
    DisableProtection { password: String },
    /// Turn protection back on.
    EnableProtection,
    /// Toggle bypass-tool blocking. Enabling is always allowed; disabling is
    /// password-gated and frozen while locked.
    SetBypassBlocking { enabled: bool, password: String },
    /// Toggle Strict mode. Same gating as bypass blocking.
    SetStrictMode { enabled: bool, password: String },
    /// Toggle keyword blocking. Same gating as bypass blocking.
    SetKeywordBlocking { enabled: bool, password: String },
    /// The user's own keyword rules.
    ListKeywords,
    /// Add a keyword. Always allowed (grow-only).
    AddKeyword { word: String },
    /// Remove a user keyword. Refused while locked; else password-gated.
    RemoveKeyword { word: String, password: String },
    /// Set the opt-in uninstall cooldown, in hours (0 = off). Grow-only:
    /// once set, it can only be increased.
    SetUninstallCooldown { hours: u32 },
    /// Set/change/remove the accountability webhook (empty = remove).
    SetAccountability { webhook: String, password: String },
    /// Set/change/remove Twilio SMS accountability (all-empty = remove).
    SetAccountabilitySms { sid: String, token: String, from: String, to: String, password: String },
    /// Send a test notification to every configured accountability channel.
    TestAccountability,
    /// Toggle the weekly "still protected" heartbeat to the partner.
    SetHeartbeat { enabled: bool, password: String },
    /// Turn partner-approved unblocking on/off.
    SetPartnerApproval { enabled: bool, password: String },
    /// Ask to unblock `domain` (only when partner approval is required).
    RequestUnblock { domain: String },
    /// Submit the partner's one-time code to complete the pending unblock.
    ApproveUnblock { code: String },
    /// Wipe the activity log immediately.
    DeleteHistory,
    /// Poll for a pending block-moment intervention.
    PollIntervention,
    /// Open the intervention window on demand.
    TriggerIntervention,
    /// The user closed an intervention window.
    ResolveIntervention,
    /// Fetch the user's letter to self.
    GetLetter,
    /// Save the letter to self. Always allowed.
    SetLetter { text: String },
}

/// What the decision needs to know of the service's current state.
#[derive(Debug, Clone)]
pub struct Context {
    /// The current lock state and the moment of the request.
    pub lock: LockState,
    pub now: i64,
    /// The schedule in force.
    pub schedule: Schedule,
    /// Unblocking needs the partner's one-time code.
    pub partner_required: bool,
    /// A partner channel (webhook or SMS) is configured.
    pub partner_channel: bool,
    /// The weekly heartbeat is on.
    pub heartbeat_enabled: bool,
    /// The configured accountability webhook, trimmed (empty = none).
    pub webhook: String,
    /// SMS accountability is fully configured.
    pub sms_configured: bool,
    /// The uninstall cooldown now in force, in hours (0 = off).
    pub cooldown_hours: u32,
}

/// The answer to a command.
#[derive(Debug, Clone, PartialEq, Eq)]
pub enum Verdict {
    /// Refused by policy, with the reason shown to the user.
    Deny(String),
    /// Allowed, and nothing needs to change (the setting already has that value).
    Unchanged,
    /// Allowed: the handler carries the command out.
    Proceed,
    /// Allowed: the handler stores this lock state.
    Lock(LockState),
}

/// The answer as a value; `Fail` is a malformed stored password hash.
pub enum Answer {
    Deny(Seq<char>),
    Unchanged,
    Proceed,
    Lock(LockState),
    Fail,
}

/// The answer `v` stands for.
pub open spec fn verdict_answer(v: Verdict) -> Answer {
    match v {
        Verdict::Deny(m) => Answer::Deny(m@),
        Verdict::Unchanged => Answer::Unchanged,
        Verdict::Proceed => Answer::Proceed,
        Verdict::Lock(l) => Answer::Lock(l),
    }
}

/// The answer a result of `authorize` stands for.
pub open spec fn result_answer(r: Result<Verdict, Error>) -> Answer {
    match r {
        Ok(v) => verdict_answer(v),
        Err(_) => Answer::Fail,
    }
}

pub open spec fn incorrect_password() -> Seq<char> {
    "Incorrect password."@
}

pub open spec fn partner_needed() -> Seq<char> {
    "Your partner's approval is required to unblock. Request it instead."@
}

/// The lock is in force for this request.
pub open spec fn ctx_locked(ctx: Context) -> bool {
    lock_active(ctx.lock, ctx.now)
}

/// The stored password hash as a value.
pub open spec fn stored_view(stored: Option<&str>) -> Option<Seq<char>> {
    match stored {
        Some(h) => Some(h@),
        None => None,
    }
}

/// The stored hash is present but malformed.
pub open spec fn stored_bad(stored: Option<Seq<char>>) -> bool {
    stored matches Some(h) && !phc_parses(h)
}

/// A password check: fails on a malformed hash, refuses a wrong password,
/// and otherwise goes on to `then`.
pub open spec fn password_step(stored: Option<Seq<char>>, pw: Seq<char>, then: Answer) -> Answer {
    if stored_bad(stored) {
        Answer::Fail
    } else if !password_accepts(stored, pw) {
        Answer::Deny(incorrect_password())
    } else {
        then
    }
}

/// A weakening step: frozen while locked, then password-gated.
pub open spec fn weaken_step(
    locked: bool,
    locked_msg: Seq<char>,
    stored: Option<Seq<char>>,
    pw: Seq<char>,
    then: Answer,
) -> Answer {
    if locked {
        Answer::Deny(locked_msg)
    } else {
        password_step(stored, pw, then)
    }
}

/// The `locked session: ...` text of a lock refusal.
pub open spec fn locked_display(m: Seq<char>) -> Seq<char> {
    "locked session: "@ + m
}

/// The lock proposed by `StartLock`/`ExtendLock`, when the new unlock time
/// is `until`; refused with the guard's reason where the guard refuses it.
pub open spec fn lock_step(current: LockState, until: int, now: i64) -> Answer {
    if until > max_unlock_spec(now) {
        Answer::Deny(locked_display(too_long_msg()))
    } else {
        let proposed = LockState { locked: true, locked_until: Some(until as i64) };
        if lock_change_ok(current, proposed, now) {
            Answer::Lock(proposed)
        } else {
            Answer::Deny(locked_display(extend_only_msg()))
        }
    }
}

/// The refusal of a shorter uninstall cooldown.
pub open spec fn cooldown_msg() -> Seq<char> {
    "The uninstall cooldown can only be increased once it is set."@
}

/// The answer to each command.
pub open spec fn authorize_spec(cmd: Command, ctx: Context, stored: Option<Seq<char>>) -> Answer {
    let locked = ctx_locked(ctx);
    match cmd {
        Command::RemoveBlock { password, .. } => if locked {
            Answer::Deny("The block list can only grow during a locked session."@)
        } else if ctx.partner_required {
            Answer::Deny(partner_needed())
        } else {
            password_step(stored, password@, Answer::Proceed)
        },
        Command::AddAllow { password, .. } => if locked {
            Answer::Deny("The allowlist is frozen during a locked session."@)
        } else if ctx.partner_required {
            Answer::Deny(partner_needed())
        } else {
            password_step(stored, password@, Answer::Proceed)
        },
        Command::SetSchedule { schedule, password } => if locked && schedule@ != ctx.schedule@ {
            Answer::Deny(
                locked_display("settings are frozen until the locked session ends"@),
            )
        } else {
            password_step(stored, password@, Answer::Proceed)
        },
        Command::StartLock { minutes } => if locked {
            Answer::Deny("A locked session is already active."@)
        } else if minutes <= 0 {
            Answer::Deny("Lock duration must be positive."@)
        } else {
            lock_step(ctx.lock, ctx.now + minutes * 60, ctx.now)
        },
        Command::ExtendLock { minutes } => if minutes <= 0 {
            Answer::Deny("Extension must be positive."@)
        } else {
            let base: int = match ctx.lock.locked_until {
                Some(u) => if u > ctx.now {
                    u as int
                } else {
                    ctx.now as int
                },
                None => ctx.now as int,
            };
            lock_step(ctx.lock, base + minutes * 60, ctx.now)
        },
        Command::SetPassword { current, .. } => if locked {
            Answer::Deny("The password is frozen during a locked session."@)
        } else {
            match stored {
                None => Answer::Proceed,
                Some(h) => match current {
                    None => Answer::Deny("Incorrect current password."@),
                    Some(c) => if !phc_parses(h) {
                        Answer::Fail
                    } else if password_accepts(stored, c@) {
                        Answer::Proceed
                    } else {
                        Answer::Deny("Incorrect current password."@)
                    },
                },
            }
        },
        Command::VerifyPassword { password } => password_step(stored, password@, Answer::Proceed),
        Command::DisableProtection { password } => weaken_step(
            locked,
            "Protection can't be disabled during a locked session."@,
            stored,
            password@,
            Answer::Proceed,
        ),
        Command::SetBypassBlocking { enabled, password } => if enabled {
            Answer::Proceed
        } else {
            weaken_step(
                locked,
                "Bypass blocking can't be turned off during a locked session."@,
                stored,
                password@,
                Answer::Proceed,
            )
        },
        Command::SetStrictMode { enabled, password } => if enabled {
            Answer::Proceed
        } else {
            weaken_step(
                locked,
                "Strict mode can't be turned off during a locked session."@,
                stored,
                password@,
                Answer::Proceed,
            )
        },
        Command::SetKeywordBlocking { enabled, password } => if enabled {
            Answer::Proceed
        } else {
            weaken_step(
                locked,
                "Keyword blocking can't be turned off during a locked session."@,
                stored,
                password@,
                Answer::Proceed,
            )
        },
        Command::SetHeartbeat { enabled, password } => {
            let after = if ctx.heartbeat_enabled == enabled {
                Answer::Unchanged
            } else {
                Answer::Proceed
            };
            if enabled {
                after
            } else {
                weaken_step(
                    locked,
                    "The weekly check-in can't be turned off during a locked session."@,
                    stored,
                    password@,
                    after,
                )
            }
        },
        Command::RemoveKeyword { password, .. } => weaken_step(
            locked,
            "Keyword rules can only be added during a locked session."@,
            stored,
            password@,
            Answer::Proceed,
        ),
        Command::SetPartnerApproval { enabled, password } => if ctx.partner_required == enabled {
            Answer::Unchanged
        } else if enabled {
            if ctx.partner_channel {
                Answer::Proceed
            } else {
                Answer::Deny(
                    "Set up an accountability partner first, so they can approve unblock requests."@,
                )
            }
        } else {
            weaken_step(
                locked,
                "Partner approval can't be turned off during a locked session."@,
                stored,
                password@,
                Answer::Proceed,
            )
        },
        Command::RequestUnblock { .. } => if !ctx.partner_required {
            Answer::Deny("Partner approval isn't turned on."@)
        } else if locked {
            Answer::Deny("Unblocking is frozen during a locked session."@)
        } else {
            Answer::Proceed
        },
        Command::ApproveUnblock { .. } => if locked {
            Answer::Deny("Unblocking is frozen during a locked session."@)
        } else {
            Answer::Proceed
        },
        Command::SetAccountability { webhook, password } => if trim_view(webhook@)
            == ctx.webhook@ {
            Answer::Unchanged
        } else if ctx.webhook@.len() > 0 {
            weaken_step(
                locked,
                "The accountability partner is frozen during a locked session."@,
                stored,
                password@,
                Answer::Proceed,
            )
        } else {
            Answer::Proceed
        },
        Command::SetAccountabilitySms { password, .. } => if ctx.sms_configured {
            weaken_step(
                locked,
                "The accountability partner is frozen during a locked session."@,
                stored,
                password@,
                Answer::Proceed,
            )
        } else {
            Answer::Proceed
        },
        Command::SetUninstallCooldown { hours } => if ctx.cooldown_hours > 0 && hours
            < ctx.cooldown_hours {
            Answer::Deny(cooldown_msg())
        } else {
            Answer::Proceed
        },
        _ => Answer::Proceed,
    }
}

/// `str::trim` on a value.
pub open spec fn trim_view(s: Seq<char>) -> Seq<char> {
    crate::text::trim(s)
}

fn deny(msg: &str) -> (r: Verdict)
    ensures
        verdict_answer(r) == Answer::Deny(msg@),
{
    Verdict::Deny(msg.to_string())
}

/// Run a password check and go on to `then` when it passes.
fn password_check(stored: Option<&str>, pw: &str, then: Verdict) -> (r: Result<Verdict, Error>)
    ensures
        result_answer(r) == password_step(stored_view(stored), pw@, verdict_answer(then)),
        r matches Err(e) ==> e is Password,
{
    match check_password(stored, pw) {
        Err(e) => Err(e),
        Ok(false) => {
            proof {
                reveal_strlit("Incorrect password.");
            }
            Ok(deny("Incorrect password."))
        },
        Ok(true) => Ok(then),
    }
}

/// A weakening step: refuse while locked, else check the password.
fn weaken_check(locked: bool, locked_msg: &str, stored: Option<&str>, pw: &str, then: Verdict) -> (r:
    Result<Verdict, Error>)
    ensures
        result_answer(r) == weaken_step(
            locked,
            locked_msg@,
            stored_view(stored),
            pw@,
            verdict_answer(then),
        ),
        r matches Err(e) ==> e is Password,
{
    if locked {
        Ok(deny(locked_msg))
    } else {
        password_check(stored, pw, then)
    }
}

/// Propose the lock that ends at `until` (already known to be past `now`
/// and within the ceiling, or refused here when it is not).
fn lock_check(current: &LockState, until: i128, now: i64) -> (r: Verdict)
    requires
        now <= LATEST_NOW,
        until > now,
    ensures
        verdict_answer(r) == lock_step(*current, until as int, now),
{
    let ceiling = crate::config::max_unlock_at(now);
    if until > ceiling as i128 {
        proof {
            reveal_strlit("locked session: lock duration exceeds the 90-day maximum");
            reveal_strlit("lock duration exceeds the 90-day maximum");
            reveal_strlit("locked session: ");
            assert("locked session: lock duration exceeds the 90-day maximum"@ =~= locked_display(
                too_long_msg(),
            ));
        }
        return deny("locked session: lock duration exceeds the 90-day maximum");
    }
    let proposed = LockState::locked_until(until as i64);
    match crate::config::guard_lock_change(current, &proposed, now) {
        Ok(()) => Verdict::Lock(proposed),
        Err(_) => {
            proof {
                reveal_strlit(
                    "locked session: a locked session can only be extended, not shortened or ended early",
                );
                reveal_strlit("a locked session can only be extended, not shortened or ended early");
                reveal_strlit("locked session: ");
                assert("locked session: a locked session can only be extended, not shortened or ended early"@
                    =~= locked_display(extend_only_msg()));
            }
            deny(
                "locked session: a locked session can only be extended, not shortened or ended early",
            )
        },
    }
}

/// The largest lock length, in minutes, that can be expressed as a duration.
pub const MAX_LOCK_MINUTES: i64 = 153722867280912;

/// Decide a command: refuse it (with the reason shown to the user), let it
/// through, or name the lock to store. `stored` is the settings password's
/// hash, if one is set. Fails only when a password check meets a malformed
/// stored hash.
pub fn authorize(cmd: &Command, ctx: &Context, stored: Option<&str>) -> (r: Result<Verdict, Error>)
    requires
        ctx.now <= LATEST_NOW,
        cmd matches Command::StartLock { minutes } ==> minutes <= MAX_LOCK_MINUTES,
        cmd matches Command::ExtendLock { minutes } ==> minutes <= MAX_LOCK_MINUTES,
    ensures
        result_answer(r) == authorize_spec(*cmd, *ctx, stored_view(stored)),
        r matches Err(e) ==> e is Password,
{
    let locked = ctx.lock.is_active(ctx.now);
    match cmd {
        Command::RemoveBlock { password, .. } => {
            if locked {
                Ok(deny("The block list can only grow during a locked session."))
            } else if ctx.partner_required {
                Ok(deny("Your partner's approval is required to unblock. Request it instead."))
            } else {
                password_check(stored, password.as_str(), Verdict::Proceed)
            }
        },
        Command::AddAllow { password, .. } => {
            if locked {
                Ok(deny("The allowlist is frozen during a locked session."))
            } else if ctx.partner_required {
                Ok(deny("Your partner's approval is required to unblock. Request it instead."))
            } else {
                password_check(stored, password.as_str(), Verdict::Proceed)
            }
        },
        Command::SetSchedule { schedule, password } => {
            if locked && !schedule.same_as(&ctx.schedule) {
                proof {
                    reveal_strlit(
                        "locked session: settings are frozen until the locked session ends",
                    );
                    reveal_strlit("settings are frozen until the locked session ends");
                    reveal_strlit("locked session: ");
                    assert("locked session: settings are frozen until the locked session ends"@
                        =~= locked_display("settings are frozen until the locked session ends"@));
                }
                Ok(deny("locked session: settings are frozen until the locked session ends"))
            } else {
                password_check(stored, password.as_str(), Verdict::Proceed)
            }
        },
        Command::StartLock { minutes } => {
            if locked {
                Ok(deny("A locked session is already active."))
            } else if *minutes <= 0 {
                Ok(deny("Lock duration must be positive."))
            } else {
                let until: i128 = (ctx.now as i128) + (*minutes as i128) * 60;
                Ok(lock_check(&ctx.lock, until, ctx.now))
            }
        },
        Command::ExtendLock { minutes } => {
            if *minutes <= 0 {
                Ok(deny("Extension must be positive."))
            } else {
                let base: i64 = match ctx.lock.locked_until {
                    Some(u) => if u > ctx.now {
                        u
                    } else {
                        ctx.now
                    },
                    None => ctx.now,
                };
                let until: i128 = (base as i128) + (*minutes as i128) * 60;
                Ok(lock_check(&ctx.lock, until, ctx.now))
            }
        },
        Command::SetPassword { current, .. } => {
            if locked {
                return Ok(deny("The password is frozen during a locked session."));
            }
            match stored {
                None => Ok(Verdict::Proceed),
                Some(h) => match current {
                    None => Ok(deny("Incorrect current password.")),
                    Some(c) => match check_password(stored, c.as_str()) {
                        Err(e) => Err(e),
                        Ok(true) => Ok(Verdict::Proceed),
                        Ok(false) => Ok(deny("Incorrect current password.")),
                    },
                },
            }
        },
        Command::VerifyPassword { password } => password_check(
            stored,
            password.as_str(),
            Verdict::Proceed,
        ),
        Command::DisableProtection { password } => weaken_check(
            locked,
            "Protection can't be disabled during a locked session.",
            stored,
            password.as_str(),
            Verdict::Proceed,
        ),
        Command::SetBypassBlocking { enabled, password } => {
            if *enabled {
                Ok(Verdict::Proceed)
            } else {
                weaken_check(
                    locked,
                    "Bypass blocking can't be turned off during a locked session.",
                    stored,
                    password.as_str(),
                    Verdict::Proceed,
                )
            }
        },
        Command::SetStrictMode { enabled, password } => {
            if *enabled {
                Ok(Verdict::Proceed)
            } else {
                weaken_check(
                    locked,
                    "Strict mode can't be turned off during a locked session.",
                    stored,
                    password.as_str(),
                    Verdict::Proceed,
                )
            }
        },
        Command::SetKeywordBlocking { enabled, password } => {
            if *enabled {
                Ok(Verdict::Proceed)
            } else {
                weaken_check(
                    locked,
                    "Keyword blocking can't be turned off during a locked session.",
                    stored,
                    password.as_str(),
                    Verdict::Proceed,
                )
            }
        },
        Command::SetHeartbeat { enabled, password } => {
            let after = if ctx.heartbeat_enabled == *enabled {
                Verdict::Unchanged
            } else {
                Verdict::Proceed
            };
            if *enabled {
                Ok(after)
            } else {
                weaken_check(
                    locked,
                    "The weekly check-in can't be turned off during a locked session.",
                    stored,
                    password.as_str(),
                    after,
                )
            }
        },
        Command::RemoveKeyword { password, .. } => weaken_check(
            locked,
            "Keyword rules can only be added during a locked session.",
            stored,
            password.as_str(),
            Verdict::Proceed,
        ),
        Command::SetPartnerApproval { enabled, password } => {
            if ctx.partner_required == *enabled {
                Ok(Verdict::Unchanged)
            } else if *enabled {
                if ctx.partner_channel {
                    Ok(Verdict::Proceed)
                } else {
                    Ok(
                        deny(
                            "Set up an accountability partner first, so they can approve unblock requests.",
                        ),
                    )
                }
            } else {
                weaken_check(
                    locked,
                    "Partner approval can't be turned off during a locked session.",
                    stored,
                    password.as_str(),
                    Verdict::Proceed,
                )
            }
        },
        Command::RequestUnblock { .. } => {
            if !ctx.partner_required {
                Ok(deny("Partner approval isn't turned on."))
            } else if locked {
                Ok(deny("Unblocking is frozen during a locked session."))
            } else {
                Ok(Verdict::Proceed)
            }
        },
        Command::ApproveUnblock { .. } => {
            if locked {
                Ok(deny("Unblocking is frozen during a locked session."))
            } else {
                Ok(Verdict::Proceed)
            }
        },
        Command::SetAccountability { webhook, password } => {
            let new = crate::text::trim_vec(&crate::text::chars_of(webhook.as_str()));
            let old = crate::text::chars_of(ctx.webhook.as_str());
            if crate::text::chars_eq(&new, &old) {
                Ok(Verdict::Unchanged)
            } else if old.len() > 0 {
                weaken_check(
                    locked,
                    "The accountability partner is frozen during a locked session.",
                    stored,
                    password.as_str(),
                    Verdict::Proceed,
                )
            } else {
                Ok(Verdict::Proceed)
            }
        },
        Command::SetAccountabilitySms { password, .. } => {
            if ctx.sms_configured {
                weaken_check(
                    locked,
                    "The accountability partner is frozen during a locked session.",
                    stored,
                    password.as_str(),
                    Verdict::Proceed,
                )
            } else {
                Ok(Verdict::Proceed)
            }
        },
        Command::SetUninstallCooldown { hours } => {
            if ctx.cooldown_hours > 0 && *hours < ctx.cooldown_hours {
                proof {
                    reveal_strlit("The uninstall cooldown can only be increased once it is set.");
                }
                Ok(deny("The uninstall cooldown can only be increased once it is set."))
            } else {
                Ok(Verdict::Proceed)
            }
        },
        _ => Ok(Verdict::Proceed),
    }
}

// ---------------------------------------------------------------------------
// What authorization promises
// ---------------------------------------------------------------------------

/// The commands that weaken protection in the current state: removing or
/// allowlisting sites, changing the schedule or the password, turning
/// protection or a safeguard off, removing keyword rules, dropping partner
/// approval, changing or removing a partner channel, and unblocking.
pub open spec fn weakening(cmd: Command, ctx: Context) -> bool {
    match cmd {
        Command::RemoveBlock { .. } => true,
        Command::AddAllow { .. } => true,
        Command::SetSchedule { schedule, .. } => schedule@ != ctx.schedule@,
        Command::SetPassword { .. } => true,
        Command::DisableProtection { .. } => true,
        Command::SetBypassBlocking { enabled, .. } => !enabled,
        Command::SetStrictMode { enabled, .. } => !enabled,
        Command::SetKeywordBlocking { enabled, .. } => !enabled,
        Command::SetHeartbeat { enabled, .. } => !enabled,
        Command::RemoveKeyword { .. } => true,
        Command::SetPartnerApproval { enabled, .. } => !enabled && ctx.partner_required,
        Command::SetAccountability { webhook, .. } => ctx.webhook@.len() > 0 && trim_view(webhook@)
            != ctx.webhook@,
        Command::SetAccountabilitySms { .. } => ctx.sms_configured,
        Command::RequestUnblock { .. } => true,
        Command::ApproveUnblock { .. } => true,
        _ => false,
    }
}

/// The commands whose password must verify: every weakening one except the
/// partner-approved unblock (which the partner's code guards instead).
pub open spec fn needs_password(cmd: Command, ctx: Context) -> bool {
    match cmd {
        Command::RemoveBlock { .. } => !ctx.partner_required,
        Command::AddAllow { .. } => !ctx.partner_required,
        Command::SetSchedule { .. } => true,
        Command::DisableProtection { .. } => true,
        Command::SetBypassBlocking { enabled, .. } => !enabled,
        Command::SetStrictMode { enabled, .. } => !enabled,
        Command::SetKeywordBlocking { enabled, .. } => !enabled,
        Command::SetHeartbeat { enabled, .. } => !enabled,
        Command::RemoveKeyword { .. } => true,
        Command::SetPartnerApproval { enabled, .. } => !enabled && ctx.partner_required,
        Command::SetAccountability { webhook, .. } => ctx.webhook@.len() > 0 && trim_view(webhook@)
            != ctx.webhook@,
        Command::SetAccountabilitySms { .. } => ctx.sms_configured,
        _ => false,
    }
}

/// The password a command carries.
pub open spec fn command_password(cmd: Command) -> Seq<char> {
    match cmd {
        Command::RemoveBlock { password, .. } => password@,
        Command::AddAllow { password, .. } => password@,
        Command::SetSchedule { password, .. } => password@,
        Command::DisableProtection { password } => password@,
        Command::SetBypassBlocking { password, .. } => password@,
        Command::SetStrictMode { password, .. } => password@,
        Command::SetKeywordBlocking { password, .. } => password@,
        Command::SetHeartbeat { password, .. } => password@,
        Command::RemoveKeyword { password, .. } => password@,
        Command::SetPartnerApproval { password, .. } => password@,
        Command::SetAccountability { password, .. } => password@,
        Command::SetAccountabilitySms { password, .. } => password@,
        Command::VerifyPassword { password } => password@,
        _ => Seq::empty(),
    }
}

/// The commands that only strengthen protection (or read state), which are
/// never refused: adding blocks and keywords, removing allowlist entries,
/// turning protection and safeguards on, the letter, history and polls.
pub open spec fn strengthening(cmd: Command) -> bool {
    match cmd {
        Command::AddBlock { .. } => true,
        Command::RemoveAllow { .. } => true,
        Command::EnableProtection => true,
        Command::SetBypassBlocking { enabled, .. } => enabled,
        Command::SetStrictMode { enabled, .. } => enabled,
        Command::SetKeywordBlocking { enabled, .. } => enabled,
        Command::SetHeartbeat { enabled, .. } => enabled,
        Command::AddKeyword { .. } => true,
        Command::SetLetter { .. } => true,
        Command::GetStatus => true,
        Command::RecentEvents { .. } => true,
        Command::ListCustomBlocks => true,
        Command::ListKeywords => true,
        Command::GetLetter => true,
        Command::DeleteHistory => true,
        Command::PollIntervention => true,
        Command::TriggerIntervention => true,
        Command::ResolveIntervention => true,
        _ => false,
    }
}

/// While a lock is in force, every weakening command is refused.
pub proof fn lemma_locked_refuses_weakening(cmd: Command, ctx: Context, stored: Option<Seq<char>>)
    requires
        ctx_locked(ctx),
        weakening(cmd, ctx),
    ensures
        authorize_spec(cmd, ctx, stored) is Deny,
{
}

/// Outside a lock, a password-gated command with a password that does not
/// verify against the stored one is refused (or fails on a malformed hash).
pub proof fn lemma_wrong_password_refused(cmd: Command, ctx: Context, h: Seq<char>)
    requires
        needs_password(cmd, ctx),
        !password_accepts(Some(h), command_password(cmd)),
    ensures
        authorize_spec(cmd, ctx, Some(h)) is Deny || authorize_spec(cmd, ctx, Some(h)) is Fail,
{
}

/// Strengthening commands are always allowed, locked or not, whatever the
/// password.
pub proof fn lemma_strengthening_allowed(cmd: Command, ctx: Context, stored: Option<Seq<char>>)
    requires
        strengthening(cmd),
    ensures
        authorize_spec(cmd, ctx, stored) is Proceed || authorize_spec(cmd, ctx, stored) is Unchanged,
{
}

/// Every lock `authorize` hands out is one the lock guard accepts: while a lock
/// is in force it only ever gets longer, and none runs past the ceiling.
pub proof fn lemma_granted_locks_are_guarded(cmd: Command, ctx: Context, stored: Option<Seq<char>>)
    requires
        authorize_spec(cmd, ctx, stored) is Lock,
    ensures
        lock_change_ok(ctx.lock, authorize_spec(cmd, ctx, stored)->Lock_0, ctx.now),
{
}

/// The uninstall cooldown only grows: once it is set, no shorter value (and
/// no switching it off) is ever let through, locked or not.
pub proof fn lemma_cooldown_only_grows(hours: u32, ctx: Context, stored: Option<Seq<char>>)
    requires
        ctx.cooldown_hours > 0,
        hours < ctx.cooldown_hours,
    ensures
        authorize_spec(Command::SetUninstallCooldown { hours }, ctx, stored) is Deny,
{
}

/// Outside a lock, every password-gated command whose password verifies
/// against a well-formed stored hash (or with no password set) is let
/// through: weakening is frozen only by a lock, and otherwise gated only by
/// the password.
pub proof fn lemma_unlocked_right_password_allowed(
    cmd: Command,
    ctx: Context,
    stored: Option<Seq<char>>,
)
    requires
        !ctx_locked(ctx),
        needs_password(cmd, ctx),
        !stored_bad(stored),
        password_accepts(stored, command_password(cmd)),
    ensures
        authorize_spec(cmd, ctx, stored) is Proceed || authorize_spec(cmd, ctx, stored) is Unchanged,
{
}

/// Removing a keyword in particular: outside a lock, with the right password,
/// it goes ahead.
pub proof fn lemma_unlocked_keyword_removal_allowed(
    word: String,
    password: String,
    ctx: Context,
    stored: Option<Seq<char>>,
)
    requires
        !ctx_locked(ctx),
        !stored_bad(stored),
        password_accepts(stored, password@),
    ensures
        authorize_spec(Command::RemoveKeyword { word, password }, ctx, stored) is Proceed,
{
}

} // verus!
