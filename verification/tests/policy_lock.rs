use sanctum::approval::{
    check_code, code_from_bytes, followup, generate_code, unblock_plan, ApprovalOutcome, Followup,
    PendingUnblock, UnblockAction, ALPHABET, CODE_LEN, MAX_ATTEMPTS, REQUEST_TTL_MINS,
};
use sanctum::config::{
    guard_config_change, guard_lock_change, max_unlock_at, AppConfig, LocalTime, LockState,
    Schedule, TimeWindow,
};
use sanctum::error::Error;
use sanctum::lifecycle::{
    accepts_stop, bring_up, check_uninstall, reconcile, startup, teardown, watch_step, Action, Probe,
};
use sanctum::password::{check_password, hash_password, verify_password};
use sanctum::policy::{authorize, Command, Context, Verdict};

/// 2026-07-15 12:00:00 UTC (a Wednesday).
const NOW: i64 = 1_784_116_800;
const HOUR: i64 = 3600;
const DAY: i64 = 86_400;

fn local(h: u16, m: u16) -> LocalTime {
    // A fixed Wednesday, for weekday-independent tests.
    LocalTime { utc: NOW, minute_of_day: h * 60 + m, weekday: 2 }
}

// ---------------------------------------------------------------------------
// config
// ---------------------------------------------------------------------------

#[test]
fn overnight_window() {
    let s = Schedule::Windows {
        windows: vec![TimeWindow { start_min: 21 * 60, end_min: 6 * 60, days: vec![] }],
    };
    assert!(s.is_active_at(&local(22, 0)));
    assert!(s.is_active_at(&local(2, 0)));
    assert!(!s.is_active_at(&local(12, 0)));
}

#[test]
fn always_on_and_off() {
    assert!(Schedule::AlwaysOn.is_active_at(&local(3, 0)));
    assert!(!Schedule::Off.is_active_at(&local(3, 0)));
}

#[test]
fn lock_expiry_and_extend_rules() {
    let now = NOW;
    let future = now + 5 * HOUR;
    let sooner = now + HOUR;

    let locked = LockState::locked_until(future);
    assert!(locked.is_active(now));

    // Shortening is refused.
    assert!(guard_lock_change(&locked, &LockState::locked_until(sooner), now).is_err());
    // Unlocking early is refused.
    assert!(guard_lock_change(&locked, &LockState::unlocked(), now).is_err());
    // Extending is allowed.
    let longer = LockState::locked_until(now + 10 * HOUR);
    assert!(guard_lock_change(&locked, &longer, now).is_ok());

    // An expired lock imposes no restriction.
    let expired = LockState::locked_until(now - HOUR);
    assert!(!expired.is_active(now));
    assert!(guard_lock_change(&expired, &LockState::unlocked(), now).is_ok());
}

#[test]
fn rejects_locks_beyond_max() {
    let now = NOW;
    let cur = LockState::unlocked();
    // 91 days > 90-day ceiling: refused even from unlocked.
    let too_long = LockState::locked_until(now + 91 * DAY);
    assert!(guard_lock_change(&cur, &too_long, now).is_err());
    // Exactly at the ceiling is allowed.
    let ok = LockState::locked_until(now + 90 * DAY);
    assert!(guard_lock_change(&cur, &ok, now).is_ok());
}

#[test]
fn config_frozen_while_locked() {
    let now = NOW;
    let lock = LockState::locked_until(now + 5 * HOUR);
    let cur = AppConfig::default();
    let mut proposed = cur.clone();
    proposed.protection_enabled = false;
    assert!(guard_config_change(&cur, &proposed, &lock, now).is_err());
    // No change is always fine.
    assert!(guard_config_change(&cur, &cur, &lock, now).is_ok());
}

#[test]
fn lock_refusals_carry_their_reasons() {
    let now = NOW;
    match guard_lock_change(&LockState::unlocked(), &LockState::locked_until(now + 91 * DAY), now) {
        Err(Error::Locked(m)) => assert_eq!(m, "lock duration exceeds the 90-day maximum"),
        other => panic!("unexpected: {other:?}"),
    }
    let locked = LockState::locked_until(now + HOUR);
    match guard_lock_change(&locked, &LockState::unlocked(), now) {
        Err(Error::Locked(m)) => {
            assert_eq!(m, "a locked session can only be extended, not shortened or ended early")
        }
        other => panic!("unexpected: {other:?}"),
    }
    assert_eq!(max_unlock_at(now), now + 90 * DAY);
    assert_eq!(locked.remaining(now), Some(3600));
    assert_eq!(locked.remaining(now + HOUR), None);
    // A locked state with no expiry is never in force.
    assert!(!LockState { locked: true, locked_until: None }.is_active(now));
}

#[test]
fn schedule_windows_respect_days_and_focus() {
    let w = Schedule::Windows {
        windows: vec![TimeWindow { start_min: 9 * 60, end_min: 17 * 60, days: vec![0, 1] }],
    };
    // Wednesday is not listed.
    assert!(!w.is_active_at(&local(10, 0)));
    let monday = LocalTime { utc: NOW, minute_of_day: 600, weekday: 0 };
    assert!(w.is_active_at(&monday));
    let zero = Schedule::Windows {
        windows: vec![TimeWindow { start_min: 60, end_min: 60, days: vec![] }],
    };
    assert!(!zero.is_active_at(&local(1, 0)));
    let focus = Schedule::Focus { ends_at: NOW + 60 };
    assert!(focus.is_active_at(&local(12, 0)));
    assert!(!Schedule::Focus { ends_at: NOW }.is_active_at(&local(12, 0)));
}

// ---------------------------------------------------------------------------
// approval + password
// ---------------------------------------------------------------------------

fn pending(code: &str, created: i64, attempts: u32) -> PendingUnblock {
    PendingUnblock {
        domain: "example.com".into(),
        action: UnblockAction::AddAllow,
        code_hash: hash_password(code).unwrap(),
        created_at: created,
        attempts,
    }
}

#[test]
fn code_is_readable_and_random() {
    let a = generate_code().unwrap();
    let b = generate_code().unwrap();
    assert_eq!(a.len(), CODE_LEN);
    assert!(a.bytes().all(|c| ALPHABET.as_bytes().contains(&c)));
    assert_ne!(a, b, "two codes should essentially never collide");
}

#[test]
fn correct_code_approves() {
    let now = NOW;
    let p = pending("BCD234", now, 0);
    assert_eq!(check_code(&p, "BCD234", now).unwrap(), ApprovalOutcome::Approved);
    // Case/space tolerant only via trim; exact match required otherwise.
    assert_eq!(check_code(&p, " BCD234 ", now).unwrap(), ApprovalOutcome::Approved);
}

#[test]
fn wrong_code_counts_down() {
    let now = NOW;
    let p = pending("BCD234", now, 0);
    assert_eq!(check_code(&p, "WRONG1", now).unwrap(), ApprovalOutcome::Wrong { attempts_left: 4 });
    let p4 = pending("BCD234", now, 4);
    assert_eq!(check_code(&p4, "WRONG1", now).unwrap(), ApprovalOutcome::Wrong { attempts_left: 0 });
}

#[test]
fn expired_and_exhausted_are_rejected() {
    let now = NOW;
    let old = now - (REQUEST_TTL_MINS + 1) * 60;
    assert_eq!(check_code(&pending("BCD234", old, 0), "BCD234", now).unwrap(), ApprovalOutcome::Expired);
    assert_eq!(
        check_code(&pending("BCD234", now, MAX_ATTEMPTS), "BCD234", now).unwrap(),
        ApprovalOutcome::TooManyAttempts
    );
}

#[test]
fn code_bytes_map_onto_the_alphabet() {
    assert_eq!(code_from_bytes(&vec![0, 1, 26, 27, 255, 53]), "BC9BR9");
    let p = PendingUnblock {
        domain: "example.com".into(),
        action: UnblockAction::RemoveBlock,
        code_hash: "garbage".into(),
        created_at: NOW,
        attempts: 0,
    };
    assert!(matches!(check_code(&p, "BCD234", NOW), Err(Error::Password(_))));
    // An expired request is reported as expired before the hash is looked at.
    assert_eq!(check_code(&p, "BCD234", NOW + 31 * 60).unwrap(), ApprovalOutcome::Expired);
}

#[test]
fn unblock_requests_name_a_lowercased_site_and_its_action() {
    let custom = vec!["mine.com".to_string()];
    assert_eq!(unblock_plan("  Mine.COM ", &custom), Some(("mine.com".to_string(), UnblockAction::RemoveBlock)));
    assert_eq!(unblock_plan("builtin.com", &custom), Some(("builtin.com".to_string(), UnblockAction::AddAllow)));
    assert_eq!(unblock_plan("   ", &custom), None);
    assert_eq!(unblock_plan("", &vec![]), None);
}

#[test]
fn approval_outcomes_say_what_happens_next() {
    assert_eq!(followup(ApprovalOutcome::Approved), Followup::Apply);
    assert_eq!(
        followup(ApprovalOutcome::Wrong { attempts_left: 3 }),
        Followup::Retry("That code didn't match. 3 tries left.".to_string())
    );
    assert_eq!(
        followup(ApprovalOutcome::Wrong { attempts_left: 0 }),
        Followup::Discard("That code was wrong too many times. Start a new request.".to_string())
    );
    assert_eq!(
        followup(ApprovalOutcome::Expired),
        Followup::Discard("That request expired. Start a new one.".to_string())
    );
    assert_eq!(
        followup(ApprovalOutcome::TooManyAttempts),
        Followup::Discard("Too many tries. Start a new request.".to_string())
    );
}

#[test]
fn hash_then_verify() {
    let phc = hash_password("correct horse battery staple").unwrap();
    assert!(phc.starts_with("$argon2id$"));
    assert!(verify_password("correct horse battery staple", &phc).unwrap());
    assert!(!verify_password("wrong", &phc).unwrap());
}

#[test]
fn malformed_hash_errors() {
    assert!(verify_password("x", "not-a-phc-string").is_err());
}

#[test]
fn no_password_set_passes_the_check() {
    assert!(check_password(None, "anything").unwrap());
    let phc = hash_password("pw").unwrap();
    assert!(check_password(Some(&phc), "pw").unwrap());
    assert!(!check_password(Some(&phc), "nope").unwrap());
    assert!(check_password(Some("bad"), "pw").is_err());
}

// ---------------------------------------------------------------------------
// authorization
// ---------------------------------------------------------------------------

fn ctx(locked: bool) -> Context {
    Context {
        lock: if locked { LockState::locked_until(NOW + HOUR) } else { LockState::unlocked() },
        now: NOW,
        schedule: Schedule::AlwaysOn,
        partner_required: false,
        partner_channel: false,
        heartbeat_enabled: true,
        webhook: String::new(),
        sms_configured: false,
        cooldown_hours: 0,
    }
}

fn deny(s: &str) -> Verdict {
    Verdict::Deny(s.to_string())
}

#[test]
fn weakening_is_frozen_while_locked() {
    let c = ctx(true);
    let rm = Command::RemoveBlock { domain: "a.com".into(), password: String::new() };
    assert_eq!(authorize(&rm, &c, None).unwrap(), deny("The block list can only grow during a locked session."));
    let off = Command::DisableProtection { password: String::new() };
    assert_eq!(authorize(&off, &c, None).unwrap(), deny("Protection can't be disabled during a locked session."));
    let strict = Command::SetStrictMode { enabled: false, password: String::new() };
    assert_eq!(authorize(&strict, &c, None).unwrap(), deny("Strict mode can't be turned off during a locked session."));
    let pw = Command::SetPassword { new: "x".into(), current: None };
    assert_eq!(authorize(&pw, &c, None).unwrap(), deny("The password is frozen during a locked session."));
    let sched = Command::SetSchedule { schedule: Schedule::Off, password: String::new() };
    assert_eq!(
        authorize(&sched, &c, None).unwrap(),
        deny("locked session: settings are frozen until the locked session ends")
    );
    // Re-submitting the schedule in force is no change, so it is not frozen.
    let same = Command::SetSchedule { schedule: Schedule::AlwaysOn, password: String::new() };
    assert_eq!(authorize(&same, &c, None).unwrap(), Verdict::Proceed);
}

#[test]
fn strengthening_is_always_allowed() {
    for locked in [false, true] {
        let c = ctx(locked);
        for cmd in [
            Command::AddBlock { domain: "a.com".into() },
            Command::RemoveAllow { domain: "a.com".into() },
            Command::EnableProtection,
            Command::SetBypassBlocking { enabled: true, password: String::new() },
            Command::AddKeyword { word: "x".into() },
            Command::SetLetter { text: "stay".into() },
        ] {
            assert_eq!(authorize(&cmd, &c, Some("garbage")).unwrap(), Verdict::Proceed);
        }
    }
}

#[test]
fn weakening_needs_the_password_when_unlocked() {
    let phc = hash_password("secret").unwrap();
    let c = ctx(false);
    let wrong = Command::DisableProtection { password: "guess".into() };
    assert_eq!(authorize(&wrong, &c, Some(&phc)).unwrap(), deny("Incorrect password."));
    let right = Command::DisableProtection { password: "secret".into() };
    assert_eq!(authorize(&right, &c, Some(&phc)).unwrap(), Verdict::Proceed);
    let change = Command::SetPassword { new: "n".into(), current: Some("guess".into()) };
    assert_eq!(authorize(&change, &c, Some(&phc)).unwrap(), deny("Incorrect current password."));
    let no_current = Command::SetPassword { new: "n".into(), current: None };
    assert_eq!(authorize(&no_current, &c, Some(&phc)).unwrap(), deny("Incorrect current password."));
    assert!(authorize(&wrong, &c, Some("not-a-phc")).is_err());
}

#[test]
fn lock_commands_clamp_and_extend() {
    let c = ctx(false);
    assert_eq!(
        authorize(&Command::StartLock { minutes: 60 }, &c, None).unwrap(),
        Verdict::Lock(LockState::locked_until(NOW + 3600))
    );
    assert_eq!(authorize(&Command::StartLock { minutes: 0 }, &c, None).unwrap(), deny("Lock duration must be positive."));
    assert_eq!(
        authorize(&Command::StartLock { minutes: 91 * 24 * 60 }, &c, None).unwrap(),
        deny("locked session: lock duration exceeds the 90-day maximum")
    );
    let l = ctx(true);
    assert_eq!(authorize(&Command::StartLock { minutes: 5 }, &l, None).unwrap(), deny("A locked session is already active."));
    assert_eq!(
        authorize(&Command::ExtendLock { minutes: 30 }, &l, None).unwrap(),
        Verdict::Lock(LockState::locked_until(NOW + HOUR + 1800))
    );
    assert_eq!(authorize(&Command::ExtendLock { minutes: -1 }, &l, None).unwrap(), deny("Extension must be positive."));
}

#[test]
fn uninstall_cooldown_only_grows() {
    let mut c = ctx(false);
    // Off: any value may be chosen.
    assert_eq!(authorize(&Command::SetUninstallCooldown { hours: 0 }, &c, None).unwrap(), Verdict::Proceed);
    assert_eq!(authorize(&Command::SetUninstallCooldown { hours: 12 }, &c, None).unwrap(), Verdict::Proceed);
    // Once set, it may be raised or kept, never lowered or switched off.
    c.cooldown_hours = 24;
    assert_eq!(authorize(&Command::SetUninstallCooldown { hours: 48 }, &c, None).unwrap(), Verdict::Proceed);
    assert_eq!(authorize(&Command::SetUninstallCooldown { hours: 24 }, &c, None).unwrap(), Verdict::Proceed);
    let lowered = deny("The uninstall cooldown can only be increased once it is set.");
    assert_eq!(authorize(&Command::SetUninstallCooldown { hours: 23 }, &c, None).unwrap(), lowered);
    assert_eq!(authorize(&Command::SetUninstallCooldown { hours: 0 }, &c, None).unwrap(), lowered);
}

#[test]
fn partner_approval_guards_unblocking() {
    let mut c = ctx(false);
    c.partner_required = true;
    let rm = Command::RemoveBlock { domain: "a.com".into(), password: String::new() };
    assert_eq!(
        authorize(&rm, &c, None).unwrap(),
        deny("Your partner's approval is required to unblock. Request it instead.")
    );
    assert_eq!(authorize(&Command::RequestUnblock { domain: "a.com".into() }, &c, None).unwrap(), Verdict::Proceed);
    let off = ctx(false);
    assert_eq!(
        authorize(&Command::RequestUnblock { domain: "a.com".into() }, &off, None).unwrap(),
        deny("Partner approval isn't turned on.")
    );
    let on = Command::SetPartnerApproval { enabled: true, password: String::new() };
    assert_eq!(
        authorize(&on, &off, None).unwrap(),
        deny("Set up an accountability partner first, so they can approve unblock requests.")
    );
    assert_eq!(authorize(&on, &c, None).unwrap(), Verdict::Unchanged);
}

// ---------------------------------------------------------------------------
// lifecycle
// ---------------------------------------------------------------------------

#[test]
fn adapters_follow_the_resolver() {
    assert_eq!(
        reconcile(true, false),
        vec![Action::Reload, Action::ApplyFloor, Action::RestoreAdapters, Action::DisarmFirewall, Action::EnsureWatchdog, Action::MarkProtected]
    );
    assert_eq!(
        reconcile(false, true),
        vec![Action::Reload, Action::RemoveFloor, Action::FlushDns, Action::ArmFirewall, Action::ReassertLoopback, Action::EnsureWatchdog, Action::MarkProtected]
    );
    assert!(!bring_up(false).contains(&Action::ReassertLoopback));
    assert_eq!(teardown(true), vec![Action::RestoreAdapters]);
    assert_eq!(teardown(false), vec![Action::RestoreAdapters, Action::RemoveFloor, Action::RemoveFirewall]);
    assert!(!accepts_stop(true));
    assert!(check_uninstall(true, false).is_err());
    assert!(check_uninstall(true, true).is_ok());
    assert_eq!(watch_step(2, Probe::Running { canary_ok: false }), (3, true));
    assert_eq!(watch_step(2, Probe::Restarted), (0, false));
}

#[test]
fn startup_captures_the_journal_before_anything_else() {
    assert_eq!(startup(), vec![Action::CaptureJournal]);
    let up = bring_up(true);
    assert!(!up.contains(&Action::CaptureJournal));
}
