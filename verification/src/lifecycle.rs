//! The enforcement lifecycle's decisions: bring-up (anti-brick ordering),
//! each reconcile pass, authorized teardown, the service's stop control, the
//! uninstall refusal and the watchdog's supervision.
//!
//! The service performs each action in the order given and reports back
//! what it observed (whether the resolver answers its health canary). The
//! anti-brick rule runs through all of it: adapter DNS is pointed at the
//! local resolver only while that resolver is verified to be answering.

use vstd::prelude::*;

verus! {

/// One step of enforcement work, carried out by the service.
#[derive(Debug, Clone, Copy, PartialEq, Eq, Structural)]
pub enum Action {
    /// Journal every manageable adapter's current DNS, before anything changes.
    CaptureJournal,
    /// Write the HOSTS floor from the current block set.
    ApplyFloor,
    /// Remove the HOSTS floor.
    RemoveFloor,
    /// Flush the Windows DNS client cache.
    FlushDns,
    /// Point every manageable adapter's DNS at the loopback resolver.
    ReassertLoopback,
    /// Restore every adapter's journaled prior DNS.
    RestoreAdapters,
    /// Arm the configured egress hardening (DoH IPs, plaintext DNS).
    ArmFirewall,
    /// Disarm egress hardening while keeping the rule set empty.
    DisarmFirewall,
    /// Remove all of Sanctum's firewall rules.
    RemoveFirewall,
    /// Rebuild the filter state from the database and hot-reload the resolver.
    Reload,
    /// Start the watchdog if it has stopped.
    EnsureWatchdog,
    /// Record today as a protected day.
    MarkProtected,
}

/// What the service does first, before it binds its resolver: journal
/// the adapters' prior DNS, so it can always be restored.
pub open spec fn startup_spec() -> Seq<Action> {
    seq![Action::CaptureJournal]
}

/// The start-up actions.
pub fn startup() -> (r: Vec<Action>)
    ensures
        r@ == startup_spec(),
{
    let mut r: Vec<Action> = Vec::new();
    r.push(Action::CaptureJournal);
    assert(r@ =~= startup_spec());
    r
}

/// What the service does once the resolver is bound (`serving` says whether
/// it answered its health canary): the floor goes down first for the bind
/// window; a serving resolver then takes over (floor lifted, cache flushed,
/// adapters repointed, egress armed); a silent one leaves the floor in place
/// and the adapters on their own DNS.
pub open spec fn bring_up_spec(serving: bool) -> Seq<Action> {
    if serving {
        seq![
            Action::ApplyFloor,
            Action::RemoveFloor,
            Action::FlushDns,
            Action::ReassertLoopback,
            Action::ArmFirewall,
            Action::MarkProtected,
        ]
    } else {
        seq![
            Action::ApplyFloor,
            Action::RestoreAdapters,
            Action::DisarmFirewall,
            Action::MarkProtected,
        ]
    }
}

/// One reconcile pass, after a reload, given whether the resolver was
/// serving before and whether it answers now.
pub open spec fn reconcile_spec(was_serving: bool, now_serving: bool) -> Seq<Action> {
    let middle = if now_serving {
        if !was_serving {
            seq![Action::RemoveFloor, Action::FlushDns, Action::ArmFirewall, Action::ReassertLoopback]
        } else {
            seq![Action::ReassertLoopback]
        }
    } else {
        if was_serving {
            seq![Action::ApplyFloor, Action::RestoreAdapters, Action::DisarmFirewall]
        } else {
            seq![Action::ApplyFloor]
        }
    };
    seq![Action::Reload] + middle + seq![Action::EnsureWatchdog, Action::MarkProtected]
}

/// Teardown: adapters are always restored; only an authorized (unlocked)
/// stop also removes the floor and the firewall rules.
pub open spec fn teardown_spec(locked: bool) -> Seq<Action> {
    if locked {
        seq![Action::RestoreAdapters]
    } else {
        seq![Action::RestoreAdapters, Action::RemoveFloor, Action::RemoveFirewall]
    }
}

fn actions(a: &[Action]) -> (r: Vec<Action>)
    ensures
        r@ == a@,
{
    let mut v: Vec<Action> = Vec::new();
    let mut i: usize = 0;
    while i < a.len()
        invariant
            i <= a.len(),
            v@ == a@.take(i as int),
        decreases a.len() - i,
    {
        v.push(a[i]);
        assert(v@ =~= a@.take(i + 1));
        i += 1;
    }
    assert(a@.take(a.len() as int) =~= a@);
    v
}

/// The bring-up actions once the resolver is bound.
pub fn bring_up(serving: bool) -> (r: Vec<Action>)
    ensures
        r@ == bring_up_spec(serving),
{
    let r = if serving {
        actions(
            &[
                Action::ApplyFloor,
                Action::RemoveFloor,
                Action::FlushDns,
                Action::ReassertLoopback,
                Action::ArmFirewall,
                Action::MarkProtected,
            ],
        )
    } else {
        actions(
            &[
                Action::ApplyFloor,
                Action::RestoreAdapters,
                Action::DisarmFirewall,
                Action::MarkProtected,
            ],
        )
    };
    assert(r@ =~= bring_up_spec(serving));
    r
}

/// The actions of one reconcile pass.
pub fn reconcile(was_serving: bool, now_serving: bool) -> (r: Vec<Action>)
    ensures
        r@ == reconcile_spec(was_serving, now_serving),
{
    let mut r: Vec<Action> = Vec::new();
    r.push(Action::Reload);
    if now_serving {
        if !was_serving {
            r.push(Action::RemoveFloor);
            r.push(Action::FlushDns);
            r.push(Action::ArmFirewall);
        }
        r.push(Action::ReassertLoopback);
    } else {
        r.push(Action::ApplyFloor);
        if was_serving {
            r.push(Action::RestoreAdapters);
            r.push(Action::DisarmFirewall);
        }
    }
    r.push(Action::EnsureWatchdog);
    r.push(Action::MarkProtected);
    assert(r@ =~= reconcile_spec(was_serving, now_serving));
    r
}

/// The teardown actions.
pub fn teardown(locked: bool) -> (r: Vec<Action>)
    ensures
        r@ == teardown_spec(locked),
{
    let mut r: Vec<Action> = Vec::new();
    r.push(Action::RestoreAdapters);
    if !locked {
        r.push(Action::RemoveFloor);
        r.push(Action::RemoveFirewall);
    }
    assert(r@ =~= teardown_spec(locked));
    r
}

/// Whether the service accepts a stop request from the service manager:
/// not while a lock is in force (shutdown is always accepted).
pub fn accepts_stop(locked: bool) -> (r: bool)
    ensures
        r == !locked,
{
    !locked
}

pub open spec fn uninstall_refusal() -> Seq<char> {
    "A locked Sanctum session is active. It can't be uninstalled until the timer ends. To remove it sooner, reboot Windows into Safe Mode \u{2014} that friction is the point."@
}

/// Whether uninstalling may go ahead: refused while a lock is in force,
/// unless Windows booted into Safe Mode (the guaranteed teardown path).
pub fn check_uninstall(locked: bool, safe_mode: bool) -> (r: Result<(), String>)
    ensures
        r is Ok <==> (!locked || safe_mode),
        r matches Err(m) ==> m@ == uninstall_refusal(),
{
    if locked && !safe_mode {
        return Err(
            "A locked Sanctum session is active. It can't be uninstalled until the timer ends. To remove it sooner, reboot Windows into Safe Mode \u{2014} that friction is the point.".to_string(),
        );
    }
    Ok(())
}

/// The adapters point at the loopback resolver after `acts`, given where
/// they pointed before (`start`).
pub open spec fn repointed_after(start: bool, acts: Seq<Action>) -> bool
    decreases acts.len(),
{
    if acts.len() == 0 {
        start
    } else {
        let prev = repointed_after(start, acts.drop_last());
        if acts.last() == Action::ReassertLoopback {
            true
        } else if acts.last() == Action::RestoreAdapters {
            false
        } else {
            prev
        }
    }
}

/// Anti-brick: after a reconcile pass the adapters point at the local
/// resolver exactly when it answered; a pass that finds it silent leaves
/// them on their own DNS if they had been repointed.
pub proof fn lemma_reconcile_never_bricks(was_serving: bool, now_serving: bool)
    ensures
        repointed_after(was_serving, reconcile_spec(was_serving, now_serving)) == now_serving,
{
    reveal_with_fuel(repointed_after, 8);
}

/// What bring-up does, from whether the resolver answers: the floor goes up
/// first in either case; an answering resolver then takes over (the floor
/// comes down, the cache is flushed, the adapters are pointed at it and
/// egress is armed, in that order); a silent one never has an adapter
/// pointed at it, keeps the floor, and leaves the adapters on their own DNS
/// with egress disarmed.
pub proof fn lemma_bring_up_pass(serving: bool)
    ensures
        bring_up_spec(serving)[0] == Action::ApplyFloor,
        bring_up_spec(serving).last() == Action::MarkProtected,
        serving <==> bring_up_spec(serving).contains(Action::ReassertLoopback),
        serving <==> bring_up_spec(serving).contains(Action::RemoveFloor),
        serving <==> bring_up_spec(serving).contains(Action::ArmFirewall),
        serving ==> bring_up_spec(serving).contains(Action::FlushDns),
        !serving <==> bring_up_spec(serving).contains(Action::RestoreAdapters),
        serving ==> bring_up_spec(serving).take(4) == seq![
            Action::ApplyFloor,
            Action::RemoveFloor,
            Action::FlushDns,
            Action::ReassertLoopback,
        ],
{
    let r = bring_up_spec(serving);
    if serving {
        assert(r[1] == Action::RemoveFloor && r[2] == Action::FlushDns && r[3]
            == Action::ReassertLoopback && r[4] == Action::ArmFirewall);
        assert(r.take(4) =~= seq![
            Action::ApplyFloor,
            Action::RemoveFloor,
            Action::FlushDns,
            Action::ReassertLoopback,
        ]);
    } else {
        assert(r[1] == Action::RestoreAdapters);
    }
}

/// What every reconcile pass does, from what it finds: it always starts by
/// reloading the filter and ends by keeping the watchdog up and recording
/// the day; when the resolver answers it points the adapters back at it
/// (catching any adapter whose DNS was changed since, on every such pass,
/// not only the first) and leaves the floor alone; when the resolver is
/// silent it never points an adapter at it and puts the floor up.
pub proof fn lemma_reconcile_pass(was_serving: bool, now_serving: bool)
    ensures
        reconcile_spec(was_serving, now_serving)[0] == Action::Reload,
        reconcile_spec(was_serving, now_serving).contains(Action::EnsureWatchdog),
        reconcile_spec(was_serving, now_serving).last() == Action::MarkProtected,
        now_serving <==> reconcile_spec(was_serving, now_serving).contains(Action::ReassertLoopback),
        !now_serving <==> reconcile_spec(was_serving, now_serving).contains(Action::ApplyFloor),
        (was_serving && !now_serving) <==> reconcile_spec(was_serving, now_serving).contains(
            Action::RestoreAdapters,
        ),
{
    let r = reconcile_spec(was_serving, now_serving);
    let n = r.len() as int;
    assert(r[n - 2] == Action::EnsureWatchdog);
    assert forall|a: Action| r.contains(a) <==> exists|i: int| 0 <= i < n && r[i] == a by {}
    if now_serving {
        if was_serving {
            assert(r =~= seq![Action::Reload, Action::ReassertLoopback, Action::EnsureWatchdog, Action::MarkProtected]);
            assert(r[1] == Action::ReassertLoopback);
        } else {
            assert(r =~= seq![Action::Reload, Action::RemoveFloor, Action::FlushDns, Action::ArmFirewall, Action::ReassertLoopback, Action::EnsureWatchdog, Action::MarkProtected]);
            assert(r[4] == Action::ReassertLoopback);
        }
    } else {
        if was_serving {
            assert(r =~= seq![Action::Reload, Action::ApplyFloor, Action::RestoreAdapters, Action::DisarmFirewall, Action::EnsureWatchdog, Action::MarkProtected]);
            assert(r[1] == Action::ApplyFloor);
            assert(r[2] == Action::RestoreAdapters);
        } else {
            assert(r =~= seq![Action::Reload, Action::ApplyFloor, Action::EnsureWatchdog, Action::MarkProtected]);
            assert(r[1] == Action::ApplyFloor);
        }
    }
}

/// Anti-brick at bring-up: adapters end up repointed exactly when the
/// resolver answered.
pub proof fn lemma_bring_up_never_bricks(serving: bool, start: bool)
    ensures
        repointed_after(start, bring_up_spec(serving)) == serving,
{
    reveal_with_fuel(repointed_after, 8);
}

/// The prior DNS is journaled before any change: in the whole start (the
/// start-up actions, then the bring-up), the capture comes first, and no
/// adapter is repointed or restored, and no HOSTS or firewall change is made,
/// before it.
pub proof fn lemma_capture_precedes_changes(serving: bool)
    ensures
        (startup_spec() + bring_up_spec(serving))[0] == Action::CaptureJournal,
        !bring_up_spec(serving).contains(Action::CaptureJournal),
{
    let b = bring_up_spec(serving);
    assert((startup_spec() + b)[0] == startup_spec()[0]);
    if b.contains(Action::CaptureJournal) {
        let i = choose|i: int| 0 <= i < b.len() && b[i] == Action::CaptureJournal;
        assert(b[i] != Action::CaptureJournal);
    }
}

/// A stop while locked keeps every safeguard but the DNS repoint: the floor
/// and the firewall rules stay; every stop restores the adapters.
pub proof fn lemma_locked_stop_keeps_floor(locked: bool)
    ensures
        teardown_spec(locked).contains(Action::RestoreAdapters),
        locked ==> !teardown_spec(locked).contains(Action::RemoveFloor),
        locked ==> !teardown_spec(locked).contains(Action::RemoveFirewall),
{
    assert(teardown_spec(locked)[0] == Action::RestoreAdapters);
    if locked {
        assert(teardown_spec(locked) =~= seq![Action::RestoreAdapters]);
    }
}

// ---------------------------------------------------------------------------
// Watchdog
// ---------------------------------------------------------------------------

/// How many consecutive failed canaries mark a running service as hung.
pub const HUNG_AFTER: u32 = 3;

/// What one supervision poll found.
#[derive(Debug, Clone, Copy, PartialEq, Eq, Structural)]
pub enum Probe {
    /// The service was running; whether its DNS canary answered.
    Running { canary_ok: bool },
    /// The service was not running and has been started.
    Restarted,
    /// The service manager could not be queried.
    Unknown,
}

/// The failed-canary count after a poll, and whether to report the service
/// as possibly hung.
pub open spec fn watch_spec(fails: u32, p: Probe) -> (u32, bool) {
    match p {
        Probe::Running { canary_ok } => if canary_ok {
            (0, false)
        } else {
            let n = if fails == u32::MAX {
                u32::MAX
            } else {
                (fails + 1) as u32
            };
            (n, n >= HUNG_AFTER)
        },
        Probe::Restarted => (0, false),
        Probe::Unknown => (fails, false),
    }
}

/// One supervision step.
pub fn watch_step(fails: u32, p: Probe) -> (r: (u32, bool))
    ensures
        r == watch_spec(fails, p),
{
    match p {
        Probe::Running { canary_ok } => {
            if canary_ok {
                (0, false)
            } else {
                let n = fails.saturating_add(1);
                (n, n >= HUNG_AFTER)
            }
        },
        Probe::Restarted => (0, false),
        Probe::Unknown => (fails, false),
    }
}

} // verus!
