//! Partner-approved unblock, done without a server.
//!
//! Sanctum has no inbound channel, so approval is a RELAY: when the user asks
//! to unblock a site, Sanctum sends the partner a one-time code tied to that
//! exact request. The partner approves by reading the code back; the user
//! enters it and the site unblocks.
//!
//! Every request mints a fresh, high-entropy code, so nothing can be
//! memorized and reused. The code is stored only as an Argon2 hash, tries
//! are capped, and the request expires.

use vstd::prelude::*;
use password_hash::rand_core::{OsRng, RngCore};
use crate::error::Error;
use crate::password::{argon2_verifies, phc_parses, verify_password};
use crate::fmt::{decimal, push_decimal};
use crate::keyword::{to_lowercase, word_form};
use crate::sorting::str_views;
use crate::text::{chars_eq_str, chars_of, push_str, string_of, trim, trim_vec};

verus! {

/// Length of a one-time approval code.
pub const CODE_LEN: usize = 6;

/// Wrong-code attempts before the pending request is discarded (forcing a new
/// request, which re-notifies the partner). Caps online guessing.
pub const MAX_ATTEMPTS: u32 = 5;

/// How long a pending request stays valid, in minutes.
pub const REQUEST_TTL_MINS: i64 = 30;

/// Alphabet for codes: unambiguous when read aloud (no 0/O/1/I/L) and no
/// vowels (so codes never spell words). 27 symbols.
pub const ALPHABET: &'static str = "BCDFGHJKMNPQRSTVWXZ23456789";

/// What an approved request will do. Both weaken protection, which is
/// exactly why they route through the partner when approval is required.
#[derive(Clone, Copy, Debug, PartialEq, Eq, Structural)]
pub enum UnblockAction {
    /// Remove a domain the user previously added to their own block list.
    RemoveBlock,
    /// Add an allowlist exception overriding the built-in list.
    AddAllow,
}

/// A pending unblock request awaiting the partner's code. At most one is
/// active; a new request replaces any previous one.
#[derive(Clone, Debug)]
pub struct PendingUnblock {
    pub domain: String,
    pub action: UnblockAction,
    /// Argon2 PHC hash of the one-time code (never stored in the clear).
    pub code_hash: String,
    /// When the request was made, in seconds since the Unix epoch.
    pub created_at: i64,
    pub attempts: u32,
}

/// The result of checking a submitted code against a pending request.
#[derive(Clone, Copy, Debug, PartialEq, Eq, Structural)]
pub enum ApprovalOutcome {
    /// Code matched: the caller should apply the action and clear the request.
    Approved,
    /// Wrong code; `attempts_left` tries remain before the request is discarded.
    Wrong { attempts_left: u32 },
    /// The request is older than the TTL: discard it, ask for a new one.
    Expired,
    /// Too many wrong tries: discard it, ask for a new one.
    TooManyAttempts,
}

/// The code alphabet.
pub open spec fn alphabet() -> Seq<char> {
    ALPHABET@
}

/// The code character a random byte stands for.
pub open spec fn code_char(b: u8) -> char {
    alphabet()[(b as int) % 27]
}

/// The code a run of random bytes stands for, one character per byte.
pub open spec fn code_of(bytes: Seq<u8>) -> Seq<char> {
    Seq::new(bytes.len(), |i: int| code_char(bytes[i]))
}

/// `OsRng.try_fill_bytes` on a buffer of `CODE_LEN` bytes: `None` when the
/// operating system cannot supply randomness. The bytes come from the
/// operating system's generator, so only their number is promised.
#[verifier::external_body]
fn os_random_bytes() -> (r: Option<Vec<u8>>)
    ensures
        r matches Some(v) ==> v@.len() == CODE_LEN,
{
    let mut buf = [0u8; CODE_LEN];
    match OsRng.try_fill_bytes(&mut buf) {
        Ok(()) => Some(buf.to_vec()),
        Err(_) => None,
    }
}

/// The human-readable code for `bytes`: each byte picks an alphabet symbol.
pub fn code_from_bytes(bytes: &Vec<u8>) -> (r: String)
    ensures
        r@ == code_of(bytes@),
{
    proof {
        reveal_strlit("BCDFGHJKMNPQRSTVWXZ23456789");
    }
    let alpha = chars_of(ALPHABET);
    assert(alpha@.len() == 27);
    let mut out: Vec<char> = Vec::new();
    let mut i: usize = 0;
    while i < bytes.len()
        invariant
            i <= bytes.len(),
            alpha@ == alphabet(),
            alpha@.len() == 27,
            out@ == code_of(bytes@).take(i as int),
        decreases bytes.len() - i,
    {
        let k = (bytes[i] % 27) as usize;
        out.push(alpha[k]);
        assert(out@ =~= code_of(bytes@).take(i + 1));
        i += 1;
    }
    assert(code_of(bytes@).take(bytes.len() as int) =~= code_of(bytes@));
    string_of(&out)
}

/// Generate a fresh, human-readable one-time code from the OS CSPRNG;
/// `None` when the operating system cannot supply randomness.
pub fn generate_code() -> (r: Option<String>)
    ensures
        r matches Some(c) ==> c@.len() == CODE_LEN && forall|i: int|
            0 <= i < c@.len() ==> alphabet().contains(#[trigger] c@[i]),
{
    let bytes = match os_random_bytes() {
        Some(b) => b,
        None => return None,
    };
    let r = code_from_bytes(&bytes);
    proof {
        reveal_strlit("BCDFGHJKMNPQRSTVWXZ23456789");
        assert forall|i: int| 0 <= i < r@.len() implies alphabet().contains(#[trigger] r@[i]) by {
            let k = (bytes@[i] as int) % 27;
            assert(r@[i] == alphabet()[k]);
        }
    }
    Some(r)
}

/// The request is older than the TTL at `now`.
pub open spec fn expired_spec(created_at: i64, now: i64) -> bool {
    now - created_at > REQUEST_TTL_MINS * 60
}

/// The tries left after one more wrong code.
pub open spec fn attempts_left_spec(attempts: u32) -> u32 {
    if attempts + 1 >= MAX_ATTEMPTS {
        0
    } else {
        (MAX_ATTEMPTS - (attempts + 1)) as u32
    }
}

/// A pending request stays valid for half an hour: at most 1800 seconds
/// after it was made it is not expired, and any later it is.
pub proof fn lemma_request_lives_half_an_hour(created_at: i64, now: i64)
    ensures
        0 <= now - created_at <= 1800 ==> !expired_spec(created_at, now),
        now - created_at > 1800 ==> expired_spec(created_at, now),
{
}

/// Five tries: after the first wrong code four remain, one fewer after
/// each, none after the fifth.
pub proof fn lemma_five_tries(attempts: u32)
    ensures
        attempts < 5 ==> attempts_left_spec(attempts) == 4 - attempts,
        attempts >= 4 ==> attempts_left_spec(attempts) == 0,
        MAX_ATTEMPTS == 5,
{
}

impl PendingUnblock {
    pub fn is_expired(&self, now: i64) -> (r: bool)
        ensures
            r == expired_spec(self.created_at, now),
    {
        (now as i128) - (self.created_at as i128) > (REQUEST_TTL_MINS as i128) * 60
    }
}

/// Check a submitted code against a pending request. The caller persists the
/// incremented attempt count, applies the action, or clears the request
/// based on the outcome. Surrounding whitespace of the submitted code is
/// ignored; nothing else is. Fails only when the stored hash is malformed.
pub fn check_code(pending: &PendingUnblock, submitted: &str, now: i64) -> (r: Result<
    ApprovalOutcome,
    Error,
>)
    ensures
        0 <= now - pending.created_at <= 1800 && pending.attempts < 5 && phc_parses(
            pending.code_hash@,
        ) && argon2_verifies(trim(submitted@), pending.code_hash@) ==> r == Ok::<
            ApprovalOutcome,
            Error,
        >(ApprovalOutcome::Approved),
        expired_spec(pending.created_at, now) ==> r == Ok::<ApprovalOutcome, Error>(
            ApprovalOutcome::Expired,
        ),
        now - pending.created_at > 1800 ==> r == Ok::<ApprovalOutcome, Error>(
            ApprovalOutcome::Expired,
        ),
        0 <= now - pending.created_at <= 1800 && pending.attempts >= 5 ==> r == Ok::<
            ApprovalOutcome,
            Error,
        >(ApprovalOutcome::TooManyAttempts),
        !expired_spec(pending.created_at, now) && pending.attempts >= MAX_ATTEMPTS ==> r == Ok::<
            ApprovalOutcome,
            Error,
        >(ApprovalOutcome::TooManyAttempts),
        !expired_spec(pending.created_at, now) && pending.attempts < MAX_ATTEMPTS ==> {
            &&& r is Ok <==> phc_parses(pending.code_hash@)
            &&& r matches Err(e) ==> e is Password
            &&& r matches Ok(o) ==> o == if argon2_verifies(
                trim(submitted@),
                pending.code_hash@,
            ) {
                ApprovalOutcome::Approved
            } else {
                ApprovalOutcome::Wrong { attempts_left: attempts_left_spec(pending.attempts) }
            }
        },
{
    if pending.is_expired(now) {
        return Ok(ApprovalOutcome::Expired);
    }
    if pending.attempts >= MAX_ATTEMPTS {
        return Ok(ApprovalOutcome::TooManyAttempts);
    }
    let code = string_of(&trim_vec(&chars_of(submitted)));
    match verify_password(code.as_str(), pending.code_hash.as_str()) {
        Ok(true) => Ok(ApprovalOutcome::Approved),
        Ok(false) => {
            let attempts_left = MAX_ATTEMPTS.saturating_sub(pending.attempts + 1);
            Ok(ApprovalOutcome::Wrong { attempts_left })
        },
        Err(e) => Err(e),
    }
}

/// The site an unblock request names, as stored: trimmed and lowercased.
/// Removing the user's own block when they added it; otherwise an allowlist
/// exception over the built-in list. `None` for a blank request.
pub open spec fn unblock_plan_spec(domain: Seq<char>, custom: Seq<Seq<char>>) -> Option<
    (Seq<char>, UnblockAction),
> {
    let d = word_form(domain);
    if d.len() == 0 {
        None
    } else if custom.contains(d) {
        Some((d, UnblockAction::RemoveBlock))
    } else {
        Some((d, UnblockAction::AddAllow))
    }
}

/// Plan an unblock request for `domain`, given the user's own blocked domains.
pub fn unblock_plan(domain: &str, custom: &Vec<String>) -> (r: Option<(String, UnblockAction)>)
    ensures
        r is None <==> unblock_plan_spec(domain@, str_views(custom@)) is None,
        r matches Some(p) ==> unblock_plan_spec(domain@, str_views(custom@)) == Some(
            (p.0@, p.1),
        ),
{
    let d = to_lowercase(string_of(&trim_vec(&chars_of(domain))).as_str());
    let dv = chars_of(d.as_str());
    assert(d@ == word_form(domain@));
    if dv.len() == 0 {
        return None;
    }
    let mut i: usize = 0;
    while i < custom.len()
        invariant
            i <= custom.len(),
            dv@ == d@,
            d@ == word_form(domain@),
            d@.len() > 0,
            forall|j: int| 0 <= j < i ==> custom@[j]@ != d@,
        decreases custom.len() - i,
    {
        if chars_eq_str(&dv, custom[i].as_str()) {
            assert(str_views(custom@)[i as int] == d@);
            assert(str_views(custom@).contains(d@));
            return Some((d, UnblockAction::RemoveBlock));
        }
        i += 1;
    }
    assert(!str_views(custom@).contains(d@)) by {
        if str_views(custom@).contains(d@) {
            let k = choose|k: int| 0 <= k < str_views(custom@).len() && str_views(custom@)[k]
                == d@;
            assert(custom@[k]@ == d@);
        }
    }
    Some((d, UnblockAction::AddAllow))
}

/// What to do after checking a partner's code.
#[derive(Clone, Debug, PartialEq, Eq)]
pub enum Followup {
    /// Carry out the unblock and clear the request.
    Apply,
    /// Count the wrong try, keep the request, and tell the user.
    Retry(String),
    /// Drop the request and tell the user why.
    Discard(String),
}

/// A follow-up as a value.
pub enum FollowupView {
    Apply,
    Retry(Seq<char>),
    Discard(Seq<char>),
}

pub open spec fn followup_view(f: Followup) -> FollowupView {
    match f {
        Followup::Apply => FollowupView::Apply,
        Followup::Retry(m) => FollowupView::Retry(m@),
        Followup::Discard(m) => FollowupView::Discard(m@),
    }
}

/// The follow-up to each outcome, with the words the user is shown.
pub open spec fn followup_spec(o: ApprovalOutcome) -> FollowupView {
    match o {
        ApprovalOutcome::Approved => FollowupView::Apply,
        ApprovalOutcome::Wrong { attempts_left } => if attempts_left == 0 {
            FollowupView::Discard("That code was wrong too many times. Start a new request."@)
        } else {
            FollowupView::Retry(
                "That code didn't match. "@ + decimal(attempts_left as nat) + " tries left."@,
            )
        },
        ApprovalOutcome::Expired => FollowupView::Discard(
            "That request expired. Start a new one."@,
        ),
        ApprovalOutcome::TooManyAttempts => FollowupView::Discard(
            "Too many tries. Start a new request."@,
        ),
    }
}

/// Decide what follows an approval outcome.
pub fn followup(o: ApprovalOutcome) -> (r: Followup)
    ensures
        followup_view(r) == followup_spec(o),
{
    match o {
        ApprovalOutcome::Approved => Followup::Apply,
        ApprovalOutcome::Wrong { attempts_left } => {
            if attempts_left == 0 {
                proof {
                    reveal_strlit("That code was wrong too many times. Start a new request.");
                }
                Followup::Discard(
                    "That code was wrong too many times. Start a new request.".to_string(),
                )
            } else {
                let mut v: Vec<char> = Vec::new();
                push_str(&mut v, "That code didn't match. ");
                push_decimal(&mut v, attempts_left as u64);
                push_str(&mut v, " tries left.");
                proof {
                    reveal_strlit("That code didn't match. ");
                    reveal_strlit(" tries left.");
                    assert(v@ =~= "That code didn't match. "@ + decimal(attempts_left as nat)
                        + " tries left."@);
                }
                Followup::Retry(string_of(&v))
            }
        },
        ApprovalOutcome::Expired => {
            proof {
                reveal_strlit("That request expired. Start a new one.");
            }
            Followup::Discard("That request expired. Start a new one.".to_string())
        },
        ApprovalOutcome::TooManyAttempts => {
            proof {
                reveal_strlit("Too many tries. Start a new request.");
            }
            Followup::Discard("Too many tries. Start a new request.".to_string())
        },
    }
}

} // verus!
