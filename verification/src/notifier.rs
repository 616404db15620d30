//! Honest accountability notifier: the requests it sends.
//!
//! Sanctum sends short, human-readable TEXT signals ("protection was turned
//! off at ...") to a channel the user owns (Discord / Slack / ntfy / any
//! HTTPS endpoint, or an SMS through the user's own Twilio account). It never
//! sends browsing history, visited domains, the block list, or any content.
//! This module builds each request; the service posts it.

use vstd::prelude::*;
use crate::text::{
    ascii_lower, ascii_lower_vec, chars_of, contains_seq, contains_seq_exec, push_str, slice_chars,
    starts_with, starts_with_exec, string_of, trim, trim_vec, utf8_bytes,
};

verus! {

/// An HTTP POST to send.
#[derive(Debug, Clone)]
pub struct HttpPost {
    pub url: String,
    /// Header (name, value) pairs, in order.
    pub headers: Vec<(String, String)>,
    pub body: String,
}

// ---------------------------------------------------------------------------
// Base64
// ---------------------------------------------------------------------------

pub const B64_TABLE: &'static str = "ABCDEFGHIJKLMNOPQRSTUVWXYZabcdefghijklmnopqrstuvwxyz0123456789+/";

pub open spec fn b64_sym(i: int) -> char {
    B64_TABLE@[i]
}

/// The four output characters for a group of one to three input bytes,
/// padded with `=`.
pub open spec fn b64_group(b: Seq<u8>) -> Seq<char> {
    let n0 = b[0] as int;
    let n1 = if b.len() > 1 {
        b[1] as int
    } else {
        0
    };
    let n2 = if b.len() > 2 {
        b[2] as int
    } else {
        0
    };
    seq![
        b64_sym(n0 / 4),
        b64_sym((n0 % 4) * 16 + n1 / 16),
        if b.len() > 1 {
            b64_sym((n1 % 16) * 4 + n2 / 64)
        } else {
            '='
        },
        if b.len() > 2 {
            b64_sym(n2 % 64)
        } else {
            '='
        },
    ]
}

/// Standard base64 of a byte sequence, three bytes at a time.
pub open spec fn b64_spec(b: Seq<u8>) -> Seq<char>
    decreases b.len(),
{
    if b.len() == 0 {
        Seq::empty()
    } else if b.len() <= 3 {
        b64_group(b)
    } else {
        b64_group(b.take(3)) + b64_spec(b.skip(3))
    }
}

/// Standard base64 of the UTF-8 bytes of `input` (for the HTTP Basic auth
/// header).
pub fn base64(input: &str) -> (r: String)
    ensures
        r@ == b64_spec(utf8_bytes(input@)),
{
    proof {
        reveal_strlit("ABCDEFGHIJKLMNOPQRSTUVWXYZabcdefghijklmnopqrstuvwxyz0123456789+/");
    }
    let t = chars_of(B64_TABLE);
    assert(t@.len() == 64);
    let b = input.as_bytes();
    let ghost bs = b@;
    let mut out: Vec<char> = Vec::new();
    let mut i: usize = 0;
    assert(bs.skip(0) =~= bs);
    while i < b.len()
        invariant
            i <= b.len(),
            bs == b@,
            t@ == B64_TABLE@,
            t@.len() == 64,
            out@ + b64_spec(bs.skip(i as int)) == b64_spec(bs),
        decreases b.len() - i,
    {
        let rest = b.len() - i;
        let n0 = b[i] as usize;
        let n1 = if rest > 1 {
            b[i + 1] as usize
        } else {
            0
        };
        let n2 = if rest > 2 {
            b[i + 2] as usize
        } else {
            0
        };
        let ghost g = if rest <= 3 {
            bs.skip(i as int)
        } else {
            bs.skip(i as int).take(3)
        };
        let ghost before = out@;
        out.push(t[n0 / 4]);
        out.push(t[(n0 % 4) * 16 + n1 / 16]);
        if rest > 1 {
            out.push(t[(n1 % 16) * 4 + n2 / 64]);
        } else {
            out.push('=');
        }
        if rest > 2 {
            out.push(t[n2 % 64]);
        } else {
            out.push('=');
        }
        proof {
            assert(g[0] == bs[i as int]);
            if rest > 1 {
                assert(g[1] == bs[i + 1]);
            }
            if rest > 2 {
                assert(g[2] == bs[i + 2]);
            }
            assert(out@ =~= before + b64_group(g));
            if rest > 3 {
                assert(bs.skip(i as int).skip(3) =~= bs.skip(i + 3));
            } else {
                assert(bs.skip(i + rest) =~= Seq::<u8>::empty());
            }
        }
        if rest > 3 {
            i += 3;
        } else {
            i = b.len();
        }
    }
    assert(bs.skip(i as int) =~= Seq::<u8>::empty());
    string_of(&out)
}

// ---------------------------------------------------------------------------
// Form values
// ---------------------------------------------------------------------------

pub const HEX_UPPER: &'static str = "0123456789ABCDEF";

/// RFC 3986 unreserved: letters, digits, `-`, `_`, `.`, `~`.
pub open spec fn unreserved(b: u8) -> bool {
    (65 <= b <= 90) || (97 <= b <= 122) || (48 <= b <= 57) || b == 45 || b == 95 || b == 46 || b
        == 126
}

/// One byte, percent-encoded unless unreserved.
pub open spec fn pct_byte(b: u8) -> Seq<char> {
    if unreserved(b) {
        seq![b as char]
    } else {
        seq!['%', HEX_UPPER@[(b as int) / 16], HEX_UPPER@[(b as int) % 16]]
    }
}

/// The percent-encoding of a byte sequence.
pub open spec fn pct_spec(b: Seq<u8>) -> Seq<char>
    decreases b.len(),
{
    if b.len() == 0 {
        Seq::empty()
    } else {
        pct_spec(b.drop_last()) + pct_byte(b.last())
    }
}

/// Percent-encode a form value (application/x-www-form-urlencoded), encoding
/// everything but the RFC 3986 unreserved set.
pub fn pct(s: &str) -> (r: String)
    ensures
        r@ == pct_spec(utf8_bytes(s@)),
{
    proof {
        reveal_strlit("0123456789ABCDEF");
    }
    let hex = chars_of(HEX_UPPER);
    assert(hex@.len() == 16);
    let b = s.as_bytes();
    let ghost bs = b@;
    let mut out: Vec<char> = Vec::new();
    let mut i: usize = 0;
    while i < b.len()
        invariant
            i <= b.len(),
            bs == b@,
            hex@ == HEX_UPPER@,
            hex@.len() == 16,
            out@ == pct_spec(bs.take(i as int)),
        decreases b.len() - i,
    {
        let c = b[i];
        let ghost before = out@;
        if (c >= 65 && c <= 90) || (c >= 97 && c <= 122) || (c >= 48 && c <= 57) || c == 45 || c
            == 95 || c == 46 || c == 126 {
            out.push(c as char);
        } else {
            out.push('%');
            out.push(hex[(c / 16) as usize]);
            out.push(hex[(c % 16) as usize]);
        }
        proof {
            assert(bs.take(i + 1).drop_last() =~= bs.take(i as int));
            assert(bs.take(i + 1).last() == c);
            assert(out@ =~= before + pct_byte(c));
        }
        i += 1;
    }
    assert(bs.take(b.len() as int) =~= bs);
    string_of(&out)
}

// ---------------------------------------------------------------------------
// JSON strings
// ---------------------------------------------------------------------------

pub const HEX_LOWER: &'static str = "0123456789abcdef";

/// One character inside a JSON string literal.
pub open spec fn json_char(c: char) -> Seq<char> {
    if c == '"' {
        seq!['\\', '"']
    } else if c == '\\' {
        seq!['\\', '\\']
    } else if c == '\n' {
        seq!['\\', 'n']
    } else if c == '\r' {
        seq!['\\', 'r']
    } else if c == '\t' {
        seq!['\\', 't']
    } else if (c as u32) < 0x20 {
        seq![
            '\\',
            'u',
            '0',
            '0',
            HEX_LOWER@[(c as u32 as int) / 16],
            HEX_LOWER@[(c as u32 as int) % 16],
        ]
    } else {
        seq![c]
    }
}

/// The escaped characters of a string.
pub open spec fn json_body(s: Seq<char>) -> Seq<char>
    decreases s.len(),
{
    if s.len() == 0 {
        Seq::empty()
    } else {
        json_body(s.drop_last()) + json_char(s.last())
    }
}

/// A JSON string literal (value in quotes).
pub open spec fn json_spec(s: Seq<char>) -> Seq<char> {
    seq!['"'] + json_body(s) + seq!['"']
}

/// Minimal JSON string encoder (value in quotes), so no structured data can
/// leak into a notification.
pub fn json_string(s: &str) -> (r: String)
    ensures
        r@ == json_spec(s@),
{
    proof {
        reveal_strlit("0123456789abcdef");
    }
    let hex = chars_of(HEX_LOWER);
    assert(hex@.len() == 16);
    let v = chars_of(s);
    let mut out: Vec<char> = Vec::new();
    out.push('"');
    let mut i: usize = 0;
    while i < v.len()
        invariant
            i <= v.len(),
            v@ == s@,
            hex@ == HEX_LOWER@,
            hex@.len() == 16,
            out@ == seq!['"'] + json_body(v@.take(i as int)),
        decreases v.len() - i,
    {
        let c = v[i];
        let ghost before = out@;
        if c == '"' {
            out.push('\\');
            out.push('"');
        } else if c == '\\' {
            out.push('\\');
            out.push('\\');
        } else if c == '\n' {
            out.push('\\');
            out.push('n');
        } else if c == '\r' {
            out.push('\\');
            out.push('r');
        } else if c == '\t' {
            out.push('\\');
            out.push('t');
        } else if (c as u32) < 0x20 {
            let u = c as u32;
            out.push('\\');
            out.push('u');
            out.push('0');
            out.push('0');
            out.push(hex[(u / 16) as usize]);
            out.push(hex[(u % 16) as usize]);
        } else {
            out.push(c);
        }
        proof {
            assert(v@.take(i + 1).drop_last() =~= v@.take(i as int));
            assert(v@.take(i + 1).last() == c);
            assert(out@ =~= before + json_char(c));
        }
        i += 1;
    }
    assert(v@.take(v.len() as int) =~= v@);
    out.push('"');
    string_of(&out)
}

// ---------------------------------------------------------------------------
// Webhook bodies
// ---------------------------------------------------------------------------

/// The body and content type for the provider the webhook URL names.
/// Discord and Slack take a JSON object with a known field; ntfy takes a
/// plain-text body; everything else gets a small generic JSON object with a
/// `text` field.
pub open spec fn body_spec(url: Seq<char>, text: Seq<char>) -> (Seq<char>, Seq<char>) {
    let lower = ascii_lower(url);
    if contains_seq(lower, "discord.com"@) || contains_seq(lower, "discordapp.com"@) {
        ("{\"content\":"@ + json_spec(text) + "}"@, "application/json"@)
    } else if contains_seq(lower, "hooks.slack.com"@) {
        ("{\"text\":"@ + json_spec(text) + "}"@, "application/json"@)
    } else if contains_seq(lower, "ntfy.sh"@) || contains_seq(lower, "/ntfy"@) {
        (text, "text/plain; charset=utf-8"@)
    } else {
        ("{\"text\":"@ + json_spec(text) + ",\"source\":\"sanctum\"}"@, "application/json"@)
    }
}

/// Each provider gets the payload it reads: a Discord webhook a JSON
/// `content` field, a Slack webhook a JSON `text` field, an ntfy topic (on
/// ntfy.sh or a self-hosted server under a `/ntfy` path) the text itself as
/// plain text, and any other endpoint a JSON object with `text` and
/// `source`. Provider names are matched case-insensitively anywhere in the
/// URL; Discord wins over Slack, and both over ntfy.
pub proof fn lemma_body_per_provider(url: Seq<char>, text: Seq<char>)
    ensures
        ({
            let lower = ascii_lower(url);
            let discord = contains_seq(lower, "discord.com"@) || contains_seq(
                lower,
                "discordapp.com"@,
            );
            let slack = contains_seq(lower, "hooks.slack.com"@);
            let ntfy = contains_seq(lower, "ntfy.sh"@) || contains_seq(lower, "/ntfy"@);
            &&& discord ==> body_spec(url, text) == (
                "{\"content\":"@ + json_spec(text) + "}"@,
                "application/json"@,
            )
            &&& !discord && slack ==> body_spec(url, text) == (
                "{\"text\":"@ + json_spec(text) + "}"@,
                "application/json"@,
            )
            &&& !discord && !slack && ntfy ==> body_spec(url, text) == (
                text,
                "text/plain; charset=utf-8"@,
            )
            &&& !discord && !slack && !ntfy ==> body_spec(url, text) == (
                "{\"text\":"@ + json_spec(text) + ",\"source\":\"sanctum\"}"@,
                "application/json"@,
            )
        }),
{
}

/// A self-hosted ntfy server: a URL with `/ntfy` in it (and no Discord or
/// Slack host) gets the plain-text body, whatever its host.
pub proof fn lemma_self_hosted_ntfy_is_plain(url: Seq<char>, text: Seq<char>)
    requires
        contains_seq(ascii_lower(url), "/ntfy"@),
        !contains_seq(ascii_lower(url), "discord.com"@),
        !contains_seq(ascii_lower(url), "discordapp.com"@),
        !contains_seq(ascii_lower(url), "hooks.slack.com"@),
    ensures
        body_spec(url, text) == (text, "text/plain; charset=utf-8"@),
{
}

fn contains_str(hay: &Vec<char>, needle: &str) -> (r: bool)
    ensures
        r == contains_seq(hay@, needle@),
{
    contains_seq_exec(hay, &chars_of(needle))
}

fn concat3(a: &str, b: &str, c: &str) -> (r: String)
    ensures
        r@ == a@ + b@ + c@,
{
    let mut v: Vec<char> = Vec::new();
    push_str(&mut v, a);
    push_str(&mut v, b);
    push_str(&mut v, c);
    string_of(&v)
}

/// Format the payload for the detected provider: (body, content type).
pub fn build_body(url: &str, text: &str) -> (r: (String, &'static str))
    ensures
        (r.0@, r.1@) == body_spec(url@, text@),
{
    let lower = ascii_lower_vec(&chars_of(url));
    if contains_str(&lower, "discord.com") || contains_str(&lower, "discordapp.com") {
        let j = json_string(text);
        (concat3("{\"content\":", j.as_str(), "}"), "application/json")
    } else if contains_str(&lower, "hooks.slack.com") {
        let j = json_string(text);
        (concat3("{\"text\":", j.as_str(), "}"), "application/json")
    } else if contains_str(&lower, "ntfy.sh") || contains_str(&lower, "/ntfy") {
        (text.to_string(), "text/plain; charset=utf-8")
    } else {
        let j = json_string(text);
        (concat3("{\"text\":", j.as_str(), ",\"source\":\"sanctum\"}"), "application/json")
    }
}

// ---------------------------------------------------------------------------
// Requests
// ---------------------------------------------------------------------------

/// A request as (url, headers, body) values.
pub open spec fn post_view(p: HttpPost) -> (Seq<char>, Seq<(Seq<char>, Seq<char>)>, Seq<char>) {
    (p.url@, p.headers@.map_values(|h: (String, String)| (h.0@, h.1@)), p.body@)
}

/// The webhook POST carrying `text`: none when no webhook is set.
pub open spec fn webhook_spec(webhook: Seq<char>, text: Seq<char>) -> Option<
    (Seq<char>, Seq<(Seq<char>, Seq<char>)>, Seq<char>),
> {
    let w = trim(webhook);
    if w.len() == 0 {
        None
    } else {
        Some(
            (
                w,
                seq![("Content-Type"@, body_spec(w, text).1), ("User-Agent"@, "Sanctum"@)],
                body_spec(w, text).0,
            ),
        )
    }
}

/// The POST that delivers `text` to the user's `webhook`, if one is set.
pub fn webhook_request(webhook: &str, text: &str) -> (r: Option<HttpPost>)
    ensures
        match webhook_spec(webhook@, text@) {
            Some(v) => r matches Some(p) && post_view(p) == v,
            None => r is None,
        },
{
    let w = string_of(&trim_vec(&chars_of(webhook)));
    if w.as_str().is_empty() {
        return None;
    }
    let (body, ctype) = build_body(w.as_str(), text);
    let mut headers: Vec<(String, String)> = Vec::new();
    headers.push(("Content-Type".to_string(), ctype.to_string()));
    headers.push(("User-Agent".to_string(), "Sanctum".to_string()));
    let p = HttpPost { url: w, headers, body };
    assert(post_view(p).1 =~= seq![("Content-Type"@, ctype@), ("User-Agent"@, "Sanctum"@)]);
    Some(p)
}

/// The Twilio SMS POST carrying `text`, for already-trimmed credentials:
/// none unless all four are set.
pub open spec fn sms_spec(
    sid: Seq<char>,
    token: Seq<char>,
    from: Seq<char>,
    to: Seq<char>,
    text: Seq<char>,
) -> Option<(Seq<char>, Seq<(Seq<char>, Seq<char>)>, Seq<char>)> {
    if sid.len() == 0 || token.len() == 0 || from.len() == 0 || to.len() == 0 {
        None
    } else {
        Some(
            (
                "https://api.twilio.com/2010-04-01/Accounts/"@ + sid + "/Messages.json"@,
                seq![
                    ("Authorization"@, "Basic "@ + b64_spec(utf8_bytes(sid + ":"@ + token))),
                    ("Content-Type"@, "application/x-www-form-urlencoded"@),
                    ("User-Agent"@, "Sanctum"@),
                ],
                "From="@ + pct_spec(utf8_bytes(from)) + "&To="@ + pct_spec(
                    utf8_bytes(to),
                ) + "&Body="@ + pct_spec(utf8_bytes(text)),
            ),
        )
    }
}

/// The POST that sends `text` as an SMS through the user's own Twilio
/// account, if SMS accountability is fully configured. Credentials are
/// trimmed first.
pub fn sms_request(sid: &str, token: &str, from: &str, to: &str, text: &str) -> (r: Option<
    HttpPost,
>)
    ensures
        match sms_spec(trim(sid@), trim(token@), trim(from@), trim(to@), text@) {
            Some(v) => r matches Some(p) && post_view(p) == v,
            None => r is None,
        },
{
    let s = string_of(&trim_vec(&chars_of(sid)));
    let t = string_of(&trim_vec(&chars_of(token)));
    let f = string_of(&trim_vec(&chars_of(from)));
    let o = string_of(&trim_vec(&chars_of(to)));
    if s.as_str().is_empty() || t.as_str().is_empty() || f.as_str().is_empty() || o.as_str().is_empty() {
        return None;
    }
    let url = concat3("https://api.twilio.com/2010-04-01/Accounts/", s.as_str(), "/Messages.json");
    let cred = concat3(s.as_str(), ":", t.as_str());
    let auth = base64(cred.as_str());
    let mut basic: Vec<char> = Vec::new();
    push_str(&mut basic, "Basic ");
    push_str(&mut basic, auth.as_str());
    let mut body: Vec<char> = Vec::new();
    push_str(&mut body, "From=");
    push_str(&mut body, pct(f.as_str()).as_str());
    push_str(&mut body, "&To=");
    push_str(&mut body, pct(o.as_str()).as_str());
    push_str(&mut body, "&Body=");
    push_str(&mut body, pct(text).as_str());
    let mut headers: Vec<(String, String)> = Vec::new();
    headers.push(("Authorization".to_string(), string_of(&basic)));
    headers.push(("Content-Type".to_string(), "application/x-www-form-urlencoded".to_string()));
    headers.push(("User-Agent".to_string(), "Sanctum".to_string()));
    let p = HttpPost { url, headers, body: string_of(&body) };
    assert(post_view(p).1 =~= seq![
        ("Authorization"@, "Basic "@ + b64_spec(utf8_bytes(s@ + ":"@ + t@))),
        ("Content-Type"@, "application/x-www-form-urlencoded"@),
        ("User-Agent"@, "Sanctum"@),
    ]);
    assert(post_view(p).2 =~= "From="@ + pct_spec(utf8_bytes(f@)) + "&To="@ + pct_spec(
        utf8_bytes(o@),
    ) + "&Body="@ + pct_spec(utf8_bytes(text@)));
    Some(p)
}

/// SMS accountability is configured when all four of its settings are
/// filled in (surrounding whitespace aside).
pub open spec fn sms_configured_spec(sid: Seq<char>, token: Seq<char>, from: Seq<char>, to: Seq<char>) -> bool {
    trim(sid).len() > 0 && trim(token).len() > 0 && trim(from).len() > 0 && trim(to).len() > 0
}

/// Whether the SMS settings are complete.
pub fn sms_configured(sid: &str, token: &str, from: &str, to: &str) -> (r: bool)
    ensures
        r == sms_configured_spec(sid@, token@, from@, to@),
{
    trim_vec(&chars_of(sid)).len() > 0 && trim_vec(&chars_of(token)).len() > 0
        && trim_vec(&chars_of(from)).len() > 0 && trim_vec(&chars_of(to)).len() > 0
}

/// Where ntfy.sh topics live.
pub const NTFY_PREFIX: &'static str = "https://ntfy.sh/";

/// The ntfy.sh topic a (trimmed) webhook posts to, so the UI can show the
/// partner's QR again; `None` for another webhook or none.
pub open spec fn ntfy_topic_spec(webhook: Seq<char>) -> Option<Seq<char>> {
    let t = trim(webhook);
    let p = NTFY_PREFIX@;
    if starts_with(t, p) && t.len() > p.len() {
        Some(t.subrange(p.len() as int, t.len() as int))
    } else {
        None
    }
}

/// The ntfy.sh topic of a webhook, if it is one.
pub fn ntfy_topic(webhook: &str) -> (r: Option<String>)
    ensures
        r is None <==> ntfy_topic_spec(webhook@) is None,
        r matches Some(t) ==> ntfy_topic_spec(webhook@) == Some(t@),
{
    let t = trim_vec(&chars_of(webhook));
    let p = chars_of(NTFY_PREFIX);
    if starts_with_exec(&t, &p) && t.len() > p.len() {
        Some(string_of(&slice_chars(&t, p.len(), t.len())))
    } else {
        None
    }
}

// ---------------------------------------------------------------------------
// What the partner is told about the channel itself
// ---------------------------------------------------------------------------

/// The note for the current partner when the webhook is replaced or
/// removed: none when there was no partner.
pub fn webhook_change_note(had: bool, removing: bool) -> (r: Option<String>)
    ensures
        r is Some <==> had,
        r matches Some(m) ==> m@ == if removing {
            "The accountability partner was removed from Sanctum."@
        } else {
            "The accountability channel was changed to a different one."@
        },
{
    if !had {
        None
    } else if removing {
        Some("The accountability partner was removed from Sanctum.".to_string())
    } else {
        Some("The accountability channel was changed to a different one.".to_string())
    }
}

/// The note for the current partner when the SMS details are replaced or
/// removed: none when SMS was not set up.
pub fn sms_change_note(had: bool, removing: bool) -> (r: Option<String>)
    ensures
        r is Some <==> had,
        r matches Some(m) ==> m@ == if removing {
            "SMS accountability was removed."@
        } else {
            "The SMS accountability details were changed."@
        },
{
    if !had {
        None
    } else if removing {
        Some("SMS accountability was removed.".to_string())
    } else {
        Some("The SMS accountability details were changed.".to_string())
    }
}

/// Why a test message cannot be sent: there is no channel to send it on.
pub fn test_refusal(webhook_set: bool, sms_set: bool) -> (r: Option<String>)
    ensures
        r is None <==> (webhook_set || sms_set),
        r matches Some(m) ==> m@ == "No accountability partner is set."@,
{
    if webhook_set || sms_set {
        None
    } else {
        Some("No accountability partner is set.".to_string())
    }
}

} // verus!
