use sanctum::blocklist::Blocklist;
use sanctum::browser_apply::{apply_plan, RegSnapshot, SeenValue};
use std::collections::{BTreeMap, BTreeSet};
use sanctum::browser_policy::{
    desired_matches, join_key, journal_view_ok, key_prefixes, note_created, note_value,
    removal_order, targets, Desired, Journal, PriorValue, REG_DWORD, REG_SZ,
};
use sanctum::dns::{
    query_host, sink_answers, tcp_frame, tcp_len, Decision, FilterState, Plan, Record, SinkKind,
    RCODE_NO_ERROR, RCODE_NX_DOMAIN, TYPE_A, TYPE_AAAA,
};
use hickory_proto::op::{Message, MessageType, OpCode, Query, ResponseCode};
use hickory_proto::rr::{DNSClass, Name, RData, RecordType};
use sanctum::packet::{answer_packet, respond, DnsQuery, Question, Step};
use sanctum::firewall::{add_rule_commands, delete_rule_commands, doh_ips, join_with_commas};
use sanctum::ipc::{encode_frame, frame_len, MAX_FRAME};
use sanctum::config::AppConfig;
use sanctum::engine::{build_canary_query, canary_answered, filter_state, EnforcementEngine, Ip};
use sanctum::heartbeat::{due, interval, message};
use sanctum::hostsfile::{expand_env, hosts_path};
use sanctum::intervention::{group_key, monitor_span, Detector, InterventionCenter};
use sanctum::lists::{curated_blocklist, floor_domains, starter_blocklist, FLOOR_SIZE};
use sanctum::netcfg::{
    batch_step, capture_restore, netsh_set_dhcp, netsh_set_static, parse_nameserver, restore,
    set_loopback, Adapter, AdapterRestore, BatchStep, IpFamily,
};
use sanctum::notifier::{
    base64, build_body, json_string, ntfy_topic, pct, sms_change_note, sms_configured, sms_request,
    test_refusal, webhook_change_note, webhook_request,
};
use sanctum::safesearch::SafeSearchMap;
use sanctum::stats::current_streak;

// ---------------------------------------------------------------------------
// intervention
// ---------------------------------------------------------------------------

#[test]
fn group_key_folds_subdomains() {
    assert_eq!(group_key("www.pornhub.com"), "pornhub.com");
    assert_eq!(group_key("cdn.a.b.pornhub.com"), "pornhub.com");
    assert_eq!(group_key("pornhub.com."), "pornhub.com");
    assert_eq!(group_key("localhost"), "localhost");
}

#[test]
fn single_prefetch_does_not_trigger() {
    let mut d = Detector::new();
    assert!(!d.record(0, "bad.com"));
    assert!(!d.record(100, "bad.com")); // two isn't enough
}

#[test]
fn three_hits_same_domain_within_window_trigger() {
    let mut d = Detector::new();
    assert!(!d.record(0, "www.bad.com"));
    assert!(!d.record(1_000, "bad.com"));
    assert!(d.record(2_000, "cdn.bad.com")); // 3rd of the same registrable domain
}

#[test]
fn two_distinct_domains_within_window_trigger() {
    let mut d = Detector::new();
    assert!(!d.record(0, "bad.com"));
    assert!(d.record(500, "evil.com")); // 2 distinct blocked domains
}

#[test]
fn hits_outside_window_do_not_accumulate() {
    let mut d = Detector::new();
    assert!(!d.record(0, "bad.com"));
    assert!(!d.record(1_000, "bad.com"));
    // 3rd arrives after the first two aged out (>10s window).
    assert!(!d.record(12_000, "bad.com"));
}

#[test]
fn cooldown_blocks_a_second_trigger() {
    let mut d = Detector::new();
    assert!(!d.record(0, "bad.com"));
    assert!(d.record(1_000, "evil.com")); // first trigger at t=1s
    // A fresh burst well within the 3-minute cooldown must not re-trigger.
    assert!(!d.record(20_000, "bad.com"));
    assert!(!d.record(20_500, "evil.com"));
    assert!(!d.record(21_000, "worse.com"));
    // After the cooldown lapses, it can trigger again.
    assert!(!d.record(190_000, "bad.com"));
    assert!(d.record(190_500, "evil.com"));
}

#[test]
fn group_key_lowercases_and_skips_empty_labels() {
    assert_eq!(group_key("WWW.Bad..COM"), "bad.com");
    assert_eq!(group_key("..."), "");
}

#[test]
fn center_arms_when_present_and_counts_when_away() {
    let mut c = InterventionCenter::new();
    // UI absent: a trigger is counted as an urge while away.
    c.record_block_at(0, "bad.com");
    c.record_block_at(100, "evil.com");
    let dto = c.poll_at(200);
    assert!(!dto.pending);
    assert_eq!(dto.urges_while_away, 1);
    assert_eq!(dto.letter, None);
    // UI present (just polled): the next trigger, after the cooldown, pops a window.
    c.record_block_at(200_000, "bad.com");
    c.poll_at(200_100);
    c.record_block_at(200_200, "evil.com");
    let dto = c.poll_at(200_300);
    assert!(dto.pending);
    assert_eq!(dto.domain.as_deref(), Some("evil.com"));
    assert_eq!(dto.urges_while_away, 0);
    // It was taken by that poll.
    assert!(!c.poll_at(200_400).pending);
}

#[test]
fn manual_trigger_has_no_domain_and_goes_stale() {
    let mut c = InterventionCenter::new();
    c.trigger_manual_at(1_000);
    let dto = c.poll_at(2_000);
    assert!(dto.pending);
    assert_eq!(dto.domain, None);
    c.trigger_manual_at(1_000);
    // Older than the 15 s TTL: stale, no window.
    assert!(!c.poll_at(17_000).pending);
}

// ---------------------------------------------------------------------------
// heartbeat
// ---------------------------------------------------------------------------

#[test]
fn first_is_always_due_then_weekly() {
    let now = 1_784_116_800i64;
    let day = 86_400i64;
    assert!(due(None, now, interval()));
    // 6 days: not yet.
    assert!(!due(Some(now - 6 * day), now, interval()));
    // Exactly 7 days: due.
    assert!(due(Some(now - 7 * day), now, interval()));
    // 8 days: due.
    assert!(due(Some(now - 8 * day), now, interval()));
}

#[test]
fn message_reflects_state_and_pluralizes() {
    let on = message(true, 3, 12);
    assert!(on.contains("still protected"));
    assert!(on.contains("3 urges resisted"));
    assert!(on.contains("12-day protected streak"));
    assert!(on.contains("If these check-ins stop"));
    assert!(!on.contains('\u{2014}')); // no em dashes anywhere

    assert!(message(true, 0, 0).contains("No urges needed resisting"));
    assert!(message(true, 1, 0).contains("1 urge resisted"));
    // A short streak (<2) is omitted rather than reading "1-day streak".
    assert!(!message(true, 1, 1).contains("streak"));

    // Off flips to an honest heads-up.
    assert!(message(false, 0, 5).contains("protection is currently turned off"));
}

#[test]
fn message_exact_text() {
    assert_eq!(
        message(true, 3, 12),
        "Weekly check-in: still protected. 3 urges resisted this week. 12-day protected streak. If these check-ins stop arriving, protection may have been removed."
    );
}

// ---------------------------------------------------------------------------
// netcfg
// ---------------------------------------------------------------------------

#[test]
fn nameserver_parsing_drops_loopback() {
    assert_eq!(parse_nameserver("8.8.8.8,1.1.1.1"), vec!["8.8.8.8", "1.1.1.1"]);
    assert_eq!(parse_nameserver(""), Vec::<String>::new());
    // A re-apply must never capture our own sinkhole as "prior".
    assert_eq!(parse_nameserver("127.0.0.1"), Vec::<String>::new());
    assert_eq!(parse_nameserver("::1 9.9.9.9"), vec!["9.9.9.9"]);
}

#[test]
fn static_command_shape() {
    let cmds = netsh_set_static(IpFamily::V4, "Ethernet", &["127.0.0.1".into()]);
    assert_eq!(cmds.len(), 1);
    assert_eq!(cmds[0][0], "interface");
    assert_eq!(cmds[0][1], "ipv4");
    assert!(cmds[0].contains(&"name=Ethernet".to_string()));
    assert!(cmds[0].contains(&"127.0.0.1".to_string()));

    // Multiple servers -> one `set` + N-1 `add`.
    let cmds = netsh_set_static(IpFamily::V6, "Wi-Fi", &["::1".into(), "2606:4700:4700::1111".into()]);
    assert_eq!(cmds.len(), 2);
    assert_eq!(cmds[1][2], "add");
}

#[test]
fn dhcp_command_shape() {
    let cmd = netsh_set_dhcp(IpFamily::V4, "Ethernet");
    assert_eq!(cmd.last().unwrap(), "dhcp");
    assert!(cmd.contains(&"name=Ethernet".to_string()));
}

#[test]
fn add_commands_are_numbered_from_two() {
    let cmds = netsh_set_static(IpFamily::V4, "Eth", &["1.1.1.1".into(), "8.8.8.8".into(), "9.9.9.9".into()]);
    assert_eq!(
        cmds[2],
        vec!["interface", "ipv4", "add", "dnsservers", "name=Eth", "address=9.9.9.9", "index=3", "validate=no"]
    );
    assert!(netsh_set_static(IpFamily::V4, "Eth", &[]).is_empty());
}

#[test]
fn restore_and_loopback_batches() {
    let r = AdapterRestore { name: "Ethernet".into(), guid: "{ABC}".into(), v4: vec!["8.8.8.8".into()], v6: vec![] };
    assert!(AdapterRestore::was_dhcp(&r.v6));
    assert!(!AdapterRestore::was_dhcp(&r.v4));
    let cmds = restore(&r);
    assert_eq!(cmds.len(), 2);
    assert_eq!(cmds[0][6], "8.8.8.8");
    assert_eq!(cmds[1], vec!["interface", "ipv6", "set", "dnsservers", "name=Ethernet", "dhcp"]);
    let lb = set_loopback("Wi-Fi");
    assert_eq!(lb.len(), 2);
    assert_eq!(lb[0][6], "127.0.0.1");
    assert_eq!(lb[1][6], "::1");
    let a = Adapter { index: 3, guid: "{G}".into(), name: "Eth".into(), if_type: 6, is_up: true };
    assert!(a.is_manageable());
    let r = capture_restore(&a, "1.1.1.1, 127.0.0.1", "");
    assert_eq!(r.v4, vec!["1.1.1.1"]);
    assert!(r.v6.is_empty());
    assert_eq!(r.guid, "{G}");
}

// ---------------------------------------------------------------------------
// notifier
// ---------------------------------------------------------------------------

#[test]
fn formats_per_provider() {
    let (b, c) = build_body("https://discord.com/api/webhooks/1/x", "hi \"there\"");
    assert_eq!(b, r#"{"content":"hi \"there\""}"#);
    assert_eq!(c, "application/json");

    let (b, _) = build_body("https://hooks.slack.com/services/x", "off");
    assert_eq!(b, r#"{"text":"off"}"#);

    let (b, c) = build_body("https://ntfy.sh/my-topic", "off");
    assert_eq!(b, "off");
    assert_eq!(c, "text/plain; charset=utf-8");

    let (b, _) = build_body("https://example.com/hook", "off");
    assert_eq!(b, r#"{"text":"off","source":"sanctum"}"#);
}

#[test]
fn json_string_escapes() {
    assert_eq!(json_string("a\nb\"c"), r#""a\nb\"c""#);
}

#[test]
fn base64_matches_known_vectors() {
    assert_eq!(base64("AC:tok"), "QUM6dG9r");
    assert_eq!(base64("Man"), "TWFu");
    assert_eq!(base64("Ma"), "TWE=");
    assert_eq!(base64("M"), "TQ==");
}

#[test]
fn pct_encodes_form_values() {
    assert_eq!(pct("+15551234567"), "%2B15551234567");
    assert_eq!(pct("Protection was OFF."), "Protection%20was%20OFF.");
    assert_eq!(pct("a-b_c.d~e"), "a-b_c.d~e");
}

#[test]
fn control_characters_and_unicode_are_escaped() {
    assert_eq!(json_string("\u{1}\t\\"), "\"\\u0001\\t\\\\\"");
    assert_eq!(base64(""), "");
    assert_eq!(base64("\u{e9}"), "w6k=");
    assert_eq!(pct("\u{e9}"), "%C3%A9");
}

#[test]
fn requests_are_built_only_when_configured() {
    assert!(webhook_request("   ", "x").is_none());
    let p = webhook_request("  https://DISCORD.com/x ", "off").unwrap();
    assert_eq!(p.url, "https://DISCORD.com/x");
    assert_eq!(p.body, r#"{"content":"off"}"#);
    assert_eq!(p.headers[0], ("Content-Type".to_string(), "application/json".to_string()));
    assert!(sms_request("AC", " ", "+1", "+2", "hi").is_none());
    let s = sms_request(" AC ", "tok", "+1", "+2", "hi there").unwrap();
    assert_eq!(s.url, "https://api.twilio.com/2010-04-01/Accounts/AC/Messages.json");
    assert_eq!(s.headers[0].1, "Basic QUM6dG9r");
    assert_eq!(s.body, "From=%2B1&To=%2B2&Body=hi%20there");
}

// ---------------------------------------------------------------------------
// lists (sample list bodies stand in for the shipped list files)
// ---------------------------------------------------------------------------

const CURATED: &str = "# curated\nzeta.example\nalpha.example\nmid.example\n";
const BULK: &str = "alpha.example\nbulk-one.example\nbulk-two.example\n";

#[test]
fn full_list_covers_the_curated_floor() {
    let full = starter_blocklist(BULK, CURATED);
    for d in curated_blocklist(CURATED).sorted() {
        assert!(full.is_blocked(&d), "curated entry missing from full: {d}");
    }
}

#[test]
fn floor_is_bounded_curated_and_blocked() {
    let block = starter_blocklist(BULK, CURATED);
    let curated = curated_blocklist(CURATED);
    let floor = floor_domains(&curated, &block, FLOOR_SIZE);
    assert!(!floor.is_empty());
    assert!(floor.len() <= FLOOR_SIZE);
    // The floor is drawn from the curated list and everything in it is
    // genuinely blocked by the live set.
    assert!(floor.iter().all(|d| curated.contains_exact(d)));
    assert!(floor.iter().all(|d| block.is_blocked(d)));
}

#[test]
fn empty_block_set_yields_empty_floor() {
    let floor = floor_domains(&curated_blocklist(CURATED), &Blocklist::new(), FLOOR_SIZE);
    assert!(floor.is_empty());
}

#[test]
fn floor_takes_the_first_n_in_order() {
    let curated = curated_blocklist(CURATED);
    let (live, _) = Blocklist::parse("zeta.example\nmid.example\nalpha.example\n");
    assert_eq!(floor_domains(&curated, &live, 2), vec!["alpha.example", "mid.example"]);
    assert_eq!(floor_domains(&curated, &live, 0), Vec::<String>::new());
}

// ---------------------------------------------------------------------------
// dns
// ---------------------------------------------------------------------------

fn state() -> FilterState {
    let (mut block, _) = Blocklist::parse("bad.com\n");
    block.add("ads.example.com");
    let (ss, _) = SafeSearchMap::parse("google.com forcesafesearch.google.com\n");
    let (doh, _) = Blocklist::parse("dns.google\n");
    FilterState::new(block, ss, doh)
}

#[test]
fn classify_pipeline() {
    let r = state();
    assert_eq!(r.classify("health.sanctum.invalid"), Decision::HealthCanary);
    assert_eq!(r.classify("use-application-dns.net"), Decision::DohDisableCanary);
    assert_eq!(r.classify("bad.com"), Decision::Sink(SinkKind::Blocked));
    assert_eq!(r.classify("www.bad.com"), Decision::Sink(SinkKind::Blocked));
    assert_eq!(r.classify("dns.google"), Decision::Sink(SinkKind::Doh));
    assert_eq!(r.classify("google.com"), Decision::SafeSearch("forcesafesearch.google.com".into()));
    assert_eq!(r.classify("example.org"), Decision::Forward);
}

#[test]
fn hot_reload_updates_and_allowlist_overrides() {
    let mut r = state();
    assert_eq!(r.classify("ads.example.com"), Decision::Sink(SinkKind::Blocked));

    // Reload with an allowlist entry -> now forwarded.
    r.allowlist.insert("ads.example.com".to_string());
    assert_eq!(r.classify("ads.example.com"), Decision::Forward);

    // Reload with a new blocked domain -> now sinkholed.
    r.blocklist.add("newbad.com");
    assert_eq!(r.classify("sub.newbad.com"), Decision::Sink(SinkKind::Blocked));
}

#[test]
fn switches_turn_off_doh_and_safesearch_handling() {
    let mut r = state();
    r.block_doh = false;
    r.enforce_safesearch = false;
    assert_eq!(r.classify("dns.google"), Decision::Forward);
    assert_eq!(r.classify("google.com"), Decision::Forward);
    assert_eq!(query_host("WWW.Bad.COM.."), "www.bad.com");
}

// ---------------------------------------------------------------------------
// engine
// ---------------------------------------------------------------------------

#[test]
fn upstreams_skip_loopback_and_duplicates() {
    let e = EnforcementEngine::new(r"C:\ProgramData\Sanctum\sanctum.db", r"C:\Windows\System32\drivers\etc\hosts");
    let journal = vec![AdapterRestore { name: "Eth".into(), guid: "{G}".into(), v4: vec!["8.8.8.8".into()], v6: vec!["::1".into()] }];
    assert_eq!(e.upstream_candidates(&journal), vec!["8.8.8.8", "::1", "1.1.1.1", "9.9.9.9"]);
    let parsed = vec![
        Some(Ip::V4(8, 8, 8, 8)),
        Some(Ip::V6(0, 0, 0, 0, 0, 0, 0, 1)),
        None,
        Some(Ip::V4(127, 0, 0, 1)),
        Some(Ip::V4(8, 8, 8, 8)),
        Some(Ip::V4(1, 1, 1, 1)),
    ];
    assert_eq!(e.compute_upstreams(&parsed), vec![Ip::V4(8, 8, 8, 8), Ip::V4(1, 1, 1, 1)]);
}

#[test]
fn floor_lands_in_the_hosts_body() {
    let e = EnforcementEngine::new("db", "hosts");
    let curated = curated_blocklist(CURATED);
    let block = starter_blocklist(BULK, CURATED);
    let body = e.apply_floor(&curated, &block, "127.0.0.1 localhost\n").unwrap();
    assert!(body.contains("0.0.0.0 alpha.example"));
    assert!(body.contains(":: www.zeta.example"));
    let cleared = e.remove_hosts_floor(&body).unwrap();
    assert!(!cleared.contains("SANCTUM"));
    let adapters = vec![
        Adapter { index: 1, guid: "{A}".into(), name: "Eth".into(), if_type: 6, is_up: true },
        Adapter { index: 2, guid: "{L}".into(), name: "Loop".into(), if_type: 24, is_up: true },
        Adapter { index: 3, guid: "{D}".into(), name: "Down".into(), if_type: 6, is_up: false },
    ];
    let batches = e.reassert_loopback(&adapters);
    assert_eq!(batches.len(), 1);
    assert_eq!(batches[0].0, "Eth");
}

#[test]
fn canary_query_and_answer() {
    let q = build_canary_query();
    assert_eq!(&q[..12], &[0x57, 0x41, 0x01, 0x00, 0x00, 0x01, 0, 0, 0, 0, 0, 0]);
    assert_eq!(q[12], 6);
    assert_eq!(&q[13..19], b"health");
    assert_eq!(q.len(), 12 + 1 + 6 + 1 + 7 + 1 + 7 + 1 + 4);
    assert!(canary_answered(&[1, 2, 127, 0, 0, 2, 9]));
    assert!(!canary_answered(&[127, 0, 0, 1]));
    assert!(!canary_answered(&[127, 0, 0]));
}

// ---------------------------------------------------------------------------
// hostsfile
// ---------------------------------------------------------------------------

#[test]
fn expands_environment_refs() {
    let vars = vec![("SANCTUM_TEST_ROOT".to_string(), r"C:\Win".to_string())];
    assert_eq!(expand_env(r"%SANCTUM_TEST_ROOT%\System32\drivers\etc", &vars), r"C:\Win\System32\drivers\etc");
    assert_eq!(expand_env("100% done", &vars), "100% done");
}

#[test]
fn hosts_path_prefers_the_registry() {
    let vars = vec![("SystemRoot".to_string(), r"C:\Windows".to_string())];
    assert_eq!(
        hosts_path(Some(r"%systemroot%\System32\drivers\etc"), &vars, r"D:\Win"),
        r"C:\Windows\System32\drivers\etc\hosts"
    );
    assert_eq!(hosts_path(None, &vars, r"D:\Win"), r"D:\Win\System32\drivers\etc\hosts");
    assert_eq!(expand_env("%UNSET%x%", &vars), "x%");
}

// ---------------------------------------------------------------------------
// stats
// ---------------------------------------------------------------------------

#[test]
fn streak_counts_consecutive_days() {
    let today = 20_649i64;
    let days = vec![today, today - 1, today - 2];
    assert_eq!(current_streak(&days, today), 3);
    assert_eq!(days.len(), 3);
}

#[test]
fn streak_starts_yesterday_and_stops_at_a_gap() {
    let today = 20_649i64;
    assert_eq!(current_streak(&vec![today - 1, today - 2, today - 4], today), 2);
    assert_eq!(current_streak(&vec![today - 2], today), 0);
    assert_eq!(current_streak(&vec![], today), 0);
}

// ---------------------------------------------------------------------------
// browser policy
// ---------------------------------------------------------------------------

#[test]
fn desired_values_are_recognized_exactly() {
    // "off" in UTF-16LE, NUL-terminated.
    let off = vec![0x6f, 0, 0x66, 0, 0x66, 0, 0, 0];
    assert!(desired_matches(REG_SZ, &off, Desired::Off));
    assert!(!desired_matches(REG_SZ, &vec![0x6f, 0, 0x6e, 0], Desired::Off));
    assert!(!desired_matches(REG_DWORD, &off, Desired::Off));
    assert!(desired_matches(REG_DWORD, &vec![1, 0, 0, 0], Desired::Dword(1)));
    assert!(!desired_matches(REG_DWORD, &vec![1, 0, 0], Desired::Dword(1)));
}

#[test]
fn journal_records_each_value_once() {
    let mut j = Journal::new();
    note_created(&mut j, r"SOFTWARE\Policies", false);
    note_created(&mut j, r"SOFTWARE\Policies", false);
    note_created(&mut j, "SOFTWARE", true);
    assert_eq!(j.created_keys, vec![r"SOFTWARE\Policies"]);
    note_value(&mut j, "k", "Enabled", Some((4, vec![1, 0, 0, 0])), Desired::Dword(0));
    note_value(&mut j, "k", "Enabled", None, Desired::Dword(0));
    note_value(&mut j, "k", "Locked", Some((4, vec![1, 0, 0, 0])), Desired::Dword(1));
    assert_eq!(j.values.len(), 1);
    assert_eq!(j.values[0].prior, Some((4, vec![1, 0, 0, 0])));
    assert_eq!(targets().len(), 5);
    assert_eq!(join_key("", "a"), "a");
    assert_eq!(join_key("p", "a"), r"p\a");
    assert_eq!(removal_order(&vec!["A".into(), r"A\B\C".into(), r"A\B".into()]), vec![r"A\B\C", r"A\B", "A"]);
}

#[test]
fn removal_keeps_journal_order_within_a_depth() {
    let keys: Vec<String> = vec!["X".into(), r"X\Q".into(), r"X\P".into(), "Y".into(), r"Y\A\B".into()];
    assert_eq!(removal_order(&keys), vec![r"Y\A\B", r"X\Q", r"X\P", "X", "Y"]);
}

// ---------------------------------------------------------------------------
// resolver replies, framing, firewall rules
// ---------------------------------------------------------------------------

const V4: [u8; 4] = [0, 0, 0, 0];
const V6: [u8; 16] = [0; 16];

#[test]
fn plan_sinks_blocked_hosts_for_v4_and_v6() {
    let s = state();
    // The query name carries the root dot and may use any case.
    assert_eq!(
        s.plan("bad.com.", TYPE_A, V4, V6),
        (Plan::Respond { rcode: RCODE_NO_ERROR, answers: vec![Record::A(V4)] }, true)
    );
    assert_eq!(
        s.plan("CDN.Bad.com.", TYPE_A, V4, V6),
        (Plan::Respond { rcode: RCODE_NO_ERROR, answers: vec![Record::A(V4)] }, true)
    );
    assert_eq!(
        s.plan("bad.com.", TYPE_AAAA, V4, V6),
        (Plan::Respond { rcode: RCODE_NO_ERROR, answers: vec![Record::Aaaa(V6)] }, true)
    );
    // Other record types get an empty answer.
    assert_eq!(
        s.plan("bad.com.", 16, V4, V6),
        (Plan::Respond { rcode: RCODE_NO_ERROR, answers: vec![] }, true)
    );
}

#[test]
fn plan_forwards_unlisted_and_sinks_doh_without_counting() {
    let s = state();
    assert_eq!(s.plan("example.org.", TYPE_A, V4, V6), (Plan::Forward, false));
    // DoH endpoints are sunk but are plumbing, not an urge.
    assert_eq!(
        s.plan("dns.google.", TYPE_A, V4, V6),
        (Plan::Respond { rcode: RCODE_NO_ERROR, answers: vec![Record::A(V4)] }, false)
    );
}

#[test]
fn plan_chains_safesearch_and_answers_canaries() {
    let s = state();
    assert_eq!(
        s.plan("google.com.", TYPE_A, V4, V6),
        (Plan::SafeSearch { target: "forcesafesearch.google.com".into(), chase: true }, false)
    );
    assert_eq!(
        s.plan("google.com.", 16, V4, V6),
        (Plan::SafeSearch { target: "forcesafesearch.google.com".into(), chase: false }, false)
    );
    assert_eq!(
        s.plan("health.sanctum.invalid.", TYPE_A, V4, V6),
        (Plan::Respond { rcode: RCODE_NO_ERROR, answers: vec![Record::A([127, 0, 0, 2])] }, false)
    );
    assert_eq!(
        s.plan("health.sanctum.invalid.", TYPE_AAAA, V4, V6),
        (Plan::Respond { rcode: RCODE_NO_ERROR, answers: vec![] }, false)
    );
    assert_eq!(
        s.plan("use-application-dns.net.", TYPE_A, V4, V6),
        (Plan::Respond { rcode: RCODE_NX_DOMAIN, answers: vec![] }, false)
    );
    assert_eq!(sink_answers(TYPE_AAAA, V4, [1; 16]), vec![Record::Aaaa([1; 16])]);
}

#[test]
fn dns_tcp_frames_carry_a_two_byte_length() {
    assert_eq!(tcp_frame(&vec![9, 8, 7]), vec![0, 3, 9, 8, 7]);
    let big = vec![0u8; 300];
    let f = tcp_frame(&big);
    assert_eq!(&f[..2], &[1, 44]);
    assert_eq!(f.len(), 302);
    assert_eq!(tcp_len(&[1, 44]), 300);
}

#[test]
fn ipc_frames_carry_a_four_byte_length_and_a_cap() {
    assert_eq!(encode_frame(&b"{}".to_vec()), vec![0, 0, 0, 2, b'{', b'}']);
    assert_eq!(frame_len(&[0, 0, 1, 0]), Some(256));
    assert_eq!(frame_len(&[0, 16, 0, 0]), Some(MAX_FRAME));
    assert_eq!(frame_len(&[0, 16, 0, 1]), None);
    assert_eq!(frame_len(&[0, 0, 0, 0]), None);
}

#[test]
fn doh_list_is_nonempty_and_valid_shape() {
    let ips = doh_ips();
    assert!(ips.len() >= 10);
    // Every entry is a well-formed IPv4 or IPv6 address.
    for ip in &ips {
        assert!(is_ip_shape(ip), "bad IP {ip}");
    }
}

/// A dotted quad of octets, or IPv6 hex groups with at most one `::`.
fn is_ip_shape(s: &str) -> bool {
    if s.contains(':') {
        let halves: Vec<&str> = s.split("::").collect();
        if halves.len() > 2 {
            return false;
        }
        let groups: Vec<&str> = halves.iter().flat_map(|h| h.split(':')).filter(|g| !g.is_empty()).collect();
        let ok = groups.iter().all(|g| g.len() <= 4 && g.chars().all(|c| c.is_ascii_hexdigit()));
        ok && if halves.len() == 2 { groups.len() < 8 } else { groups.len() == 8 }
    } else {
        let parts: Vec<&str> = s.split('.').collect();
        parts.len() == 4 && parts.iter().all(|p| !p.is_empty() && p.parse::<u8>().is_ok())
    }
}

#[test]
fn firewall_rules_block_doh_ips_on_443() {
    let del = delete_rule_commands();
    assert_eq!(del.len(), 2);
    assert_eq!(del[0], vec!["advfirewall", "firewall", "delete", "rule", "name=Sanctum: block DoH IPs (TCP 443)"]);
    let add = add_rule_commands();
    assert_eq!(add.len(), 2);
    assert_eq!(add[1][4], "name=Sanctum: block DoH IPs (UDP 443)");
    assert_eq!(add[1][7], "protocol=UDP");
    assert_eq!(add[0][8], "remoteport=443");
    assert!(add[0][9].starts_with("remoteip=1.1.1.1,1.0.0.1,2606:4700:4700::1111,"));
    assert!(add[0][9].ends_with(",185.228.168.9,185.228.169.9"));
    assert_eq!(join_with_commas(&vec!["a".into(), "b".into()]), "a,b");
    assert_eq!(join_with_commas(&vec![]), "");
}

#[test]
fn ntfy_topics_and_sms_settings() {
    assert_eq!(ntfy_topic(" https://ntfy.sh/my-topic "), Some("my-topic".to_string()));
    assert_eq!(ntfy_topic("https://ntfy.sh/"), None);
    assert_eq!(ntfy_topic("https://discord.com/api/webhooks/1"), None);
    assert_eq!(ntfy_topic(""), None);
    assert!(sms_configured("AC1", "tok", "+1555", "+1666"));
    assert!(!sms_configured("AC1", " ", "+1555", "+1666"));
}

#[test]
fn key_prefixes_walk_down_to_the_key() {
    assert_eq!(
        key_prefixes(r"SOFTWARE\Policies\Google\Chrome"),
        vec!["SOFTWARE", r"SOFTWARE\Policies", r"SOFTWARE\Policies\Google", r"SOFTWARE\Policies\Google\Chrome"]
    );
    assert_eq!(key_prefixes("A"), vec!["A"]);
    assert_eq!(key_prefixes(""), vec![""]);
}

#[test]
fn stored_journals_with_repeats_are_rejected() {
    let mut j = Journal::new();
    assert!(journal_view_ok(&j));
    note_created(&mut j, "A", false);
    note_value(&mut j, "A", "v", None, Desired::Dword(1));
    assert!(journal_view_ok(&j));
    j.created_keys.push("A".to_string());
    assert!(!journal_view_ok(&j));
    let mut k = Journal::new();
    k.values.push(PriorValue { key: "A".into(), name: "v".into(), prior: None });
    k.values.push(PriorValue { key: "A".into(), name: "v".into(), prior: Some((4, vec![0, 0, 0, 0])) });
    assert!(!journal_view_ok(&k));
}

#[test]
fn bypass_tools_are_blocked_while_the_switch_is_on() {
    let (starter, _) = Blocklist::parse("bad.com\n");
    let (bypass, _) = Blocklist::parse("vpn-service.net\n");
    let (ss, _) = SafeSearchMap::parse("");
    let (doh, _) = Blocklist::parse("");
    let mut cfg = AppConfig::default();
    assert!(cfg.block_bypass);
    let custom = vec!["Mine.org".to_string()];
    let (state, block) = filter_state(starter.clone(), &custom, &vec![], ss.duplicate(), doh.clone(), &bypass, &cfg);
    assert!(state.blocklist.is_blocked("www.vpn-service.net"));
    assert!(block.contains_exact("vpn-service.net"));
    assert!(block.contains_exact("mine.org"));
    assert_eq!(state.classify("vpn-service.net"), Decision::Sink(SinkKind::Blocked));
    cfg.block_bypass = false;
    let (state, block) = filter_state(starter, &custom, &vec![], ss, doh, &bypass, &cfg);
    assert!(!state.blocklist.is_blocked("vpn-service.net"));
    assert_eq!(block.len(), 2);
}

// ---------------------------------------------------------------------------
// packets
// ---------------------------------------------------------------------------

fn query_bytes(name: &str, rtype: RecordType) -> Vec<u8> {
    let mut msg = Message::new();
    msg.set_id(0x1234);
    msg.set_message_type(MessageType::Query);
    msg.set_op_code(OpCode::Query);
    msg.set_recursion_desired(true);
    let mut q = Query::new();
    q.set_name(Name::from_ascii(format!("{name}.")).unwrap());
    q.set_query_type(rtype);
    q.set_query_class(DNSClass::IN);
    msg.add_query(q);
    msg.to_vec().unwrap()
}

fn reply_of(name: &str, rtype: RecordType) -> (Message, Option<String>) {
    let s = state();
    match answer_packet(&s, &query_bytes(name, rtype), V4, V6) {
        (Step::Reply(bytes), hit) => (Message::from_vec(&bytes).unwrap(), hit),
        _ => panic!("expected a reply for {name}"),
    }
}

fn a_answers(msg: &Message) -> Vec<[u8; 4]> {
    msg.answers()
        .iter()
        .filter_map(|r| match r.data() {
            Some(RData::A(a)) => Some(a.0.octets()),
            _ => None,
        })
        .collect()
}

fn aaaa_answers(msg: &Message) -> Vec<[u8; 16]> {
    msg.answers()
        .iter()
        .filter_map(|r| match r.data() {
            Some(RData::AAAA(a)) => Some(a.0.octets()),
            _ => None,
        })
        .collect()
}

#[test]
fn blocked_domain_is_sinkholed_v4_and_v6() {
    let (resp, hit) = reply_of("bad.com", RecordType::A);
    assert_eq!(a_answers(&resp), vec![[0, 0, 0, 0]]);
    assert_eq!(hit, Some("bad.com".to_string()));
    assert_eq!(resp.id(), 0x1234);
    assert_eq!(resp.message_type(), MessageType::Response);
    assert!(resp.recursion_desired() && resp.recursion_available());
    assert_eq!(resp.queries().len(), 1);

    // Subdomains are covered by suffix match.
    let (resp, hit) = reply_of("cdn.bad.com", RecordType::A);
    assert_eq!(a_answers(&resp), vec![[0, 0, 0, 0]]);
    assert_eq!(hit, Some("cdn.bad.com".to_string()));

    // IPv6 must not leak past the block.
    let (resp, _) = reply_of("bad.com", RecordType::AAAA);
    assert_eq!(aaaa_answers(&resp), vec![[0; 16]]);
}

#[test]
fn doh_endpoint_is_sinkholed() {
    let (resp, hit) = reply_of("dns.google", RecordType::A);
    assert_eq!(a_answers(&resp), vec![[0, 0, 0, 0]]);
    assert_eq!(hit, None);
}

#[test]
fn canaries_behave() {
    let (resp, _) = reply_of("health.sanctum.invalid", RecordType::A);
    assert_eq!(a_answers(&resp), vec![[127, 0, 0, 2]]);

    let (resp, _) = reply_of("use-application-dns.net", RecordType::A);
    assert_eq!(resp.response_code(), ResponseCode::NXDomain);
}

#[test]
fn packets_are_relayed_chased_or_dropped() {
    let s = state();
    assert!(matches!(answer_packet(&s, &query_bytes("example.org", RecordType::A), V4, V6), (Step::Forward, None)));
    match answer_packet(&s, &query_bytes("google.com", RecordType::A), V4, V6) {
        (Step::SafeSearch { target, chase, query }, None) => {
            assert_eq!(target, "forcesafesearch.google.com");
            assert!(chase);
            assert_eq!(query.id, 0x1234);
            assert_eq!(query.questions[0].name, "google.com.");
            assert_eq!(query.questions[0].qtype, 1);
        }
        _ => panic!("expected a SafeSearch step"),
    }
    // Not a DNS message: no reply.
    assert!(matches!(answer_packet(&s, &[1, 2, 3], V4, V6), (Step::NoReply, None)));
    // A message with no question is relayed.
    let mut empty = Message::new();
    empty.set_id(7);
    assert!(matches!(answer_packet(&s, &empty.to_vec().unwrap(), V4, V6), (Step::Forward, None)));
}

#[test]
fn own_replies_echo_the_query() {
    let q = DnsQuery {
        id: 9,
        op_code: 0,
        recursion_desired: false,
        questions: vec![Question { name: "bad.com.".into(), qtype: 1, qclass: 1 }],
        request: query_bytes("bad.com", RecordType::A),
    };
    let bytes = respond(&q, RCODE_NO_ERROR, &vec![Record::A([10, 0, 0, 1])]).unwrap();
    let m = Message::from_vec(&bytes).unwrap();
    assert_eq!(m.id(), 9);
    assert!(!m.recursion_desired());
    assert!(!m.authoritative());
    assert_eq!(a_answers(&m), vec![[10, 0, 0, 1]]);
    assert_eq!(m.answers()[0].ttl(), 5);
    assert_eq!(m.answers()[0].name().to_string(), "bad.com.");
    assert_eq!(m.queries().len(), 1);
    assert_eq!(m.queries()[0].name().to_string(), "bad.com.");
}

// ---------------------------------------------------------------------------
// batch runner
// ---------------------------------------------------------------------------

/// Drive `batch_step` over commands whose outcomes are `ok`; returns the
/// positions run and whether the batch succeeded.
fn drive(ok: &[bool]) -> (Vec<usize>, bool) {
    let mut ran = 0usize;
    let mut last_failed = false;
    let mut order = Vec::new();
    loop {
        match batch_step(ok.len(), ran, last_failed) {
            BatchStep::Run(i) => {
                order.push(i);
                last_failed = !ok[i];
                ran += 1;
            }
            BatchStep::Done => return (order, true),
            BatchStep::Abort => return (order, false),
        }
    }
}

#[test]
fn batch_runs_in_order_and_stops_at_the_first_failure() {
    assert_eq!(drive(&[true, true, true]), (vec![0, 1, 2], true));
    assert_eq!(drive(&[true, false, true]), (vec![0, 1], false));
    assert_eq!(drive(&[false, true]), (vec![0], false));
    assert_eq!(drive(&[]), (vec![], true));
    assert_eq!(batch_step(2, 0, false), BatchStep::Run(0));
    assert_eq!(batch_step(2, 2, false), BatchStep::Done);
    assert_eq!(batch_step(2, 2, true), BatchStep::Abort);
}

// ---------------------------------------------------------------------------
// browser policies over an in-memory registry
// ---------------------------------------------------------------------------

/// A registry hive in memory: keys, and values by (key, name).
#[derive(Default, Clone, PartialEq, Debug)]
struct MemReg {
    keys: BTreeSet<String>,
    values: BTreeMap<(String, String), (u32, Vec<u8>)>,
}

fn encode(want: Desired) -> (u32, Vec<u8>) {
    match want {
        Desired::Off => (REG_SZ, "off\0".encode_utf16().flat_map(|u| u.to_le_bytes()).collect()),
        Desired::Dword(d) => (REG_DWORD, d.to_le_bytes().to_vec()),
    }
}

fn utf16(s: &str) -> Vec<u8> {
    format!("{s}\0").encode_utf16().flat_map(|u| u.to_le_bytes()).collect()
}

impl MemReg {
    fn create_key(&mut self, path: &str) {
        for p in key_prefixes(path) {
            self.keys.insert(p);
        }
    }

    fn snapshot(&self, prefix: &str) -> RegSnapshot {
        let mut snap = RegSnapshot { keys: Vec::new(), values: Vec::new() };
        for (key_path, values) in targets() {
            let path = join_key(prefix, &key_path);
            for p in key_prefixes(&path) {
                if self.keys.contains(&p) {
                    snap.keys.push(p);
                }
            }
            for (name, _) in values {
                if let Some((vtype, bytes)) = self.values.get(&(path.clone(), name.clone())) {
                    snap.values.push(SeenValue { key: path.clone(), name, vtype: *vtype, bytes: bytes.clone() });
                }
            }
        }
        snap
    }

    fn apply_under(&mut self, prefix: &str, mut journal: Journal) -> Journal {
        let snap = self.snapshot(prefix);
        for (path, name, want) in apply_plan(prefix, &mut journal, &snap) {
            self.create_key(&path);
            self.values.insert((path, name), encode(want));
        }
        journal
    }

    fn remove_under(&mut self, journal: &Journal) {
        for pv in &journal.values {
            if !self.keys.contains(&pv.key) {
                continue;
            }
            let at = (pv.key.clone(), pv.name.clone());
            match &pv.prior {
                Some(v) => {
                    self.values.insert(at, v.clone());
                }
                None => {
                    self.values.remove(&at);
                }
            }
        }
        for k in removal_order(&journal.created_keys) {
            let child = format!("{k}\\");
            let empty = !self.keys.iter().any(|o| o.starts_with(&child)) && !self.values.keys().any(|(key, _)| key == &k);
            if self.keys.contains(&k) && empty {
                self.keys.remove(&k);
            }
        }
    }
}

type JournalView = (Vec<(String, String, Option<(u32, Vec<u8>)>)>, Vec<String>);

fn journal_view(j: &Journal) -> JournalView {
    (j.values.iter().map(|p| (p.key.clone(), p.name.clone(), p.prior.clone())).collect(), j.created_keys.clone())
}

/// A fresh current-user hive, with `Software` present as it always is.
fn scratch(name: &str) -> (MemReg, String) {
    let mut reg = MemReg::default();
    reg.create_key("Software");
    (reg, format!(r"Software\SanctumTest\{name}"))
}

#[test]
fn apply_sets_all_policies_and_remove_restores_cleanly() {
    let (mut root, prefix) = scratch("fresh");
    let journal = root.apply_under(&prefix, Journal::new());

    let chrome = format!(r"{prefix}\SOFTWARE\Policies\Google\Chrome");
    assert!(root.keys.contains(&chrome));
    assert_eq!(root.values[&(chrome.clone(), "DnsOverHttpsMode".to_string())], (REG_SZ, utf16("off")));
    let ff = format!(r"{prefix}\SOFTWARE\Policies\Mozilla\Firefox\DNSOverHTTPS");
    let enabled = &root.values[&(ff.clone(), "Enabled".to_string())];
    let locked = &root.values[&(ff.clone(), "Locked".to_string())];
    assert_eq!((enabled.1.clone(), locked.1.clone()), (0u32.to_le_bytes().to_vec(), 1u32.to_le_bytes().to_vec()));

    root.remove_under(&journal);
    assert!(!root.keys.contains(&chrome));
    assert!(!root.keys.contains(&format!(r"{prefix}\SOFTWARE\Policies\Mozilla")));
    assert!(root.keys.contains("Software"));
}

#[test]
fn preexisting_policy_is_journaled_and_restored_not_deleted() {
    let (mut root, prefix) = scratch("preexisting");
    let chrome = format!(r"{prefix}\SOFTWARE\Policies\Google\Chrome");
    root.create_key(&chrome);
    root.values.insert((chrome.clone(), "DnsOverHttpsMode".into()), (REG_SZ, utf16("automatic")));

    let journal = root.apply_under(&prefix, Journal::new());
    assert_eq!(root.values[&(chrome.clone(), "DnsOverHttpsMode".to_string())], (REG_SZ, utf16("off")));

    root.remove_under(&journal);
    assert_eq!(root.values[&(chrome.clone(), "DnsOverHttpsMode".to_string())], (REG_SZ, utf16("automatic")));
    assert!(root.keys.contains(&chrome));
}

#[test]
fn reapply_is_idempotent_and_preserves_original_journal() {
    let (mut root, prefix) = scratch("idempotent");
    let j1 = root.apply_under(&prefix, Journal::new());
    let after_first = root.clone();
    let j2 = root.apply_under(&prefix, j1.clone());
    assert_eq!(journal_view(&j1), journal_view(&j2), "re-apply must not grow or rewrite the journal");
    assert_eq!(root, after_first);

    root.remove_under(&j2);
    assert!(!root.keys.contains(&format!(r"{prefix}\SOFTWARE\Policies")));
}

#[test]
fn apply_plan_journals_missing_keys_once_and_writes_every_value() {
    let mut j = Journal::new();
    let snap = RegSnapshot { keys: vec!["SOFTWARE".into()], values: Vec::new() };
    let writes = apply_plan("", &mut j, &snap);
    assert_eq!(writes.len(), 6);
    assert_eq!(writes[0], (r"SOFTWARE\Policies\Google\Chrome".to_string(), "DnsOverHttpsMode".to_string(), Desired::Off));
    assert_eq!(writes[5], (r"SOFTWARE\Policies\Mozilla\Firefox\DNSOverHTTPS".to_string(), "Locked".to_string(), Desired::Dword(1)));
    // `SOFTWARE\Policies` is shared by every target and recorded once.
    assert_eq!(j.created_keys.iter().filter(|k| *k == r"SOFTWARE\Policies").count(), 1);
    assert_eq!(j.created_keys[0], r"SOFTWARE\Policies");
    assert!(!j.created_keys.contains(&"SOFTWARE".to_string()));
    assert_eq!(j.values.len(), 6);
    assert!(j.values.iter().all(|p| p.prior.is_none()));
}

#[test]
fn partner_hears_of_channel_changes_only_when_there_is_one() {
    assert_eq!(webhook_change_note(false, true), None);
    assert_eq!(webhook_change_note(true, true).as_deref(), Some("The accountability partner was removed from Sanctum."));
    assert_eq!(webhook_change_note(true, false).as_deref(), Some("The accountability channel was changed to a different one."));
    assert_eq!(sms_change_note(false, false), None);
    assert_eq!(sms_change_note(true, true).as_deref(), Some("SMS accountability was removed."));
    assert_eq!(sms_change_note(true, false).as_deref(), Some("The SMS accountability details were changed."));
    assert_eq!(test_refusal(false, false).as_deref(), Some("No accountability partner is set."));
    assert_eq!(test_refusal(true, false), None);
    assert_eq!(test_refusal(false, true), None);
}

#[test]
fn intervention_window_spans_every_monitor() {
    assert_eq!(monitor_span(&vec![]), None);
    assert_eq!(monitor_span(&vec![(0, 0, 1920, 1080)]), Some((0, 0, 1920, 1080)));
    // A second screen to the right, raised by 200 px.
    assert_eq!(
        monitor_span(&vec![(0, 0, 1920, 1080), (1920, -200, 1280, 1024)]),
        Some((0, -200, 3200, 1280))
    );
    // A screen to the left of the primary.
    assert_eq!(
        monitor_span(&vec![(0, 0, 2560, 1440), (-1080, -300, 1080, 1920)]),
        Some((-1080, -300, 3640, 1920))
    );
    // A degenerate monitor still gives a 1x1 window.
    assert_eq!(monitor_span(&vec![(5, 5, 0, 0)]), Some((5, 5, 1, 1)));
}

#[test]
fn a_trigger_needs_enough_hits_inside_its_window() {
    let mut d = Detector::new();
    // Two distinct sites, but 20 s apart: the first has left the window.
    assert!(!d.record(0, "a.com"));
    assert!(!d.record(20_000, "b.com"));
    // A third site within 10 s of the second: two distinct keys in the window.
    assert!(d.record(25_000, "c.com"));
    // The trigger consumed the window; after the cooldown, three hits of one
    // site are needed again.
    let t = 25_000 + 180_000;
    assert!(!d.record(t, "www.a.com"));
    assert!(!d.record(t + 1, "cdn.a.com"));
    assert!(d.record(t + 2, "a.com"));
}

#[test]
fn what_the_service_stores_reads_back_as_set() {
    // The bytes `RegKey::set_value` stores for "off" and for a u32.
    assert!(desired_matches(REG_SZ, &utf16("off"), Desired::Off));
    assert!(desired_matches(REG_DWORD, &1u32.to_le_bytes().to_vec(), Desired::Dword(1)));
    assert!(!desired_matches(REG_DWORD, &1u32.to_le_bytes().to_vec(), Desired::Dword(0)));
}
