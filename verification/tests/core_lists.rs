use sanctum::blocklist::Blocklist;
use sanctum::domain::{is_blocked_by, normalize, parent_suffixes};
use sanctum::hosts::{markers_balanced, remove_section, section_byte_range, upsert_section};
use sanctum::keyword::{Keyword, KeywordSet, MatchMode};
use sanctum::paths::{data_dir, db_path, hosts_path, program_data, system_root};
use sanctum::safesearch::SafeSearchMap;
use vstd::hash_set::StringHashSet;

// ---------------------------------------------------------------------------
// blocklist
// ---------------------------------------------------------------------------

#[test]
fn parses_and_dedupes() {
    let text = "# header\nexample.com\nExample.com\n\nhttps://www.foo.com/x\nnot a domain\n";
    let (list, warnings) = Blocklist::parse(text);
    assert_eq!(list.len(), 2); // example.com (deduped) + www.foo.com
    assert!(list.is_blocked("sub.example.com"));
    assert!(list.is_blocked("www.foo.com"));
    assert_eq!(warnings.len(), 1);
    assert_eq!(warnings[0].content, "not a domain");
}

#[test]
fn add_remove_and_merge() {
    let mut a = Blocklist::new();
    assert!(a.add("a.com"));
    assert!(!a.add("a.com"));
    let mut b = Blocklist::new();
    b.add("b.com");
    a.merge(&b);
    assert!(a.is_blocked("x.a.com"));
    assert!(a.is_blocked("b.com"));
    assert!(a.remove("a.com"));
    assert!(!a.is_blocked("a.com"));
}

#[test]
fn parse_warning_reports_line_and_reason() {
    let (_, warnings) = Blocklist::parse("ok.com\n\n  bad domain  \n");
    assert_eq!(warnings.len(), 1);
    assert_eq!(warnings[0].line, 3);
    assert_eq!(warnings[0].content, "bad domain");
    assert_eq!(warnings[0].reason, "not a valid domain");
}

#[test]
fn sorted_is_ascending_and_exact() {
    let (list, _) = Blocklist::parse("zeta.com\nalpha.com\nmid.org\nalpha.com\n");
    assert_eq!(list.sorted(), vec!["alpha.com", "mid.org", "zeta.com"]);
    assert!(list.contains_exact("ALPHA.com"));
    assert!(!list.contains_exact("www.alpha.com"));
    assert!(!Blocklist::new().is_blocked("alpha.com"));
    assert!(Blocklist::new().is_empty());
}

#[test]
fn merge_is_a_union() {
    let (a, _) = Blocklist::parse("a.com\nshared.com\n");
    let (b, _) = Blocklist::parse("b.com\nshared.com\n");
    let mut m = a.clone();
    m.merge(&b);
    assert_eq!(m.len(), 3);
    for d in ["a.com", "b.com", "shared.com"] {
        assert!(m.contains_exact(d));
    }
}

// ---------------------------------------------------------------------------
// domain
// ---------------------------------------------------------------------------

#[test]
fn normalizes_urls_and_wildcards() {
    assert_eq!(normalize("Example.COM"), Some("example.com".into()));
    assert_eq!(normalize("https://www.Example.com/path?x=1"), Some("www.example.com".into()));
    assert_eq!(normalize("*.ads.example.com"), Some("ads.example.com".into()));
    assert_eq!(normalize("example.com:8443"), Some("example.com".into()));
    assert_eq!(normalize("  example.com.  "), Some("example.com".into()));
    assert_eq!(normalize("user@example.com"), Some("example.com".into()));
}

#[test]
fn rejects_junk() {
    assert_eq!(normalize(""), None);
    assert_eq!(normalize("# comment"), None);
    assert_eq!(normalize("localhost"), None); // single label
    assert_eq!(normalize("1.2.3.4"), None); // bare ipv4
    assert_eq!(normalize("-bad.example.com"), None);
}

#[test]
fn suffix_matching() {
    let mut set = StringHashSet::new();
    set.insert("example.com".to_string());
    assert!(is_blocked_by("example.com", &set));
    assert!(is_blocked_by("www.example.com", &set));
    assert!(is_blocked_by("a.b.example.com", &set));
    assert!(is_blocked_by("Example.Com.", &set));
    assert!(!is_blocked_by("notexample.com", &set));
    assert!(!is_blocked_by("example.com.evil.com", &set));
}

#[test]
fn parent_suffixes_list_every_parent() {
    assert_eq!(parent_suffixes("a.b.example.com"), vec!["a.b.example.com", "b.example.com", "example.com", "com"]);
    assert_eq!(parent_suffixes("com"), vec!["com"]);
}

// ---------------------------------------------------------------------------
// hosts
// ---------------------------------------------------------------------------

const V4: &str = "0.0.0.0";
const V6: &str = "::";

#[test]
fn inserts_and_preserves_surrounding_bytes() {
    let original = "127.0.0.1 localhost\r\n::1 localhost\r\n";
    let domains = vec!["bad.com".to_string()];
    let out = upsert_section(original, &domains, V4, V6).unwrap();
    assert!(out.starts_with("127.0.0.1 localhost\r\n::1 localhost\r\n"));
    assert!(out.contains("# >>> SANCTUM START"));
    assert!(out.contains("0.0.0.0 bad.com"));
    assert!(out.contains(":: bad.com"));
    assert!(out.contains("0.0.0.0 www.bad.com"));
    assert!(out.contains("# <<< SANCTUM END"));
}

#[test]
fn upsert_is_idempotent_in_count() {
    let original = "127.0.0.1 localhost\n";
    let out1 = upsert_section(original, &["a.com".into()], V4, V6).unwrap();
    let out2 = upsert_section(&out1, &["a.com".into(), "b.com".into()], V4, V6).unwrap();
    assert_eq!(out2.matches("# >>> SANCTUM START").count(), 1);
    assert_eq!(out2.matches("# <<< SANCTUM END").count(), 1);
    assert!(out2.contains("0.0.0.0 b.com"));
}

#[test]
fn second_upsert_of_the_same_list_changes_nothing() {
    let ds: Vec<String> = vec!["a.com".into(), "b.org".into()];
    for original in ["127.0.0.1 localhost\n", "127.0.0.1 localhost\r\nx\r\n", "", "no newline"] {
        let once = upsert_section(original, &ds, V4, V6).unwrap();
        let twice = upsert_section(&once, &ds, V4, V6).unwrap();
        assert_eq!(twice, once);
    }
    // A section-less LF file ending in a bare CR gains a CRLF on the first
    // upsert, so the second one renders in CRLF.
    let odd = "a\nb\r";
    let once = upsert_section(odd, &ds, V4, V6).unwrap();
    assert!(once.starts_with("a\nb\r\n\n# >>> SANCTUM START\n"));
    let twice = upsert_section(&once, &ds, V4, V6).unwrap();
    assert_ne!(twice, once);
}

#[test]
fn remove_restores_original() {
    let original = "127.0.0.1 localhost\r\nsome other line\r\n";
    let with = upsert_section(original, &["x.com".into()], V4, V6).unwrap();
    let without = remove_section(&with).unwrap();
    // Surrounding lines are intact; our section is gone.
    assert!(without.contains("127.0.0.1 localhost"));
    assert!(without.contains("some other line"));
    assert!(!without.contains("SANCTUM"));
}

#[test]
fn detects_unbalanced_markers() {
    let bad = "# >>> SANCTUM START\n0.0.0.0 a.com\n# >>> SANCTUM START\n# <<< SANCTUM END\n";
    assert!(!markers_balanced(bad));
    assert!(section_byte_range(bad).is_err());

    let end_before_start = "# <<< SANCTUM END\n# >>> SANCTUM START\n";
    assert!(!markers_balanced(end_before_start));

    let clean = "127.0.0.1 localhost\n";
    assert!(markers_balanced(clean));
    assert!(section_byte_range(clean).unwrap().is_none());
}

#[test]
fn unbalanced_markers_error_message() {
    let bad = "# >>> SANCTUM START\n# >>> SANCTUM START\n# <<< SANCTUM END\n";
    match upsert_section(bad, &[], V4, V6) {
        Err(sanctum::error::Error::Hosts(m)) => {
            assert_eq!(m, "hosts markers unbalanced: 2 START / 1 END (expected 1 each)")
        }
        other => panic!("unexpected: {other:?}"),
    }
    match remove_section("# <<< SANCTUM END\n# >>> SANCTUM START\n") {
        Err(sanctum::error::Error::Hosts(m)) => {
            assert_eq!(m, "hosts END marker appears before START marker")
        }
        other => panic!("unexpected: {other:?}"),
    }
}

#[test]
fn section_range_and_newline_style() {
    let c = "a\n# >>> SANCTUM START\nx\n# <<< SANCTUM END\nb\n";
    assert_eq!(section_byte_range(c).unwrap(), Some((2, 42)));
    // A file with LF endings keeps LF; an empty file gets CRLF.
    let lf = upsert_section("a\n", &["q.com".into()], V4, V6).unwrap();
    assert!(!lf.contains('\r'));
    let crlf = upsert_section("", &["q.com".into()], V4, V6).unwrap();
    assert!(crlf.starts_with("# >>> SANCTUM START\r\n"));
    assert!(crlf.ends_with("# <<< SANCTUM END\r\n"));
}

#[test]
fn remove_after_upsert_adds_only_a_separator() {
    let original = "127.0.0.1 localhost\n";
    let with = upsert_section(original, &["x.com".into()], V4, V6).unwrap();
    assert_eq!(remove_section(&with).unwrap(), "127.0.0.1 localhost\n\n");
    let unterminated = "127.0.0.1 localhost";
    let with = upsert_section(unterminated, &["x.com".into()], V4, V6).unwrap();
    assert_eq!(remove_section(&with).unwrap(), "127.0.0.1 localhost\r\n\r\n");
}

// ---------------------------------------------------------------------------
// keyword
// ---------------------------------------------------------------------------

fn set() -> KeywordSet {
    KeywordSet::parse(
        "# distinctive, safe anywhere in a label\n\
         ~porn\n\
         ~hentai\n\
         ~camgirl\n\
         # short or ambiguous: whole token only\n\
         sex\n\
         anal\n\
         cunt\n\
         xxx\n",
    )
}

#[test]
fn substring_rules_catch_the_long_tail() {
    let s = set();
    assert!(s.is_blocked("freeporn.com"));
    assert!(s.is_blocked("www.someporntube.net"));
    assert!(s.is_blocked("best-hentai-site.org"));
    assert!(s.is_blocked("camgirls.example"));
    // hyphens and digits split tokens but substrings still match
    assert!(s.is_blocked("free-porn-4-you.net"));
}

#[test]
fn token_rules_do_not_scunthorpe() {
    let s = set();
    // The whole point: these must NOT be blocked.
    assert!(!s.is_blocked("essex.ac.uk"));
    assert!(!s.is_blocked("sussex.ac.uk"));
    assert!(!s.is_blocked("middlesex.gov.uk"));
    assert!(!s.is_blocked("analytics.google.com"));
    assert!(!s.is_blocked("google-analytics.com"));
    assert!(!s.is_blocked("scunthorpe.gov.uk"));
    assert!(!s.is_blocked("canal-boats.co.uk"));
    assert!(!s.is_blocked("sexualhealth.org"));

    // But the bare token still matches.
    assert!(s.is_blocked("sex.com"));
    assert!(s.is_blocked("www.sex.example"));
    assert!(s.is_blocked("anal.example.com"));
}

#[test]
fn matches_adult_tlds_via_labels() {
    let s = set();
    assert!(s.is_blocked("example.xxx"));
    assert!(!s.is_blocked("example.com"));
}

#[test]
fn user_keywords_pin_short_words_to_tokens() {
    assert_eq!(Keyword::user("sex").mode, MatchMode::Token);
    assert_eq!(Keyword::user("anal").mode, MatchMode::Token);
    assert_eq!(Keyword::user("hentai").mode, MatchMode::Substring);
    assert_eq!(Keyword::user("  PORNO ").word, "porno");

    let mut s = KeywordSet::new();
    s.extend(vec![Keyword::user("sex"), Keyword::user("fetish")]);
    assert!(!s.is_blocked("essex.ac.uk")); // short -> token only
    assert!(s.is_blocked("myfetishsite.com")); // long -> substring
}

#[test]
fn parsing_and_dedup() {
    let s = KeywordSet::parse("~porn\nporn\n# comment\n\n  sex  \n");
    assert_eq!(s.len(), 2); // duplicate word ignored regardless of mode
    assert!(s.is_blocked("freeporn.com"));
    let empty = KeywordSet::new();
    assert!(!empty.is_blocked("anything.com"));
    assert!(empty.is_empty());
}

#[test]
fn reports_which_keyword_matched() {
    let s = set();
    assert_eq!(s.match_of("freeporn.com").unwrap().word, "porn");
    assert_eq!(s.match_of("sex.com").unwrap().word, "sex");
    assert!(s.match_of("example.org").is_none());
}

#[test]
fn keyword_matching_is_case_insensitive_and_ignores_trailing_dots() {
    let s = set();
    assert!(s.is_blocked("  FreePorn.COM.  "));
    assert!(s.is_blocked("SEX.com"));
    assert!(!s.is_blocked("..."));
    let mut k = KeywordSet::new();
    k.insert(Keyword::token("   "));
    assert!(k.is_empty()); // an empty word is never a rule
}

// ---------------------------------------------------------------------------
// paths
// ---------------------------------------------------------------------------

#[test]
fn paths_are_under_program_data() {
    let pd = program_data(None);
    let data = data_dir(&pd);
    assert!(db_path(&pd).starts_with(&format!("{data}\\")));
    assert!(hosts_path(&system_root(None)).ends_with(r"drivers\etc\hosts"));
}

#[test]
fn paths_join_with_backslashes() {
    assert_eq!(data_dir(r"C:\ProgramData"), r"C:\ProgramData\Sanctum");
    assert_eq!(data_dir(r"D:\Data\"), r"D:\Data\Sanctum");
    assert_eq!(db_path(r"C:\ProgramData"), r"C:\ProgramData\Sanctum\sanctum.db");
    assert_eq!(hosts_path(r"C:\Windows"), r"C:\Windows\System32\drivers\etc\hosts");
    assert_eq!(program_data(Some(r"E:\PD")), r"E:\PD");
}

// ---------------------------------------------------------------------------
// safesearch
// ---------------------------------------------------------------------------

#[test]
fn parses_and_looks_up() {
    let text = "# c\ngoogle.com  forcesafesearch.google.com\nwww.youtube.com restrict.youtube.com\nbad line\n";
    let (m, warnings) = SafeSearchMap::parse(text);
    assert_eq!(m.len(), 2);
    assert_eq!(m.lookup("Google.com"), Some("forcesafesearch.google.com"));
    assert_eq!(m.lookup("www.youtube.com"), Some("restrict.youtube.com"));
    assert_eq!(m.lookup("example.com"), None);
    assert!(m.targets().contains("restrict.youtube.com"));
    assert_eq!(warnings.len(), 1);
}

#[test]
fn safesearch_warnings_name_the_line() {
    let (m, warnings) = SafeSearchMap::parse("a.com b.com\nonlyone\nx.com -bad-\na.com c.com\n");
    assert_eq!(warnings, vec!["line 2: expected '<host> <target>'", "line 3: invalid host or target"]);
    // A later line for the same host replaces the earlier target.
    assert_eq!(m.len(), 1);
    assert_eq!(m.lookup(".A.COM."), Some("c.com"));
}

#[test]
fn normalizing_twice_changes_nothing() {
    for raw in [
        "https://User@WWW.Example.COM:8443/path?q=1#frag",
        "*.*.Ads.Example.com.",
        "  Sub.Domain.ORG  # comment",
        "http://[bad]",
        "",
    ] {
        let once = normalize(raw);
        if let Some(h) = &once {
            assert_eq!(normalize(h), once);
        }
    }
    assert_eq!(normalize("https://User@WWW.Example.COM:8443/path"), Some("www.example.com".to_string()));
}
