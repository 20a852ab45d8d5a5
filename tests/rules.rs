use firefox_router::config::{filter_args, AppConfig, ConfigError, MyRegex};
use firefox_router::firefox::{
    firefox_arguments, get_firefox_info, is_firefox_executable, precedes, preferred_firefox,
    FirefoxInfo,
};
use firefox_router::glob::{glob_to_pattern, is_regex_meta_character, Glob, GlobError};

fn compile(glob: &str) -> Glob {
    match Glob::new(glob) {
        Ok(g) => g,
        Err(e) => panic!("glob '{glob}' refused: {}", e.message()),
    }
}

fn strings(items: &[&str]) -> Vec<String> {
    items.iter().map(|s| s.to_string()).collect()
}

fn config(globs: &[&str], regexes: &[&str]) -> AppConfig {
    match AppConfig::from_patterns(&strings(globs), &strings(regexes)) {
        Ok(c) => c,
        Err(e) => panic!("configuration refused: {e:?}"),
    }
}

#[test]
fn pattern_of_plain_glob() {
    assert_eq!(glob_to_pattern("https://example.com", 5), r"(?i)^https://example\.com/?$");
}

#[test]
fn pattern_of_glob_with_query() {
    assert_eq!(
        glob_to_pattern("https://a.com/search?q=*", 5),
        r"(?i)^https://a\.com/search\?q=.*?$"
    );
}

#[test]
fn pattern_of_protocol_wildcard() {
    assert_eq!(glob_to_pattern("**://x", 2), r"(?i)^[^\.:/]*?://x/?$");
}

#[test]
fn pattern_of_triple_star() {
    assert_eq!(
        glob_to_pattern("https://***example.com", 5),
        r"(?i)^https://.*?[^\.:/]*?example\.com/?$"
    );
}

#[test]
fn pattern_keeps_single_trailing_slash() {
    assert_eq!(glob_to_pattern("https://example.com/", 5), r"(?i)^https://example\.com/?$");
}

#[test]
fn pattern_without_protocol() {
    assert_eq!(glob_to_pattern("example.com/a", 0), r"(?i)^example\.com/?a/?$");
}

#[test]
fn pattern_escapes_dollar_before_anchor() {
    assert_eq!(glob_to_pattern("https://a?b$", 5), r"(?i)^https://a\?b\$$");
}

#[test]
fn meta_characters() {
    for c in ['\\', '.', '+', '*', '?', '(', ')', '|', '[', ']', '{', '}', '^', '$', '#', '&', '-', '~'] {
        assert!(is_regex_meta_character(c), "{c}");
    }
    for c in ['a', 'Z', '/', ':', '=', '%', '_'] {
        assert!(!is_regex_meta_character(c), "{c}");
    }
}

#[test]
fn missing_separator_message_is_exact() {
    match Glob::new("no-protocol") {
        Err(e) => {
            assert!(matches!(&e, GlobError::MissingProtocolSeparator(g) if g == "no-protocol"));
            assert_eq!(e.message(), "Invalid glob 'no-protocol', missing protocol separator '://'");
        },
        Ok(_) => panic!("a glob without separator was accepted"),
    }
}

#[test]
fn single_colon_slash_is_not_a_separator() {
    assert!(Glob::new("https:/example.com").is_err());
    assert!(Glob::new("https:example.com").is_err());
}

#[test]
fn case_flipped_candidate_matches() {
    let g = compile("https://Example.com/Path?q=*");
    assert!(g.is_match("HTTPS://EXAMPLE.COM/PATH?q=X"));
    assert!(g.is_match("https://example.com/path?Q=x"));
    assert!(!g.is_match("https://example.org/path?q=x"));
}

#[test]
fn segment_wildcard_does_not_cross_colon() {
    let g = compile("https://*.example.com");
    assert!(g.is_match("https://www.example.com"));
    assert!(!g.is_match("https://a.b.example.com"));
    assert!(!g.is_match("https://a:b.example.com"));
}

#[test]
fn unbounded_wildcard_matches_empty_and_dots() {
    let g = compile("https://**example.com");
    assert!(g.is_match("https://example.com"));
    assert!(g.is_match("https://a.b.c.example.com"));
}

#[test]
fn query_wildcard_crosses_ampersand() {
    let g = compile("https://example.com/search?q=*");
    assert!(g.is_match("https://example.com/search?q=a&b=c"));
}

#[test]
fn trailing_slash_is_symmetric() {
    assert!(compile("https://example.com").is_match("https://example.com/"));
    assert!(compile("https://example.com").is_match("https://example.com"));
    assert!(compile("https://example.com/").is_match("https://example.com"));
}

#[test]
fn protocol_slashes_are_required() {
    let g = compile("https://example.com");
    assert!(!g.is_match("https:example.com"));
    assert!(!g.is_match("https:/example.com"));
}

#[test]
fn plus_is_literal() {
    let g = compile("https://example.com/a+b");
    assert!(g.is_match("https://example.com/a+b"));
    assert!(!g.is_match("https://example.com/aab"));
}

#[test]
fn bare_candidate_uses_part_after_separator() {
    let g = compile("https://example.com/path");
    assert!(g.is_match("example.com/path"));
    assert!(!g.is_match("example.com/other"));
}

#[test]
fn no_doubled_anchor_for_plain_globs() {
    for glob in ["https://example.com", "https://example.com/", "https://a/b?c=d", "**://**"] {
        let p = glob_to_pattern(glob, glob.find("://").unwrap());
        assert!(!p.contains("$$"), "{p}");
        assert!(p.ends_with('$'));
    }
}

#[test]
fn tracking_glob_rejects_suffix_confusion() {
    let g = compile("https://**.tracking.com/**");
    assert!(g.is_match("https://pixel.tracking.com/collect?id=123&event=click"));
    assert!(!g.is_match("https://tracking.com.evil.net/x"));
}

#[test]
fn raw_regex_matches_anywhere() {
    let r = match MyRegex::new(r"ads\.example") {
        Ok(r) => r,
        Err(e) => panic!("{e}"),
    };
    assert!(r.is_match("https://ads.example.com/x"));
    assert!(!r.is_match("https://adsXexample.com/x"));
    assert_eq!(r.as_ref().as_str(), r"ads\.example");
}

#[test]
fn filter_drops_urls_matched_by_glob_or_regex() {
    let c = config(&["https://**.tracking.com/**"], &[r"^https://ads\."]);
    let args = strings(&[
        "https://pixel.tracking.com/collect?id=1",
        "https://example.com/page",
        "https://ads.example.com/",
        "https://tracking.com.evil.net/x",
    ]);
    let kept = filter_args(Some(&c), &args);
    assert_eq!(kept, strings(&["https://example.com/page", "https://tracking.com.evil.net/x"]));
    assert!(c.is_ignored("https://ads.example.com/"));
    assert!(!c.is_ignored("https://example.com/page"));
}

#[test]
fn filter_without_config_keeps_everything() {
    let args = strings(&["https://a.com", "b.com"]);
    assert_eq!(filter_args(None, &args), args);
}

#[test]
fn filter_of_no_urls_is_empty() {
    let c = config(&["https://**"], &[]);
    assert!(filter_args(Some(&c), &Vec::new()).is_empty());
}

#[test]
fn config_refuses_glob_without_separator() {
    match AppConfig::from_patterns(&strings(&["https://ok.com", "bad"]), &Vec::new()) {
        Err(ConfigError::Glob(GlobError::MissingProtocolSeparator(g))) => assert_eq!(g, "bad"),
        Err(e) => panic!("unexpected error {e:?}"),
        Ok(_) => panic!("accepted a glob without separator"),
    }
}

#[test]
fn config_refuses_invalid_regex() {
    assert!(matches!(
        AppConfig::from_patterns(&Vec::new(), &strings(&["foo(bar"])),
        Err(ConfigError::Regex(p, _)) if p == "foo(bar"
    ));
}

#[test]
fn firefox_info_reads_profile() {
    let info = get_firefox_info(&strings(&[r"C:\ff\firefox.exe", "-url", "x", "-P", "work", "-P", "b"])).unwrap();
    assert_eq!(info.path, r"C:\ff\firefox.exe");
    assert_eq!(info.profile_name.as_deref(), Some("work"));
    let info = get_firefox_info(&strings(&["ff", "-profile", "home"])).unwrap();
    assert_eq!(info.profile_name.as_deref(), Some("home"));
}

#[test]
fn firefox_info_without_profile() {
    assert_eq!(get_firefox_info(&strings(&["ff", "-P"])).unwrap().profile_name, None);
    assert_eq!(get_firefox_info(&strings(&["ff", "-p", "x"])).unwrap().profile_name, None);
    assert!(get_firefox_info(&Vec::new()).is_none());
}

#[test]
fn firefox_executable_name_ignores_case() {
    assert!(is_firefox_executable("FireFox.EXE"));
    assert!(is_firefox_executable("firefox.exe"));
    assert!(!is_firefox_executable("firefox"));
    assert!(!is_firefox_executable("firefox.exe2"));
}

fn info(path: &str, profile: Option<&str>) -> FirefoxInfo {
    FirefoxInfo { path: path.to_string(), profile_name: profile.map(|p| p.to_string()) }
}

#[test]
fn profile_wins_over_none() {
    assert!(precedes(&info("b", Some("z")), &info("a", None)));
    assert!(!precedes(&info("a", None), &info("b", Some("z"))));
    assert!(precedes(&info("b", Some("a")), &info("a", Some("b"))));
    assert!(precedes(&info("a", Some("p")), &info("b", Some("p"))));
    assert!(!precedes(&info("a", Some("p")), &info("a", Some("p"))));
}

#[test]
fn preferred_is_first_in_order() {
    let infos = vec![info("c", None), info("b", Some("work")), info("a", Some("home")), info("a", None)];
    assert_eq!(preferred_firefox(&infos), Some(2));
    let infos = vec![info("c", None), info("a", None)];
    assert_eq!(preferred_firefox(&infos), Some(1));
    assert_eq!(preferred_firefox(&Vec::new()), None);
}

#[test]
fn launch_arguments_with_profile() {
    let profile = "work".to_string();
    let args = firefox_arguments(Some(&profile), &strings(&["u1", "u2"]));
    assert_eq!(args, strings(&["-P", "work", "-url", "u1", "-url", "u2"]));
    assert_eq!(firefox_arguments(None, &strings(&["u"])), strings(&["-url", "u"]));
    assert!(firefox_arguments(None, &Vec::new()).is_empty());
}

#[test]
fn separator_slashes_stay_mandatory_before_query() {
    assert_eq!(glob_to_pattern("https://?x", 5), r"(?i)^https://\?x$");
    let g = compile("https://?x");
    assert!(g.is_match("https://?x"));
    assert!(!g.is_match("https:/?x"));
}

#[test]
fn slash_before_query_is_optional() {
    assert_eq!(glob_to_pattern("https://a/?q", 5), r"(?i)^https://a/?\?q$");
}

#[test]
fn non_ascii_glob_compiles() {
    let g = compile("https://ü.example/ä");
    assert!(g.is_match("https://ü.example/ä"));
    assert!(g.is_match("ü.example/ä"));
    assert!(!g.is_match("https://u.example/a"));
    assert_eq!(glob_to_pattern("https://ü", 5), "(?i)^https://ü/?$");
}

#[test]
fn glob_with_separator_compiles() {
    assert!(Glob::new("a://b").is_ok());
    assert!(Glob::new("**://**").is_ok());
    assert!(Glob::new("https://[1]{2}(x)|y+$^#&-~").is_ok());
}

#[test]
fn raw_regex_keeps_its_pattern() {
    let r = MyRegex::new(r"^https://x\.").ok().unwrap();
    assert_eq!(r.as_str(), r"^https://x\.");
    assert!(MyRegex::new("(").is_err());
}

#[test]
fn config_accepts_valid_rules_in_order() {
    let c = config(&["https://a.com", "https://*.b.com"], &["^c$", "^d+$"]);
    assert_eq!(c.ignored_urls.len(), 2);
    assert_eq!(c.ignored_urls_regex.len(), 2);
    assert_eq!(c.ignored_urls_regex[1].as_str(), "^d+$");
    let copy = c.clone();
    assert!(copy.is_ignored("https://x.b.com"));
    assert!(!copy.is_ignored("https://e.com"));
}

#[test]
fn config_error_quotes_the_rule() {
    match AppConfig::from_patterns(&strings(&["https://a.com"]), &strings(&["^ok$", "foo(bar", "(("])) {
        Err(e) => {
            assert!(matches!(&e, ConfigError::Regex(p, _) if p == "foo(bar"));
            assert!(e.message().contains("foo(bar"));
        },
        Ok(_) => panic!("accepted an invalid regex"),
    }
    match AppConfig::from_patterns(&strings(&["https://a.com", "nope", "bad"]), &Vec::new()) {
        Err(e) => assert!(e.message().contains("nope") && e.message().contains("://")),
        Ok(_) => panic!("accepted a glob without separator"),
    }
}

#[test]
fn bare_candidate_slashes_are_optional() {
    assert_eq!(glob_to_pattern("a/b", 0), r"(?i)^a/?b/?$");
    let g = compile("https://a/b");
    assert!(g.is_match("https://ab"));
    assert!(g.is_match("ab"));
    assert!(g.is_match("a/b"));
}
