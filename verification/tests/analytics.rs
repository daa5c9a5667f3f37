use lf_blog::analytics::{
    get_location_from_ip, parse_lowered_user_agent, parse_user_agent, VisitSource,
};
use lf_blog::compiler::CompilerState;

#[test]
fn test_parse_user_agent() {
    let (browser, os) = parse_user_agent(
        "Mozilla/5.0 (Macintosh; Intel Mac OS X 10_15_7) AppleWebKit/537.36 (KHTML, like Gecko) Chrome/120.0.0.0 Safari/537.36",
    );
    assert_eq!(browser, "Chrome");
    assert_eq!(os, "macOS");

    let (browser, os) = parse_user_agent(
        "Mozilla/5.0 (iPhone; CPU iPhone OS 16_0 like Mac OS X) AppleWebKit/605.1.15 (KHTML, like Gecko) Version/16.0 Mobile/15E148 Safari/604.1",
    );
    assert_eq!(browser, "Safari");
    assert_eq!(os, "iOS");
}

#[test]
fn user_agents_of_other_kinds() {
    assert_eq!(parse_user_agent("Mozilla/5.0 (X11; Linux x86_64; rv:120.0) Gecko Firefox/120.0"), ("Firefox".to_string(), "Linux".to_string()));
    assert_eq!(parse_user_agent("Chromium/1 CHROME ANDROID"), ("Other".to_string(), "Android".to_string()));
    assert_eq!(parse_user_agent("Opera/9 (Windows NT)"), ("Opera".to_string(), "Windows".to_string()));
    assert_eq!(parse_user_agent("Edge ipad"), ("Edge".to_string(), "iOS".to_string()));
    assert_eq!(parse_user_agent(""), ("Other".to_string(), "Other".to_string()));
}

#[test]
fn sources_have_names() {
    assert_eq!(VisitSource::from_str("direct"), Ok(VisitSource::Direct));
    assert_eq!(VisitSource::from_str("search"), Ok(VisitSource::SearchEngine));
    assert_eq!(VisitSource::from_str("social"), Ok(VisitSource::SocialMedia));
    assert_eq!(VisitSource::from_str("external"), Ok(VisitSource::ExternalLink));
    assert_eq!(VisitSource::from_str("Direct"), Ok(VisitSource::Unknown));
    assert_eq!(VisitSource::SearchEngine.to_string(), "search");
    assert_eq!(VisitSource::Unknown.to_string(), "unknown");
    assert_eq!(VisitSource::default(), VisitSource::Unknown);
}

#[test]
fn no_location_is_known() {
    assert_eq!(get_location_from_ip("8.8.8.8"), (None, None));
}

#[test]
fn compiler_state_starts_idle() {
    let s = CompilerState::new();
    assert!(!s.is_compiling);
    assert!(s.last_compile_result.is_none());
}

#[test]
fn user_agents_are_read_in_unicode_lower_case() {
    assert_eq!(parse_user_agent("SAFAR\u{130}").0, "Safari");
    assert_eq!(parse_user_agent("F\u{130}REFOX").0, "Other");
    assert_eq!(parse_user_agent("L\u{130}NUX IPHONE").1, "iOS");
    assert_eq!(parse_lowered_user_agent("SAFARI"), ("Other".to_string(), "Other".to_string()));
    assert_eq!(parse_lowered_user_agent("safari windows"), ("Safari".to_string(), "Windows".to_string()));
}
