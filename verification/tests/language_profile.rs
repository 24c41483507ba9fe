use proviz::language_profile::{LanguageProfile, ProfileMatcher};

fn profile(language: &str, country: &str, priority: &[&str], exclude: &[&str]) -> LanguageProfile {
    LanguageProfile {
        language: language.to_string(),
        country: country.to_string(),
        priority: priority.iter().map(|s| s.to_string()).collect(),
        exclude: exclude.iter().map(|s| s.to_string()).collect(),
    }
}

#[test]
fn test_specificity_order() {
    let matcher = ProfileMatcher::new(vec![
        profile("*", "*", &["a"], &[]),
        profile("fr", "*", &["b"], &[]),
        profile("fr", "fr", &["c"], &[]),
    ]);

    let p = matcher.find(Some("fr"), Some("fr")).unwrap();
    assert_eq!(p.priority[0], "c");

    let p = matcher.find(Some("fr"), Some("be")).unwrap();
    assert_eq!(p.priority[0], "b");

    let p = matcher.find(Some("de"), None).unwrap();
    assert_eq!(p.priority[0], "a");
}

#[test]
fn test_profile_specificity_exact_match() {
    let matcher = ProfileMatcher::new(vec![
        profile("*", "*", &["fallback"], &[]),
        profile("fr", "*", &["lang_match"], &[]),
        profile("fr", "fr", &["exact"], &[]),
    ]);
    let p = matcher.find(Some("fr"), Some("fr")).unwrap();
    assert_eq!(p.priority[0], "exact");
}

#[test]
fn test_profile_language_wildcard_fallback() {
    let matcher = ProfileMatcher::new(vec![
        profile("*", "*", &["catchall"], &[]),
        profile("fr", "*", &["french"], &[]),
    ]);
    let p = matcher.find(Some("fr"), Some("ca")).unwrap();
    assert_eq!(p.priority[0], "french");
}

#[test]
fn test_profile_global_fallback() {
    let matcher = ProfileMatcher::new(vec![profile("*", "*", &["global"], &[])]);
    let p = matcher.find(Some("ja"), Some("jp")).unwrap();
    assert_eq!(p.priority[0], "global");
}

#[test]
fn specificity_levels() {
    assert_eq!(profile("fr", "fr", &[], &[]).specificity(), 3);
    assert_eq!(profile("fr", "*", &[], &[]).specificity(), 2);
    assert_eq!(profile("*", "fr", &[], &[]).specificity(), 1);
    assert_eq!(profile("*", "*", &[], &[]).specificity(), 1);
}

#[test]
fn no_profile_matches_without_a_catchall() {
    let matcher = ProfileMatcher::new(vec![profile("fr", "*", &["x"], &[])]);
    assert!(matcher.find(Some("de"), Some("de")).is_none());
    assert!(matcher.find(None, None).is_none());
}

#[test]
fn matcher_keeps_most_specific_first_and_stable() {
    let matcher = ProfileMatcher::new(vec![
        profile("*", "*", &["g"], &[]),
        profile("en", "*", &["e1"], &[]),
        profile("en", "us", &["x"], &[]),
        profile("*", "us", &["e2"], &[]),
    ]);
    let order: Vec<&str> = matcher.profiles().iter().map(|p| p.priority[0].as_str()).collect();
    assert_eq!(order, vec!["x", "e1", "g", "e2"]);
}

#[test]
fn priority_position_finds_slug() {
    let p = profile("en", "*", &["mojeek", "brave", "tavily"], &[]);
    assert_eq!(p.priority_position("mojeek"), Some(0));
    assert_eq!(p.priority_position("tavily"), Some(2));
    assert_eq!(p.priority_position("serper"), None);
}

#[test]
fn test_profile_coverage_boost() {
    let profile = LanguageProfile {
        language: "en".into(),
        country: "*".into(),
        priority: vec!["mojeek".into(), "brave".into(), "tavily".into()],
        exclude: vec![],
    };
    let boost = |slug: &str| {
        let (num, den) = ProfileMatcher::coverage_boost(&profile, slug);
        num as f64 / den as f64
    };
    let boost_mojeek = boost("mojeek");
    let boost_brave = boost("brave");
    let boost_tavily = boost("tavily");
    let boost_unknown = boost("serper");

    assert!(boost_mojeek > boost_brave);
    assert!(boost_brave > boost_tavily);
    assert_eq!(boost_unknown, 0.0);
}

#[test]
fn coverage_boost_runs_from_one_to_one_over_n() {
    let p = profile("en", "*", &["a", "b", "c", "d"], &[]);
    assert_eq!(ProfileMatcher::coverage_boost(&p, "a"), (4, 4));
    assert_eq!(ProfileMatcher::coverage_boost(&p, "c"), (2, 4));
    assert_eq!(ProfileMatcher::coverage_boost(&p, "d"), (1, 4));
    assert_eq!(ProfileMatcher::coverage_boost(&p, "z"), (0, 1));
    let empty = profile("en", "*", &[], &[]);
    assert_eq!(ProfileMatcher::coverage_boost(&empty, "a"), (0, 1));
}
