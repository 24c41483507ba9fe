use proviz::providers::{
    bridge_results, BridgeEntry,
    body_or_excerpts, classify_status, content_output, extract_domain, finish_results, hits_to_results,
    join_excerpts, make_content, map_status, non_empty, pick_body, resolve_format, resolve_market,
    sanitize_results, snippet_or_excerpts, truncate_results, ContentDoc, ProviderError, RawHit, StatusClass,
};
use proviz::models::{FullContent, SearchResult};
use proviz::rate_limit::ErrorType;

fn result(url: &str, domain: &str) -> SearchResult {
    SearchResult {
        url: url.into(),
        title: "t".into(),
        snippet: "s".into(),
        domain: domain.into(),
        rank: 0,
        published_date: None,
        language: None,
        full_content: None,
        extra_snippets: None,
    }
}

fn hit(url: &str) -> RawHit {
    RawHit {
        url: url.into(),
        title: "T".into(),
        snippet: "S".into(),
        published_date: Some("2024-02-01".into()),
        language: None,
        full_content: None,
    }
}

#[test]
fn status_classes() {
    assert_eq!(classify_status(200, false), StatusClass::Success);
    assert_eq!(classify_status(429, false), StatusClass::RateLimit);
    assert_eq!(classify_status(403, false), StatusClass::Blocked);
    assert_eq!(classify_status(401, false), StatusClass::Failure);
    assert_eq!(classify_status(401, true), StatusClass::Blocked);
    assert_eq!(classify_status(500, true), StatusClass::Failure);
    assert!(map_status(204).is_none());
    assert!(matches!(map_status(429), Some(ProviderError::RateLimit)));
    assert!(matches!(map_status(401), Some(ProviderError::Blocked)));
    match map_status(502) {
        Some(ProviderError::Http { status, message }) => {
            assert_eq!(status, 502);
            assert!(message.is_empty());
        }
        other => panic!("unexpected {other:?}"),
    }
}

#[test]
fn error_kinds() {
    assert_eq!(ProviderError::RateLimit.error_type(), ErrorType::Rpm);
    assert_eq!(ProviderError::Blocked.error_type_str(), "auth");
    assert_eq!(ProviderError::Timeout.error_type_str(), "timeout");
    assert_eq!(ProviderError::Empty.error_type_str(), "empty");
    assert_eq!(ProviderError::Parse("x".into()).error_type_str(), "error");
    assert!(ProviderError::Blocked.is_ip_related());
    assert!(!ProviderError::Timeout.is_ip_related());
}

#[test]
fn domains_drop_www() {
    assert_eq!(extract_domain("https://www.example.com/a"), "example.com");
    assert_eq!(extract_domain("https://www.www.x.org"), "x.org");
    assert_eq!(extract_domain("http://sub.example.com:8080/x"), "sub.example.com");
    assert_eq!(extract_domain("/relative/path"), "");
    assert_eq!(extract_domain("not a url"), "");
}

#[test]
fn results_are_sanitized_ranked_and_truncated() {
    let results = vec![
        result("https://a.test/1", "a.test"),
        result("ftp://nope", "nope"),
        result("https://b.test/2", ""),
        result("http://c.test/3", "c.test"),
    ];
    let kept = sanitize_results(results);
    let urls: Vec<&str> = kept.iter().map(|r| r.url.as_str()).collect();
    assert_eq!(urls, vec!["https://a.test/1", "http://c.test/3"]);

    let mut many = vec![result("https://a.test/1", "a.test"), result("https://a.test/2", "a.test")];
    truncate_results(&mut many, 1);
    assert_eq!(many.len(), 1);

    assert!(matches!(finish_results(vec![]), Err(ProviderError::Empty)));
    let out = finish_results(vec![result("https://a.test/1", "a.test")]).unwrap();
    assert_eq!(out.results.len(), 1);
    assert!(out.effective_slug.is_none());

    let ranked = hits_to_results(vec![hit("https://www.a.test/1"), hit("https://b.test/2")]);
    assert_eq!(ranked[0].domain, "a.test");
    assert_eq!(ranked[1].rank, 1);
    assert_eq!(ranked[0].published_date.as_deref(), Some("2024-02-01"));
}

#[test]
fn snippets_from_excerpts() {
    assert_eq!(join_excerpts(&vec!["e1".into(), "e2".into()]), "e1 … e2");
    assert_eq!(snippet_or_excerpts("".into(), &vec!["one".into(), "two".into()]), "one … two");
    assert_eq!(snippet_or_excerpts("desc".into(), &vec!["one".into()]), "desc");
    assert_eq!(body_or_excerpts(None, &vec!["part one".into(), "part two".into()]), "part one\n\npart two");
    assert_eq!(body_or_excerpts(Some("# full body".into()), &vec!["snip".into()]), "# full body");
    assert_eq!(body_or_excerpts(Some("".into()), &vec!["snip".into()]), "snip");
}

#[test]
fn formats_and_markets() {
    assert_eq!(resolve_format("html"), ("html", "html"));
    assert_eq!(resolve_format("text"), ("markdown", "markdown"));
    assert_eq!(resolve_market(Some("EN"), None), Some("en-us"));
    assert_eq!(resolve_market(None, Some("gb")), Some("en-us"));
    assert_eq!(resolve_market(Some("de"), Some("at")), Some("de-de"));
    assert_eq!(resolve_market(None, Some("FR")), Some("fr-fr"));
    assert_eq!(resolve_market(Some("ja"), Some("jp")), None);
    assert_eq!(pick_body("html", Some("md".into()), Some("<p>".into())).as_deref(), Some("<p>"));
    assert_eq!(pick_body("markdown", Some("".into()), Some("<p>".into())), None);
}

#[test]
fn content_marks_missing_urls_failed() {
    let requested = vec!["https://a.test/1".to_string(), "https://b.test/2".to_string()];
    let page = ContentDoc {
        url: "https://a.test/1".into(),
        title: Some("A".into()),
        published_date: None,
        content: make_content("# full body".into(), "markdown"),
    };
    let out = content_output(vec![page], &requested);
    assert_eq!(out.docs.len(), 1);
    assert_eq!(out.docs[0].content.text, "# full body");
    assert_eq!(out.docs[0].content.format, "markdown");
    assert_eq!(out.docs[0].content.length, 11);
    assert_eq!(out.failed, vec![("https://b.test/2".to_string(), "no content returned".to_string())]);
    let c: FullContent = make_content("é".into(), "text");
    assert_eq!(c.length, 2);
}

// The provider answers below are the decoded JSON bodies of the provider
// tests, handed to the library's mapping as the adapters hand them.

#[test]
fn parses_search_results() {
    // {"results":[{"url":"https://a.test/1","title":"A","publish_date":"2024-02-01","excerpts":["e1","e2"]},
    //             {"url":"ftp://nope","title":"bad","excerpts":[]}]}
    let items: Vec<(&str, &str, Option<&str>, Vec<String>)> = vec![
        ("https://a.test/1", "A", Some("2024-02-01"), vec!["e1".into(), "e2".into()]),
        ("ftp://nope", "bad", None, vec![]),
    ];
    let hits = items
        .into_iter()
        .map(|(url, title, date, excerpts)| RawHit {
            url: url.into(),
            title: title.into(),
            snippet: join_excerpts(&excerpts),
            published_date: date.map(|d| d.to_string()),
            language: None,
            full_content: None,
        })
        .collect();
    let mut results = sanitize_results(hits_to_results(hits));
    truncate_results(&mut results, 10);
    assert_eq!(results.len(), 1);
    assert_eq!(results[0].snippet, "e1 … e2");
    assert_eq!(results[0].published_date.as_deref(), Some("2024-02-01"));
}

fn extract_docs(items: Vec<(&str, Option<&str>, Vec<String>, Option<&str>)>, requested: &Vec<String>) -> proviz::providers::ContentOutput {
    let docs = items
        .into_iter()
        .filter_map(|(url, title, excerpts, full)| {
            let body = body_or_excerpts(full.map(|f| f.to_string()), &excerpts);
            non_empty(Some(body)).map(|text| ContentDoc {
                url: url.into(),
                title: title.map(|t| t.to_string()),
                published_date: None,
                content: make_content(text, "markdown"),
            })
        })
        .collect();
    content_output(docs, requested)
}

#[test]
fn extract_prefers_full_content_and_flags_missing() {
    let requested = vec!["https://a.test/1".to_string(), "https://b.test/2".to_string()];
    let out = extract_docs(vec![("https://a.test/1", Some("A"), vec!["snip".into()], Some("# full body"))], &requested);
    assert_eq!(out.docs.len(), 1);
    assert_eq!(out.docs[0].content.text, "# full body");
    assert_eq!(out.docs[0].content.format, "markdown");
    assert_eq!(out.failed.len(), 1);
    assert_eq!(out.failed[0].0, "https://b.test/2");
}

#[test]
fn extract_falls_back_to_excerpts() {
    let requested = vec!["https://a.test/1".to_string()];
    let out = extract_docs(vec![("https://a.test/1", None, vec!["part one".into(), "part two".into()], None)], &requested);
    assert_eq!(out.docs[0].content.text, "part one\n\npart two");
}

fn you_search(
    items: Vec<(&str, &str, &str, Vec<String>, Option<&str>, Option<&str>)>,
    n: usize,
    full_content: Option<&str>,
) -> Vec<SearchResult> {
    let hits = items
        .into_iter()
        .map(|(url, title, description, snippets, page_age, markdown)| {
            let content = full_content.and_then(|hint| {
                let label = resolve_format(hint).1;
                pick_body(label, markdown.map(|m| m.to_string()), None).map(|text| make_content(text, label))
            });
            RawHit {
                snippet: snippet_or_excerpts(description.into(), &snippets),
                url: url.into(),
                title: title.into(),
                published_date: page_age.map(|p| p.to_string()),
                language: None,
                full_content: content,
            }
        })
        .collect();
    let mut results = sanitize_results(hits_to_results(hits));
    truncate_results(&mut results, n);
    results
}

#[test]
fn parses_search_results_and_full_content() {
    let results = you_search(
        vec![
            ("https://a.test/1", "A", "desc a", vec!["s1".into(), "s2".into()], Some("2024-01-01"), Some("# body a")),
            ("/relative", "bad", "x", vec![], None, None),
        ],
        10,
        Some("markdown"),
    );
    assert_eq!(results.len(), 1, "relative URL dropped by sanitize");
    assert_eq!(results[0].url, "https://a.test/1");
    assert_eq!(results[0].snippet, "desc a");
    let fc = results[0].full_content.as_ref().unwrap();
    assert_eq!(fc.format, "markdown");
    assert_eq!(fc.text, "# body a");
}

#[test]
fn search_snippet_falls_back_to_snippets_array() {
    let results = you_search(
        vec![("https://a.test/1", "A", "", vec!["one".into(), "two".into()], None, None)],
        10,
        None,
    );
    assert_eq!(results[0].snippet, "one … two");
    assert!(results[0].full_content.is_none());
}

#[test]
fn contents_marks_missing_urls_failed() {
    let requested = vec!["https://a.test/1".to_string(), "https://b.test/2".to_string()];
    let (_, label) = resolve_format("markdown");
    let docs = vec![("https://a.test/1", Some("A"), Some("# body"))]
        .into_iter()
        .filter_map(|(url, title, markdown)| {
            let body = pick_body(label, markdown.map(|m: &str| m.to_string()), None)?;
            Some(ContentDoc {
                url: url.into(),
                title: title.map(|t: &str| t.to_string()),
                published_date: None,
                content: make_content(body, label),
            })
        })
        .collect();
    let out = content_output(docs, &requested);
    assert_eq!(out.docs.len(), 1);
    assert_eq!(out.docs[0].content.format, "markdown");
    assert_eq!(out.failed.len(), 1);
    assert_eq!(out.failed[0].0, "https://b.test/2");
}

#[test]
fn bridge_entries_without_url_are_dropped() {
    let entries = vec![
        BridgeEntry { url: Some("https://www.a.test/1".into()), title: Some("A".into()), snippet: None },
        BridgeEntry { url: None, title: Some("no url".into()), snippet: Some("x".into()) },
        BridgeEntry { url: Some("https://b.test/2".into()), title: None, snippet: Some("s".into()) },
    ];
    let results = bridge_results(entries);
    assert_eq!(results.len(), 2);
    assert_eq!((results[0].rank, results[0].domain.as_str(), results[0].title.as_str()), (0, "a.test", "A"));
    assert_eq!(results[0].snippet, "");
    assert_eq!((results[1].rank, results[1].title.as_str(), results[1].snippet.as_str()), (2, "", "s"));
}
