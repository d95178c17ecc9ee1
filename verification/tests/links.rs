use chime::links::{HttpsUrl, ParsedUrl, UrlError};

#[test]
fn secure_links_are_normalized() {
    let url = HttpsUrl::new("HTTPS://Example.COM").unwrap();
    assert_eq!(url.as_str(), "https://example.com/");
    assert_eq!(url.host(), "example.com");
}

#[test]
fn other_links_are_refused() {
    assert!(matches!(HttpsUrl::new("not a url"), Err(UrlError::Parse(_))));
    assert!(matches!(HttpsUrl::new(""), Err(UrlError::Parse(_))));
    assert!(
        matches!(HttpsUrl::new("http://example.com"), Err(UrlError::NotHttps(s)) if s == "http")
    );
    assert!(matches!(HttpsUrl::new("mailto:a@b"), Err(UrlError::NotHttps(s)) if s == "mailto"));
    match HttpsUrl::new("https://") {
        Err(UrlError::Parse(reason)) => assert_eq!(reason, "empty host"),
        other => panic!("{other:?}"),
    }
}

#[test]
fn parse_results_are_judged() {
    let parsed = |scheme: &str, host: Option<&str>| ParsedUrl {
        text: "t".to_string(),
        scheme: scheme.to_string(),
        host: host.map(str::to_string),
    };
    let url = HttpsUrl::from_parsed(Ok(parsed("https", Some("h")))).unwrap();
    assert_eq!((url.as_str(), url.host()), ("t", "h"));
    assert!(matches!(
        HttpsUrl::from_parsed(Ok(parsed("https", None))),
        Err(UrlError::NoHost)
    ));
    assert!(matches!(
        HttpsUrl::from_parsed(Ok(parsed("ftp", None))),
        Err(UrlError::NotHttps(s)) if s == "ftp"
    ));
    assert!(matches!(
        HttpsUrl::from_parsed(Err("why".to_string())),
        Err(UrlError::Parse(s)) if s == "why"
    ));
}
