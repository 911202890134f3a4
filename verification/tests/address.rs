use blaze::address::{replace_all, resolve_input, sanitize, ParsedUrl, UrlError};

const G: &str = "https://www.google.com/search?q=%s";

#[test]
fn direct_https_url_passes() {
    assert_eq!(resolve_input("https://example.com/a", G).unwrap().as_str(), "https://example.com/a");
}

#[test]
fn bare_domain_gets_https() {
    assert_eq!(resolve_input("example.com", G).unwrap().as_str(), "https://example.com/");
}

#[test]
fn phrase_becomes_search() {
    let url = resolve_input("rust browser engine", G).unwrap();
    assert!(url.as_str().starts_with("https://www.google.com/search?q=rust"));
    assert_eq!(url.as_str(), "https://www.google.com/search?q=rust+browser+engine");
}

#[test]
fn javascript_scheme_rejected() {
    assert!(matches!(resolve_input("javascript:alert(1)", G), Err(UrlError::DangerousScheme(_))));
}

#[test]
fn file_scheme_rejected() {
    assert!(matches!(resolve_input("file:///etc/passwd", G), Err(UrlError::DangerousScheme(_))));
}

#[test]
fn data_scheme_rejected() {
    assert!(matches!(resolve_input("data:text/html,<b>x</b>", G), Err(UrlError::DangerousScheme(_))));
}

#[test]
fn empty_input_rejected() {
    assert_eq!(resolve_input("   ", G), Err(UrlError::Empty));
}

#[test]
fn single_word_is_search_not_host() {
    let url = resolve_input("weather", G).unwrap();
    assert!(url.as_str().contains("google.com/search"));
}

#[test]
fn localhost_is_host() {
    assert_eq!(resolve_input("localhost:8080", G).unwrap().as_str(), "https://localhost:8080/");
}

#[test]
fn search_query_is_form_encoded() {
    let url = resolve_input("a&b=c é", G).unwrap();
    assert_eq!(url.as_str(), "https://www.google.com/search?q=a%26b%3Dc+%C3%A9");
}

#[test]
fn sanitize_checks_schemes() {
    let p = |scheme: &str| ParsedUrl { scheme: scheme.into(), serialization: String::new(), has_host: true };
    assert_eq!(sanitize(&p("https")), Ok(()));
    assert_eq!(sanitize(&p("vbscript")), Err(UrlError::DangerousScheme("vbscript".into())));
    assert_eq!(sanitize(&p("ftp")), Err(UrlError::Invalid("unsupported scheme: ftp".into())));
    assert_eq!(UrlError::Empty.message(), "empty input");
}

#[test]
fn replace_all_replaces_every_occurrence() {
    assert_eq!(replace_all("%s and %s", "%s", "x"), "x and x");
    assert_eq!(replace_all("%%ss", "%s", "y"), "%ys");
}

#[test]
fn resolved_urls_always_use_a_web_scheme() {
    for input in ["example.com", "http://example.com/x", "two words", "mailto:someone@example.com", "ftp://host/f", " localhost "] {
        let url = resolve_input(input, G).unwrap();
        assert!(url.scheme == "http" || url.scheme == "https", "{input}");
        assert_eq!(sanitize(&url), Ok(()));
    }
    assert_eq!(resolve_input("\t\n ", "http://search.example/?q=%s"), Err(UrlError::Empty));
    assert_eq!(resolve_input("plain", "http://search.example/?q=%s").unwrap().scheme, "http");
}
