use dirust::error::DirustError;
use dirust::url::normalize_base;

#[test]
fn base_without_scheme_is_rejected() {
    assert!(matches!(normalize_base("example.com"), Err(DirustError::InvalidBaseUrl)));
}

#[test]
fn base_without_trailing_slash_gets_one() {
    assert_eq!(normalize_base("http://x").unwrap(), "http://x/");
    assert_eq!(normalize_base("http://example.com").unwrap(), "http://example.com/");
    assert_eq!(normalize_base("https://x/y").unwrap(), "https://x/y/");
}

#[test]
fn base_with_trailing_slash_is_unchanged() {
    assert_eq!(normalize_base("https://x/y/").unwrap(), "https://x/y/");
    assert_eq!(normalize_base("http://x/").unwrap(), "http://x/");
}

#[test]
fn base_is_trimmed() {
    assert_eq!(normalize_base("  http://x \n").unwrap(), "http://x/");
    assert_eq!(normalize_base("\thttps://x/y/\r\n").unwrap(), "https://x/y/");
}

#[test]
fn other_schemes_are_rejected() {
    for base in ["ftp://example.com", "file:///etc", "//x", "http:/x", "htt", "", "   ", "HTTP://x", "xhttp://x"] {
        assert!(matches!(normalize_base(base), Err(DirustError::InvalidBaseUrl)), "{:?}", base);
    }
}

#[test]
fn bare_scheme_is_accepted_as_it_is() {
    assert_eq!(normalize_base("http://").unwrap(), "http://");
    assert_eq!(normalize_base("https://").unwrap(), "https://");
}

#[test]
fn normalizing_twice_changes_nothing_more() {
    for base in ["http://x", " https://x/y ", "http://x/", "https://a/b/c"] {
        let once = normalize_base(base).unwrap();
        assert_eq!(normalize_base(&once).unwrap(), once);
        assert!(once.ends_with('/'));
    }
}
