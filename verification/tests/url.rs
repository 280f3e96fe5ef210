use eclipse_redirect::unreal::FString;
use eclipse_redirect::url::ParsedUrl;

fn fstr(s: &str) -> FString {
    let mut v: Vec<u16> = s.encode_utf16().collect();
    v.push(0);
    let n = v.len() as u32;
    FString { string: Some(v), length: n, max_size: n }
}

fn text(f: &FString) -> Option<String> {
    match &f.string {
        None => None,
        Some(v) => {
            let n = f.length as usize;
            let end = if n > 0 { n - 1 } else { 0 };
            Some(String::from_utf16_lossy(&v[..end]))
        }
    }
}

#[test]
fn parse_splits_all_six_pieces() {
    let url = fstr("https://ol.epicgames.com:443/fortnite/api/v2?x=1&y=2");
    let p = ParsedUrl::parse(&url);
    assert_eq!(text(&p.protocol).as_deref(), Some("https"));
    assert_eq!(text(&p.separator).as_deref(), Some("://"));
    assert_eq!(text(&p.domain).as_deref(), Some("ol.epicgames.com"));
    assert_eq!(text(&p.port).as_deref(), Some(":443"));
    assert_eq!(text(&p.path).as_deref(), Some("/fortnite/api/v2"));
    assert_eq!(text(&p.query).as_deref(), Some("?x=1&y=2"));
}

#[test]
fn parse_without_port_or_query() {
    let url = fstr("http://example.com/a/b");
    let p = ParsedUrl::parse(&url);
    assert_eq!(text(&p.protocol).as_deref(), Some("http"));
    assert_eq!(text(&p.domain).as_deref(), Some("example.com"));
    assert!(p.port.string.is_none());
    assert_eq!(text(&p.path).as_deref(), Some("/a/b"));
    assert!(p.query.string.is_none());
}

#[test]
fn parse_single_colon_separator() {
    let url = fstr("mailto:someone");
    let p = ParsedUrl::parse(&url);
    assert_eq!(text(&p.protocol).as_deref(), Some("mailto"));
    assert_eq!(text(&p.separator).as_deref(), Some(":"));
    assert_eq!(text(&p.domain).as_deref(), Some("someone"));
    assert!(p.path.string.is_none());
}

#[test]
fn parse_without_colon_keeps_everything_in_protocol() {
    let url = fstr("no-scheme-here");
    let p = ParsedUrl::parse(&url);
    assert_eq!(text(&p.protocol).as_deref(), Some("no-scheme-here"));
    assert!(p.separator.string.is_none());
    assert!(p.domain.string.is_none());
    assert!(p.port.string.is_none());
    assert!(p.path.string.is_none());
    assert!(p.query.string.is_none());
}

#[test]
fn parse_null_url_gives_null_pieces() {
    let p = ParsedUrl::parse(&FString::new());
    assert!(p.protocol.string.is_none());
    assert!(p.domain.string.is_none());
    assert!(p.path.string.is_none());
}

#[test]
fn parse_then_get_url_round_trips() {
    for s in [
        "https://ol.epicgames.com:443/fortnite/api/v2?x=1",
        "http://a/b",
        "http://host:1/",
        "abc",
        "x:y",
        "https://h.com?q",
        "",
    ] {
        let url = fstr(s);
        let back = ParsedUrl::parse(&url).get_url();
        assert_eq!(text(&back).as_deref(), Some(s));
        assert_eq!(back.length as usize, s.len() + 1);
        assert_eq!(back.max_size, back.length);
    }
}

#[test]
fn set_host_takes_backend_host_and_keeps_path_and_query() {
    let url = fstr("https://account-public-service-prod.ol.epicgames.com/account/api/oauth/token?a=b");
    let backend = fstr("http://127.0.0.1:3551");
    let mut p = ParsedUrl::parse(&url);
    p.set_host(&backend);
    assert_eq!(text(&p.protocol).as_deref(), Some("http"));
    assert_eq!(text(&p.domain).as_deref(), Some("127.0.0.1"));
    assert_eq!(text(&p.port).as_deref(), Some(":3551"));
    assert_eq!(text(&p.path).as_deref(), Some("/account/api/oauth/token"));
    assert_eq!(text(&p.query).as_deref(), Some("?a=b"));
    assert_eq!(
        text(&p.get_url()).as_deref(),
        Some("http://127.0.0.1:3551/account/api/oauth/token?a=b")
    );
}

#[test]
fn set_host_without_port_keeps_old_port() {
    let url = fstr("https://h.com:8443/p");
    let backend = fstr("http://backend.local");
    let mut p = ParsedUrl::parse(&url);
    p.set_host(&backend);
    assert_eq!(text(&p.get_url()).as_deref(), Some("http://backend.local:8443/p"));
}

#[test]
fn set_host_with_null_host_changes_nothing() {
    let url = fstr("https://h.com/p");
    let mut p = ParsedUrl::parse(&url);
    p.set_host(&FString::new());
    assert_eq!(text(&p.get_url()).as_deref(), Some("https://h.com/p"));
}

#[test]
fn set_host_ignores_backend_path() {
    let url = fstr("https://h.com/p?q");
    let backend = fstr("http://b:1/ignored");
    let mut p = ParsedUrl::parse(&url);
    p.set_host(&backend);
    assert_eq!(text(&p.get_url()).as_deref(), Some("http://b:1/p?q"));
}

#[test]
fn new_parsed_url_joins_to_empty() {
    let p = ParsedUrl::new();
    let u = p.get_url();
    assert_eq!(u.length, 1);
    assert_eq!(u.string, Some(vec![0u16]));
}

#[test]
fn fstring_new_is_null_and_empty() {
    let f = FString::new();
    assert!(f.string.is_none());
    assert_eq!(f.length, 0);
    assert!(f.is_empty());
    assert!(f.raw().is_none());
    assert!(fstr("").is_empty());
    assert!(!fstr("a").is_empty());
    assert_eq!(fstr("ab").raw().as_ref().map(|v| v.len()), Some(3));
}

#[test]
fn new_pieces_are_null_with_no_length() {
    let p = ParsedUrl::new();
    for f in [&p.protocol, &p.separator, &p.domain, &p.port, &p.path, &p.query] {
        assert!(f.string.is_none());
        assert_eq!(f.length, 0);
        assert_eq!(f.max_size, 0);
    }
}

#[test]
fn parsed_pieces_have_capacity_equal_to_length() {
    let p = ParsedUrl::parse(&fstr("https://ol.epicgames.com:443/a/b?c=d"));
    for f in [&p.protocol, &p.separator, &p.domain, &p.port, &p.path, &p.query] {
        assert_eq!(f.max_size, f.length);
    }
    let p = ParsedUrl::parse(&fstr("http://example.com"));
    for f in [&p.port, &p.path, &p.query] {
        if f.string.is_none() {
            assert_eq!(f.length, 0);
        }
        assert_eq!(f.max_size, f.length);
    }
}

fn same(a: &FString, b: &FString) -> bool {
    a.string == b.string && a.length == b.length && a.max_size == b.max_size
}

#[test]
fn set_host_leaves_path_query_and_port_whole() {
    let mut p = ParsedUrl::parse(&fstr("https://ol.epicgames.com:443/a/b?c=d"));
    p.query.max_size = 99;
    let before = ParsedUrl::parse(&fstr("https://ol.epicgames.com:443/a/b?c=d"));
    p.set_host(&FString::new());
    assert!(same(&p.protocol, &before.protocol) && same(&p.domain, &before.domain));
    assert_eq!(p.query.max_size, 99);
    p.set_host(&fstr("http://127.0.0.1"));
    assert!(same(&p.path, &before.path));
    assert!(same(&p.port, &before.port));
    assert_eq!(p.query.max_size, 99);
    assert_eq!(text(&p.domain).as_deref(), Some("127.0.0.1"));
}
