use anistream::provider::{ProvideUrl, Provider};

fn new(provider: &str, url: &str) -> Option<ProvideUrl> {
    ProvideUrl::new(provider.to_string(), url.to_string())
}

#[test]
fn obfuscated_path_loses_dashes_and_white_space() {
    let p = new("S-mp4", "--175948514e4c4f57 ").unwrap();
    assert_eq!(p.url(), "175948514e4c4f57");
    assert_eq!(p.provider(), Provider::Dropbox);
}

#[test]
fn every_doubled_dash_is_removed() {
    let p = new("Luf-mp4", "  a----b---c--  ").unwrap();
    assert_eq!(p.url(), "ab-c");
    assert!(!p.url().contains("--"));
    assert_eq!(p.provider(), Provider::Gogoanime);
}

#[test]
fn obfuscated_path_may_hold_http() {
    let p = new("Sak", "--https://example.org/v.mp4").unwrap();
    assert_eq!(p.url(), "https://example.org/v.mp4");
    assert_eq!(p.provider(), Provider::Dropbox);
}

#[test]
fn direct_links_are_dropped() {
    assert!(new("Sak", "https://example.org/v.mp4").is_none());
    assert!(new("Sak", "http").is_none());
    assert!(new("Yt-mp4", "ftp://example.org").is_none());
    assert!(new("Yt-mp4", "//cdn.example.org/v").is_none());
}

#[test]
fn other_paths_are_kept_as_they_are() {
    let p = new("Default", " /apivtwo/clock?id=1 ").unwrap();
    assert_eq!(p.url(), " /apivtwo/clock?id=1 ");
    assert_eq!(p.provider(), Provider::Other);
    let q = new("sak", "-single-dash").unwrap();
    assert_eq!(q.url(), "-single-dash");
    assert_eq!(q.provider(), Provider::Other);
}

#[test]
fn unicode_white_space_is_trimmed() {
    let p = new("Sak", "\u{3000}--x\u{a0}").unwrap();
    assert_eq!(p.url(), "x");
}
