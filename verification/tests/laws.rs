use anistream::decode::provider_init;
use anistream::provider::ProvideUrl;

#[test]
fn kept_paths_hold_no_doubled_dash() {
    for url in ["--a---b", "----", "-- x -- y --", "---", "a-b", "--"] {
        if let Some(p) = ProvideUrl::new("Sak".to_string(), url.to_string()) {
            assert!(!p.url().contains("--"), "{url}");
        }
    }
    assert_eq!(ProvideUrl::new("Sak".to_string(), "---".to_string()).unwrap().url(), "-");
}

#[test]
fn clock_in_a_decoded_path_becomes_clock_json() {
    // "5b54575b53" is "clock"
    let resp = "1759484a5b54575b531759484a59595959";
    assert_eq!(provider_init(resp).unwrap(), "/aprclock.json/apraaaa");
}

#[test]
fn decoding_splits_at_even_positions() {
    let a = "5b54575b535b54575b535b54575b53";
    let b = "175948514e4c4f57175b54575b5307";
    let joined = provider_init(&format!("{a}{b}")).unwrap();
    let left = provider_init(a).unwrap();
    let right = provider_init(b).unwrap();
    assert_eq!(joined, format!("{left}{right}"));
    assert!(joined.len() <= a.len() + b.len());
}
