use logo_timeline::{same_description, LogoCache, LogoResponse};

fn one_token(t: &str) -> LogoResponse {
    LogoResponse { logo: vec![vec![vec![t.to_string()]]] }
}

#[test]
fn cache_starts_empty() {
    let cache = LogoCache::new();
    assert!(cache.description().logo.is_empty());
}

#[test]
fn equal_candidate_leaves_cache() {
    let mut cache = LogoCache::new();
    assert!(cache.swap_if_changed(one_token("#000000")));
    assert!(!cache.swap_if_changed(one_token("#000000")));
    assert_eq!(cache.description().logo, vec![vec![vec!["#000000".to_string()]]]);
}

#[test]
fn different_candidate_replaces_cache() {
    let mut cache = LogoCache::new();
    cache.swap_if_changed(one_token("#000000"));
    assert!(cache.is_changed(&one_token("#000001")));
    assert!(cache.swap_if_changed(one_token("#000001")));
    assert_eq!(cache.description().logo[0][0][0], "#000001");
}

#[test]
fn empty_candidate_on_empty_cache_is_unchanged() {
    let mut cache = LogoCache::new();
    assert!(!cache.swap_if_changed(LogoResponse { logo: Vec::new() }));
}

#[test]
fn structural_equality() {
    let a = LogoResponse { logo: vec![vec![vec!["a".to_string()], Vec::new()]] };
    let b = LogoResponse { logo: vec![vec![vec!["a".to_string()], Vec::new()]] };
    let c = LogoResponse { logo: vec![vec![vec!["a".to_string()]]] };
    assert!(same_description(&a, &b));
    assert!(a == b);
    assert!(!same_description(&a, &c));
    let mut cache = LogoCache::new();
    cache.replace(a);
    assert!(!cache.is_changed(&b));
    assert!(cache.is_changed(&c));
}
