use fae::cache::ExecutionCache;

#[test]
fn first_claim_reports_unclaimed() {
    let mut cache = ExecutionCache::new();
    assert!(!cache.check_and_claim(&"build".to_string()));
    assert!(cache.check_and_claim(&"build".to_string()));
}

#[test]
fn distinct_names_claim_independently() {
    let mut cache = ExecutionCache::new();
    assert!(!cache.check_and_claim(&"a".to_string()));
    assert!(!cache.check_and_claim(&"b".to_string()));
    assert!(cache.check_and_claim(&"a".to_string()));
    assert!(cache.check_and_claim(&"b".to_string()));
}
