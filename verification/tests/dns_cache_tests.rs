use rws::dns::{first_a_record, resolve_step, DnsAnswer, DnsCache, ResolveAction};

/// Resolves through the cache the way the proxy does: a cached answer, or
/// else a fresh one that is then cached.
fn resolve(cache: &mut DnsCache, host: &str, now: u64, calls: &mut usize) -> String {
    if let Some(ip) = cache.cached(host, now) {
        return ip;
    }
    *calls += 1;
    let ip = format!("{host}-resolved");
    cache.insert(host, ip.clone(), now);
    ip
}

#[test]
fn cached_resolver_reuses_answer_within_ttl() {
    let mut cache = DnsCache::new(60_000, 32);
    let mut calls = 0;

    let first = resolve(&mut cache, "example.com", 0, &mut calls);
    let second = resolve(&mut cache, "example.com", 1, &mut calls);

    assert_eq!(first, "example.com-resolved");
    assert_eq!(second, first);
    assert_eq!(calls, 1);
}

#[test]
fn cached_resolver_refreshes_answer_after_ttl() {
    let mut cache = DnsCache::new(10, 32);
    let mut calls = 0;

    resolve(&mut cache, "example.com", 0, &mut calls);
    resolve(&mut cache, "example.com", 20, &mut calls);

    assert_eq!(calls, 2);
}

#[test]
fn cache_evicts_earliest_expiry_when_full() {
    let mut cache = DnsCache::new(100, 2);
    cache.insert("a", "1".to_string(), 0);
    cache.insert("b", "2".to_string(), 5);
    cache.insert("c", "3".to_string(), 10);
    assert_eq!(cache.len(), 2);
    assert_eq!(cache.cached("a", 11), None);
    assert_eq!(cache.cached("b", 11).as_deref(), Some("2"));
    assert_eq!(cache.cached("c", 11).as_deref(), Some("3"));
    cache.insert("b", "4".to_string(), 20);
    assert_eq!(cache.len(), 2);
    assert_eq!(cache.cached("b", 119).as_deref(), Some("4"));
    assert_eq!(cache.cached("b", 120), None);
}

#[test]
fn disabled_cache_keeps_nothing() {
    let mut cache = DnsCache::new(0, 8);
    cache.insert("a", "1".to_string(), 0);
    assert_eq!(cache.len(), 0);
    let mut cache = DnsCache::new(10, 0);
    cache.insert("a", "1".to_string(), 0);
    assert_eq!(cache.cached("a", 0), None);
}

#[test]
fn first_a_record_skips_other_types() {
    let answers = vec![
        DnsAnswer { record_type: 5, data: "alias.example.".to_string() },
        DnsAnswer { record_type: 1, data: "93.184.216.34".to_string() },
        DnsAnswer { record_type: 1, data: "93.184.216.35".to_string() },
    ];
    assert_eq!(first_a_record(&Some(answers)).as_deref(), Some("93.184.216.34"));
    assert_eq!(first_a_record(&None), None);
    assert_eq!(
        first_a_record(&Some(vec![DnsAnswer { record_type: 28, data: "::1".to_string() }])),
        None
    );
}

#[test]
fn disabled_cache_accepts_any_time() {
    let mut cache = DnsCache::new(0, 8);
    cache.insert("a", "1".to_string(), u64::MAX);
    assert_eq!(cache.len(), 0);
}

#[test]
fn resolution_asks_doh_then_the_system() {
    assert_eq!(resolve_step("1.2.3.4", true, None), ResolveAction::Answer("1.2.3.4".to_string()));
    assert_eq!(
        resolve_step("example.com", false, None),
        ResolveAction::QueryDoh("https://dns.google/resolve?name=example.com&type=A".to_string())
    );
    assert_eq!(
        resolve_step("example.com", false, Some(Some("93.184.216.34".to_string()))),
        ResolveAction::Answer("93.184.216.34".to_string())
    );
    assert_eq!(resolve_step("example.com", false, Some(None)), ResolveAction::QuerySystem);
}
