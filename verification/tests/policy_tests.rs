use rws::policy::{BlockedDomainPolicy, DomainPolicy};

#[test]
fn blocks_speedtest_domains_and_subdomains_case_insensitively() {
    let policy = BlockedDomainPolicy::default();

    assert!(policy.is_blocked("speedtest.net"));
    assert!(policy.is_blocked("www.SpeedTest.Net"));
    assert!(policy.is_blocked("assets.speed.cloudflare.com"));
}

#[test]
fn allows_unlisted_domains() {
    let policy = BlockedDomainPolicy::default();

    assert!(!policy.is_blocked("example.com"));
    assert!(!policy.is_blocked(""));
}

#[test]
fn trailing_dots_are_ignored() {
    let policy = BlockedDomainPolicy::default();

    assert!(policy.is_blocked("fast.com."));
    assert!(policy.is_blocked("FAST.COM.."));
    assert!(!policy.is_blocked("."));
}

#[test]
fn suffix_without_label_boundary_is_allowed() {
    let policy = BlockedDomainPolicy::default();

    assert!(!policy.is_blocked("notspeedtest.net"));
    assert!(!policy.is_blocked("speedtest.net.example.org"));
    assert!(policy.is_blocked("a.b.librespeed.org"));
}

#[test]
fn every_default_domain_is_blocked_with_subdomains() {
    let policy = BlockedDomainPolicy::default();
    for domain in [
        "speedtest.net",
        "fast.com",
        "speedtest.cn",
        "speed.cloudflare.com",
        "speedof.me",
        "testmy.net",
        "bandwidth.place",
        "speed.io",
        "librespeed.org",
        "speedcheck.org",
    ] {
        assert!(policy.is_blocked(domain));
        assert!(policy.is_blocked(&format!("cdn.{domain}")));
        assert!(policy.is_blocked(&domain.to_ascii_uppercase()));
    }
}

#[test]
fn non_ascii_letters_are_not_folded() {
    let policy = BlockedDomainPolicy::default();

    assert!(!policy.is_blocked("FAST.CÖM"));
}
