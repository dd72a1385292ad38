use rws::external::{
    trim_white_space, access_task_url, configured_ip_info, detected_ip_info, format_isp, isp_from_lookups,
};

#[test]
fn configured_domain_is_advertised_over_tls() {
    let info = configured_ip_info(Some("node.example.com")).unwrap();
    assert_eq!(info.domain, "node.example.com");
    assert!(info.tls);
    assert_eq!(info.port, 443);
    assert_eq!(configured_ip_info(Some("")), None);
    assert_eq!(configured_ip_info(Some("your-domain.com")), None);
    assert_eq!(configured_ip_info(None), None);
}

#[test]
fn detected_address_or_fallback() {
    let info = detected_ip_info(Some(" 203.0.113.7\n"), 3000);
    assert_eq!(info.domain, "203.0.113.7");
    assert!(!info.tls);
    assert_eq!(info.port, 3000);
    let info = detected_ip_info(None, 3000);
    assert_eq!(info.domain, "change-your-domain.com");
    assert!(info.tls);
    assert_eq!(info.port, 443);
}

#[test]
fn isp_label() {
    assert_eq!(format_isp("US".to_string(), "Acme ISP Inc".to_string()), "US-Acme_ISP_Inc");
    assert_eq!(isp_from_lookups(Some("A".into()), Some("B".into())), "A");
    assert_eq!(isp_from_lookups(None, Some("B".into())), "B");
    assert_eq!(isp_from_lookups(None, None), "Unknown");
}

#[test]
fn keep_alive_target() {
    assert_eq!(access_task_url("", "sub"), None);
    assert_eq!(access_task_url("node.example.com", "sub").as_deref(), Some("https://node.example.com/sub"));
}

#[test]
fn white_space_is_trimmed_at_both_ends() {
    assert_eq!(trim_white_space("\t 1.2.3.4 \r\n"), "1.2.3.4");
    assert_eq!(trim_white_space("\u{3000}a b\u{a0}"), "a b");
    assert_eq!(trim_white_space("  "), "");
    assert_eq!(trim_white_space(""), "");
}
