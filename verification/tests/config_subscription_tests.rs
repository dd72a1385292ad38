use base64::Engine;
use rws::config::{Config, ConfigError};
use rws::subscription::{generate_subscription, query_escape, IpInfo};

fn pairs(items: &[(&str, &str)]) -> Vec<(String, String)> {
    items.iter().map(|(k, v)| (k.to_string(), v.to_string())).collect()
}

#[test]
fn config_uses_uuid_prefix_as_default_ws_path() {
    let config = Config::from_pairs(pairs(&[
        ("UUID", "5efabea4-f6d4-91fd-b8f0-17e004c89c60"),
        ("PORT", "3000"),
    ]))
    .unwrap();

    assert_eq!(config.ws_path, "5efabea4");
    assert_eq!(config.sub_path, "sub");
    assert_eq!(config.port, 3000);
}

#[test]
fn config_rejects_invalid_uuid() {
    let err = Config::from_pairs(pairs(&[("UUID", "not-a-uuid")])).unwrap_err();
    assert!(err.message().contains("invalid UUID"));
}

#[test]
fn subscription_contains_all_supported_protocols() {
    let config = Config::from_pairs(pairs(&[
        ("UUID", "5efabea4-f6d4-91fd-b8f0-17e004c89c60"),
        ("WSPATH", "edge"),
        ("NAME", "Prod"),
    ]))
    .unwrap();

    let encoded = generate_subscription(
        &config,
        &IpInfo {
            domain: "node.example.com".to_string(),
            tls: true,
            port: 443,
        },
        "US-Acme_ISP",
    );
    let decoded = String::from_utf8(
        base64::engine::general_purpose::STANDARD
            .decode(encoded)
            .unwrap(),
    )
    .unwrap();

    assert!(decoded.contains("vless://5efabea4-f6d4-91fd-b8f0-17e004c89c60@node.example.com:443"));
    assert!(decoded.contains("trojan://5efabea4-f6d4-91fd-b8f0-17e004c89c60@node.example.com:443"));
    assert!(decoded.contains("ss://"));
    assert!(decoded.contains("path=%2Fedge"));
    assert!(decoded.contains("#Prod-US-Acme_ISP"));
}

#[test]
fn config_defaults_and_overrides() {
    let config = Config::from_pairs(Vec::new()).unwrap();
    assert_eq!(config.uuid_text, "5efabea4-f6d4-91fd-b8f0-17e004c89c60");
    assert_eq!(config.port, 3000);
    assert!(!config.auto_access);
    assert_eq!(config.ws_path, "5efabea4");
    assert_eq!(config.sub_path, "sub");
    assert_eq!(config.name, None);
    assert_eq!(config.uuid[0], 0x5e);
    assert_eq!(config.uuid[15], 0x60);

    let config = Config::from_pairs(pairs(&[
        ("PORT", "+8080"),
        ("PORT", "9090"),
        ("AUTO_ACCESS", "true"),
        ("WSPATH", "//ws/x"),
        ("SUB_PATH", ""),
        ("NAME", "node"),
        ("DOMAIN", "d.example"),
        ("NEZHA_SERVER", "nz:443"),
        ("NEZHA_KEY", ""),
    ]))
    .unwrap();
    assert_eq!(config.port, 9090);
    assert!(config.auto_access);
    assert_eq!(config.ws_path, "ws/x");
    assert_eq!(config.sub_path, "sub");
    assert_eq!(config.name.as_deref(), Some("node"));
    assert_eq!(config.domain.as_deref(), Some("d.example"));
    assert_eq!(config.nezha_server.as_deref(), Some("nz:443"));
    assert_eq!(config.nezha_key, None);
}

#[test]
fn config_error_variants() {
    match Config::from_pairs(pairs(&[("PORT", "70000")])) {
        Err(e @ ConfigError::InvalidPort { .. }) => assert_eq!(e.message(), "invalid PORT `70000`"),
        other => panic!("unexpected {other:?}"),
    }
    match Config::from_pairs(pairs(&[("PORT", "-1")])) {
        Err(ConfigError::InvalidPort { value, .. }) => assert_eq!(value, "-1"),
        other => panic!("unexpected {other:?}"),
    }
    match Config::from_pairs(pairs(&[("AUTO_ACCESS", "yes")])) {
        Err(e @ ConfigError::InvalidBool { .. }) => {
            assert_eq!(e.message(), "invalid AUTO_ACCESS `yes`")
        }
        other => panic!("unexpected {other:?}"),
    }
    match Config::from_pairs(pairs(&[("UUID", "not-a-uuid")])) {
        Err(e @ ConfigError::InvalidUuid { .. }) => {
            assert_eq!(e.message(), "invalid UUID `not-a-uuid`")
        }
        other => panic!("unexpected {other:?}"),
    }
    assert_eq!(
        ConfigError::InvalidWsPath.message(),
        "WSPATH is empty and UUID cannot provide an 8 byte prefix"
    );
}

#[test]
fn config_accepts_other_uuid_forms() {
    let config = Config::from_pairs(pairs(&[("UUID", "5efabea4f6d491fdb8f017e004c89c60")])).unwrap();
    assert_eq!(config.ws_path, "5efabea4");
    let config = Config::from_pairs(pairs(&[("UUID", "urn:uuid:5efabea4-f6d4-91fd-b8f0-17e004c89c60")]))
        .unwrap();
    assert_eq!(config.ws_path, "5efabea4");
    assert_eq!(config.uuid[1], 0xfa);
    let config = Config::from_pairs(pairs(&[("UUID", "{5efabea4-f6d4-91fd-b8f0-17e004c89c60}")]))
        .unwrap();
    assert_eq!(config.ws_path, "5efabea4");
    let config = Config::from_pairs(pairs(&[("UUID", "5EFABEA4-F6D4-91FD-B8F0-17E004C89C60")]))
        .unwrap();
    assert_eq!(config.ws_path, "5EFABEA4");
}

#[test]
fn query_escape_encodes_reserved_bytes() {
    assert_eq!(query_escape("a b/c~d-e_f.g"), "a+b%2Fc~d-e_f.g");
    assert_eq!(query_escape("é#"), "%C3%A9%23");
    assert_eq!(query_escape(""), "");
}

#[test]
fn subscription_exact_document() {
    let config = Config::from_pairs(pairs(&[("WSPATH", "p q")])).unwrap();
    let encoded = generate_subscription(
        &config,
        &IpInfo { domain: "1.2.3.4".to_string(), tls: false, port: 3000 },
        "Unknown",
    );
    let decoded = String::from_utf8(
        base64::engine::general_purpose::STANDARD.decode(encoded).unwrap(),
    )
    .unwrap();
    let uuid = "5efabea4-f6d4-91fd-b8f0-17e004c89c60";
    let password = base64::engine::general_purpose::STANDARD.encode(format!("none:{uuid}"));
    let expected = format!(
        "vless://{uuid}@1.2.3.4:3000?encryption=none&security=none&sni=1.2.3.4&fp=chrome&type=ws&host=1.2.3.4&path=%2Fp+q#Unknown\n\
         trojan://{uuid}@1.2.3.4:3000?security=none&sni=1.2.3.4&fp=chrome&type=ws&host=1.2.3.4&path=%2Fp+q#Unknown\n\
         ss://{password}@1.2.3.4:3000?plugin=v2ray-plugin;mode%3Dwebsocket;host%3D1.2.3.4;path%3D%2Fp+q;sni%3D1.2.3.4;skip-cert-verify%3Dtrue;mux%3D0#Unknown"
    );
    assert_eq!(decoded, expected);
}

#[test]
fn port_accepts_a_plus_sign() {
    let config = Config::from_pairs(pairs(&[("PORT", "+80")])).unwrap();
    assert_eq!(config.port, 80);
}

#[test]
fn last_setting_wins() {
    let config = Config::from_pairs(pairs(&[("SUB_PATH", "one"), ("SUB_PATH", "two")])).unwrap();
    assert_eq!(config.sub_path, "two");
}
