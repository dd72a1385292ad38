use rws::config::Config;
use rws::monitor::{
    agent_launch, agent_v0_command, agent_v1_config, download_url, is_tls_port, tls_ports,
    AgentLaunch,
};

fn config(items: &[(&str, &str)]) -> Config {
    Config::from_pairs(items.iter().map(|(k, v)| (k.to_string(), v.to_string())).collect()).unwrap()
}

#[test]
fn tls_ports_are_the_documented_ones() {
    assert_eq!(tls_ports(), &["443", "8443", "2096", "2087", "2083", "2053"]);
    assert!(is_tls_port("2053"));
    assert!(!is_tls_port("80"));
    assert!(!is_tls_port("4430"));
}

#[test]
fn download_url_by_arch_and_build() {
    assert_eq!(download_url("aarch64", None), "https://arm64.ssss.nyc.mn/v1");
    assert_eq!(download_url("arm", Some("5555")), "https://arm64.ssss.nyc.mn/agent");
    assert_eq!(download_url("x86_64", Some("")), "https://amd64.ssss.nyc.mn/v1");
    assert_eq!(download_url("x86_64", Some("443")), "https://amd64.ssss.nyc.mn/agent");
}

#[test]
fn v0_command_enables_tls_on_tls_ports() {
    assert_eq!(
        agent_v0_command("nz.example.com", "443", "k"),
        "nohup ./npm -s nz.example.com:443 -p k --tls --disable-auto-update --report-delay 4 --skip-conn --skip-procs >/dev/null 2>&1 &"
    );
    assert_eq!(
        agent_v0_command("nz.example.com", "5555", "k"),
        "nohup ./npm -s nz.example.com:5555 -p k  --disable-auto-update --report-delay 4 --skip-conn --skip-procs >/dev/null 2>&1 &"
    );
}

#[test]
fn v1_config_takes_tls_from_the_server_port() {
    let text = agent_v1_config("nz.example.com:8443", "secret", "u-1");
    assert!(text.starts_with("client_secret: secret\ndebug: false\n"));
    assert!(text.contains("\nserver: nz.example.com:8443\n"));
    assert!(text.contains("\ntls: true\n"));
    assert!(text.ends_with("\nuuid: u-1"));
    let text = agent_v1_config("nz.example.com:8008", "secret", "u-1");
    assert!(text.contains("\ntls: false\n"));
    let text = agent_v1_config("443", "secret", "u-1");
    assert!(text.contains("\ntls: true\n"));
}

#[test]
fn agent_launch_choice() {
    assert_eq!(agent_launch(&config(&[("NEZHA_SERVER", "nz")])), None);
    assert_eq!(agent_launch(&config(&[("NEZHA_KEY", "k")])), None);
    match agent_launch(&config(&[("NEZHA_SERVER", "nz"), ("NEZHA_KEY", "k"), ("NEZHA_PORT", "443")])) {
        Some(AgentLaunch::V0 { command }) => assert!(command.contains("-s nz:443 -p k --tls")),
        other => panic!("unexpected {other:?}"),
    }
    match agent_launch(&config(&[("NEZHA_SERVER", "nz:8008"), ("NEZHA_KEY", "k")])) {
        Some(AgentLaunch::V1 { config }) => {
            assert!(config.contains("uuid: 5efabea4-f6d4-91fd-b8f0-17e004c89c60"))
        }
        other => panic!("unexpected {other:?}"),
    }
}
