//! Decisions for the monitoring agent: which build to download, and how the
//! agent is started (a command line for the v0 agent, a configuration file
//! for the v1 agent).
use vstd::prelude::*;
use crate::config::Config;
use crate::text::{
    chars_of, contains_text, lemma_contains_at, lemma_contains_between, lemma_contains_within, push_str,
    string_of_chars,
};

verus! {

/// The ports on which the agent talks to its server over TLS.
pub open spec fn tls_port_texts() -> Seq<Seq<char>> {
    seq!["443"@, "8443"@, "2096"@, "2087"@, "2083"@, "2053"@]
}

/// The ports on which the agent talks to its server over TLS.
pub fn tls_ports() -> (r: &'static [&'static str])
    ensures
        r@.map_values(|p: &str| p@) == tls_port_texts(),
{
    let r: &'static [&'static str] = &["443", "8443", "2096", "2087", "2083", "2053"];
    assert(r@.map_values(|p: &str| p@) == tls_port_texts());
    r
}

fn same_text(a: &str, b: &str) -> (r: bool)
    ensures
        r == (a@ == b@),
{
    a.to_owned() == b.to_owned()
}

/// Whether a port is one of the TLS ports.
pub fn is_tls_port(port: &str) -> (b: bool)
    ensures
        b == tls_port_texts().contains(port@),
{
    let ports = tls_ports();
    let n = ports.len();
    let ghost texts = tls_port_texts();
    for i in 0..n
        invariant
            n == ports@.len(),
            ports@.map_values(|p: &str| p@) == texts,
            texts == tls_port_texts(),
            forall|j: int| 0 <= j < i ==> texts[j] != port@,
    {
        assert(texts[i as int] == ports@[i as int]@);
        if same_text(ports[i], port) {
            assert(texts[i as int] == port@);
            return true;
        }
    }
    false
}

/// Whether the agent is the v1 build: no port, or an empty one, is configured.
pub open spec fn is_v1_agent(port: Option<Seq<char>>) -> bool {
    match port {
        Some(p) => p.len() == 0,
        None => true,
    }
}

/// Whether an architecture name is an ARM one.
pub open spec fn is_arm(arch: Seq<char>) -> bool {
    arch == "aarch64"@ || arch == "arm"@ || arch == "arm64"@
}

/// The download address of the agent for an architecture and build.
pub open spec fn spec_download_url(arch: Seq<char>, v1: bool) -> Seq<char> {
    if is_arm(arch) {
        if v1 {
            "https://arm64.ssss.nyc.mn/v1"@
        } else {
            "https://arm64.ssss.nyc.mn/agent"@
        }
    } else {
        if v1 {
            "https://amd64.ssss.nyc.mn/v1"@
        } else {
            "https://amd64.ssss.nyc.mn/agent"@
        }
    }
}

/// The download address of the agent for the machine's architecture (as
/// `std::env::consts::ARCH` names it) and the configured agent port.
pub fn download_url(arch: &str, port: Option<&str>) -> (r: &'static str)
    ensures
        r@ == spec_download_url(
            arch@,
            is_v1_agent(
                match port {
                    Some(p) => Some(p@),
                    None => None,
                },
            ),
        ),
{
    let is_v1 = match port {
        Some(p) => p.is_empty(),
        None => true,
    };
    let arm = same_text(arch, "aarch64") || same_text(arch, "arm") || same_text(arch, "arm64");
    if arm {
        if is_v1 {
            "https://arm64.ssss.nyc.mn/v1"
        } else {
            "https://arm64.ssss.nyc.mn/agent"
        }
    } else {
        if is_v1 {
            "https://amd64.ssss.nyc.mn/v1"
        } else {
            "https://amd64.ssss.nyc.mn/agent"
        }
    }
}

/// The text after the last `:` (the whole text if there is none).
pub open spec fn after_last_colon(s: Seq<char>) -> Seq<char>
    decreases s.len(),
{
    if s.len() == 0 {
        s
    } else if s.last() == ':' {
        Seq::empty()
    } else {
        after_last_colon(s.drop_last()).push(s.last())
    }
}

fn last_segment(s: &str) -> (r: String)
    ensures
        r@ == after_last_colon(s@),
{
    let chars = chars_of(s);
    let mut start = chars.len();
    while start > 0 && chars[start - 1] != ':'
        invariant
            start <= chars@.len(),
            forall|j: int| start <= j < chars@.len() ==> chars@[j] != ':',
        decreases start,
    {
        start -= 1;
    }
    proof {
        lemma_after_last_colon(chars@, start as int);
    }
    let mut out: Vec<char> = Vec::new();
    let mut i = start;
    while i < chars.len()
        invariant
            start <= i <= chars@.len(),
            out@ == chars@.subrange(start as int, i as int),
        decreases chars@.len() - i,
    {
        out.push(chars[i]);
        i += 1;
    }
    string_of_chars(&out)
}

proof fn lemma_after_last_colon(s: Seq<char>, start: int)
    requires
        0 <= start <= s.len(),
        start == 0 || s[start - 1] == ':',
        forall|j: int| start <= j < s.len() ==> s[j] != ':',
    ensures
        after_last_colon(s) == s.subrange(start, s.len() as int),
    decreases s.len(),
{
    if s.len() > start {
        lemma_after_last_colon(s.drop_last(), start);
        assert(s.drop_last().subrange(start, s.len() - 1).push(s.last()) == s.subrange(
            start,
            s.len() as int,
        ));
    } else if s.len() > 0 {
        assert(s.last() == ':');
    }
}

/// `true` or `false`.
pub open spec fn bool_text(b: bool) -> Seq<char> {
    if b {
        "true"@
    } else {
        "false"@
    }
}

/// The command line that starts the v0 agent in the background.
pub open spec fn spec_v0_command(server: Seq<char>, port: Seq<char>, key: Seq<char>) -> Seq<char> {
    "nohup ./npm -s "@ + server + ":"@ + port + " -p "@ + key + " "@ + (if tls_port_texts().contains(
        port,
    ) {
        "--tls"@
    } else {
        Seq::empty()
    }) + " --disable-auto-update --report-delay 4 --skip-conn --skip-procs >/dev/null 2>&1 &"@
}

/// The command line that starts the v0 agent in the background.
pub fn agent_v0_command(server: &str, port: &str, key: &str) -> (r: String)
    ensures
        r@ == spec_v0_command(server@, port@, key@),
{
    let tls = is_tls_port(port);
    let mut cmd = String::new();
    push_str(&mut cmd, "nohup ./npm -s ");
    push_str(&mut cmd, server);
    push_str(&mut cmd, ":");
    push_str(&mut cmd, port);
    push_str(&mut cmd, " -p ");
    push_str(&mut cmd, key);
    push_str(&mut cmd, " ");
    let ghost before = cmd@;
    if tls {
        push_str(&mut cmd, "--tls");
    }
    assert(cmd@ == before + (if tls { "--tls"@ } else { Seq::<char>::empty() }));
    push_str(
        &mut cmd,
        " --disable-auto-update --report-delay 4 --skip-conn --skip-procs >/dev/null 2>&1 &",
    );
    cmd
}

/// The configuration file of the v1 agent. TLS is on when the port after
/// the last `:` of the server address is a TLS port.
pub open spec fn spec_v1_config(server: Seq<char>, key: Seq<char>, uuid: Seq<char>) -> Seq<char> {
    "client_secret: "@ + key
        + "\ndebug: false\ndisable_auto_update: true\ndisable_command_execute: false\ndisable_force_update: true\ndisable_nat: false\ndisable_send_query: false\ngpu: false\ninsecure_tls: true\nip_report_period: 1800\nreport_delay: 4\nserver: "@
        + server
        + "\nskip_connection_count: true\nskip_procs_count: true\ntemperature: false\ntls: "@
        + bool_text(tls_port_texts().contains(after_last_colon(server)))
        + "\nuse_gitee_to_upgrade: false\nuse_ipv6_country_code: false\nuuid: "@ + uuid
}

/// The configuration file of the v1 agent.
pub fn agent_v1_config(server: &str, key: &str, uuid: &str) -> (r: String)
    ensures
        r@ == spec_v1_config(server@, key@, uuid@),
{
    let port = last_segment(server);
    let tls = is_tls_port(port.as_str());
    let mut text = String::new();
    push_str(&mut text, "client_secret: ");
    push_str(&mut text, key);
    push_str(
        &mut text,
        "\ndebug: false\ndisable_auto_update: true\ndisable_command_execute: false\ndisable_force_update: true\ndisable_nat: false\ndisable_send_query: false\ngpu: false\ninsecure_tls: true\nip_report_period: 1800\nreport_delay: 4\nserver: ",
    );
    push_str(&mut text, server);
    push_str(
        &mut text,
        "\nskip_connection_count: true\nskip_procs_count: true\ntemperature: false\ntls: ",
    );
    if tls {
        push_str(&mut text, "true");
    } else {
        push_str(&mut text, "false");
    }
    push_str(&mut text, "\nuse_gitee_to_upgrade: false\nuse_ipv6_country_code: false\nuuid: ");
    push_str(&mut text, uuid);
    text
}

/// How the agent is started.
#[derive(Debug, Clone, PartialEq, Eq)]
pub enum AgentLaunch {
    /// Run this command line (the v0 agent).
    V0 { command: String },
    /// Write this configuration file and start the v1 agent with it.
    V1 { config: String },
}

/// How the agent is started for a configuration: not at all without a
/// server and a key; the v0 agent when a non-empty port is configured; the
/// v1 agent otherwise.
pub fn agent_launch(config: &Config) -> (r: Option<AgentLaunch>)
    ensures
        match (config.nezha_server, config.nezha_key) {
            (Some(server), Some(key)) => match config.nezha_port {
                Some(port) if port@.len() > 0 => r matches Some(AgentLaunch::V0 { command })
                    && command@ == spec_v0_command(server@, port@, key@),
                _ => r matches Some(AgentLaunch::V1 { config: text })
                    && text@ == spec_v1_config(server@, key@, config.uuid_text@),
            },
            _ => r is None,
        },
{
    match (&config.nezha_server, &config.nezha_key) {
        (Some(server), Some(key)) => {
            match &config.nezha_port {
                Some(port) => {
                    if !port.as_str().is_empty() {
                        return Some(
                            AgentLaunch::V0 {
                                command: agent_v0_command(server.as_str(), port.as_str(), key.as_str()),
                            },
                        );
                    }
                },
                None => {},
            }
            Some(
                AgentLaunch::V1 {
                    config: agent_v1_config(server.as_str(), key.as_str(), config.uuid_text.as_str()),
                },
            )
        },
        _ => None,
    }
}


/// The v1 agent's configuration holds the fixed settings: no automatic or
/// forced updates, no debug output, TLS certificates not checked, the
/// report periods; then the key first, the server on its own line, TLS on
/// exactly for a TLS port, and the UUID last.
pub proof fn law_v1_config_settings(server: Seq<char>, key: Seq<char>, uuid: Seq<char>)
    ensures
        ({
            let c = spec_v1_config(server, key, uuid);
            &&& c.subrange(0, 15 + key.len() as int) == "client_secret: "@ + key
            &&& contains_text(c, "\ndebug: false\n"@)
            &&& contains_text(c, "\ndisable_auto_update: true\n"@)
            &&& contains_text(c, "\ndisable_command_execute: false\n"@)
            &&& contains_text(c, "\ndisable_force_update: true\n"@)
            &&& contains_text(c, "\ndisable_nat: false\n"@)
            &&& contains_text(c, "\ndisable_send_query: false\n"@)
            &&& contains_text(c, "\ngpu: false\n"@)
            &&& contains_text(c, "\ninsecure_tls: true\n"@)
            &&& contains_text(c, "\nip_report_period: 1800\n"@)
            &&& contains_text(c, "\nreport_delay: 4\n"@)
            &&& contains_text(c, "\nskip_connection_count: true\n"@)
            &&& contains_text(c, "\nskip_procs_count: true\n"@)
            &&& contains_text(c, "\ntemperature: false\n"@)
            &&& contains_text(c, "\nuse_gitee_to_upgrade: false\n"@)
            &&& contains_text(c, "\nuse_ipv6_country_code: false\n"@)
            &&& contains_text(c, "\nserver: "@ + server + "\n"@)
            &&& tls_port_texts().contains(after_last_colon(server)) ==> contains_text(c, "\ntls: true\n"@)
            &&& !tls_port_texts().contains(after_last_colon(server)) ==> contains_text(c, "\ntls: false\n"@)
            &&& c.subrange(c.len() - 7 - uuid.len(), c.len() as int) == "\nuuid: "@ + uuid
        }),
{
    let c = spec_v1_config(server, key, uuid);
    let big = "\ndebug: false\ndisable_auto_update: true\ndisable_command_execute: false\ndisable_force_update: true\ndisable_nat: false\ndisable_send_query: false\ngpu: false\ninsecure_tls: true\nip_report_period: 1800\nreport_delay: 4\nserver: "@;
    let seg2 = "\nskip_connection_count: true\nskip_procs_count: true\ntemperature: false\ntls: "@;
    let seg3 = "\nuse_gitee_to_upgrade: false\nuse_ipv6_country_code: false\nuuid: "@;
    let flag = bool_text(tls_port_texts().contains(after_last_colon(server)));
    reveal_strlit("\ndebug: false\ndisable_auto_update: true\ndisable_command_execute: false\ndisable_force_update: true\ndisable_nat: false\ndisable_send_query: false\ngpu: false\ninsecure_tls: true\nip_report_period: 1800\nreport_delay: 4\nserver: ");
    reveal_strlit("\nskip_connection_count: true\nskip_procs_count: true\ntemperature: false\ntls: ");
    reveal_strlit("\nuse_gitee_to_upgrade: false\nuse_ipv6_country_code: false\nuuid: ");
    reveal_strlit("client_secret: ");
    reveal_strlit("true");
    reveal_strlit("false");
    let head = "client_secret: "@ + key;
    let before_big = head;
    let after_big = server + seg2 + flag + seg3 + uuid;
    let before_seg2 = head + big + server;
    let after_seg2 = flag + seg3 + uuid;
    let before_seg3 = head + big + server + seg2 + flag;
    let after_seg3 = uuid;
    assert(c =~= before_big + big + after_big);
    assert(c =~= before_seg2 + seg2 + after_seg2);
    assert(c =~= before_seg3 + seg3 + after_seg3);
    reveal_strlit("\ndebug: false\n");
    assert(big.subrange(0, 14) =~= "\ndebug: false\n"@);
    lemma_contains_at(big, "\ndebug: false\n"@, 0);
    lemma_contains_within(before_big, big, after_big, "\ndebug: false\n"@);
    reveal_strlit("\ndisable_auto_update: true\n");
    assert(big.subrange(13, 40) =~= "\ndisable_auto_update: true\n"@);
    lemma_contains_at(big, "\ndisable_auto_update: true\n"@, 13);
    lemma_contains_within(before_big, big, after_big, "\ndisable_auto_update: true\n"@);
    reveal_strlit("\ndisable_command_execute: false\n");
    assert(big.subrange(39, 71) =~= "\ndisable_command_execute: false\n"@);
    lemma_contains_at(big, "\ndisable_command_execute: false\n"@, 39);
    lemma_contains_within(before_big, big, after_big, "\ndisable_command_execute: false\n"@);
    reveal_strlit("\ndisable_force_update: true\n");
    assert(big.subrange(70, 98) =~= "\ndisable_force_update: true\n"@);
    lemma_contains_at(big, "\ndisable_force_update: true\n"@, 70);
    lemma_contains_within(before_big, big, after_big, "\ndisable_force_update: true\n"@);
    reveal_strlit("\ndisable_nat: false\n");
    assert(big.subrange(97, 117) =~= "\ndisable_nat: false\n"@);
    lemma_contains_at(big, "\ndisable_nat: false\n"@, 97);
    lemma_contains_within(before_big, big, after_big, "\ndisable_nat: false\n"@);
    reveal_strlit("\ndisable_send_query: false\n");
    assert(big.subrange(116, 143) =~= "\ndisable_send_query: false\n"@);
    lemma_contains_at(big, "\ndisable_send_query: false\n"@, 116);
    lemma_contains_within(before_big, big, after_big, "\ndisable_send_query: false\n"@);
    reveal_strlit("\ngpu: false\n");
    assert(big.subrange(142, 154) =~= "\ngpu: false\n"@);
    lemma_contains_at(big, "\ngpu: false\n"@, 142);
    lemma_contains_within(before_big, big, after_big, "\ngpu: false\n"@);
    reveal_strlit("\ninsecure_tls: true\n");
    assert(big.subrange(153, 173) =~= "\ninsecure_tls: true\n"@);
    lemma_contains_at(big, "\ninsecure_tls: true\n"@, 153);
    lemma_contains_within(before_big, big, after_big, "\ninsecure_tls: true\n"@);
    reveal_strlit("\nip_report_period: 1800\n");
    assert(big.subrange(172, 196) =~= "\nip_report_period: 1800\n"@);
    lemma_contains_at(big, "\nip_report_period: 1800\n"@, 172);
    lemma_contains_within(before_big, big, after_big, "\nip_report_period: 1800\n"@);
    reveal_strlit("\nreport_delay: 4\n");
    assert(big.subrange(195, 212) =~= "\nreport_delay: 4\n"@);
    lemma_contains_at(big, "\nreport_delay: 4\n"@, 195);
    lemma_contains_within(before_big, big, after_big, "\nreport_delay: 4\n"@);
    reveal_strlit("\nskip_connection_count: true\n");
    assert(seg2.subrange(0, 29) =~= "\nskip_connection_count: true\n"@);
    lemma_contains_at(seg2, "\nskip_connection_count: true\n"@, 0);
    lemma_contains_within(before_seg2, seg2, after_seg2, "\nskip_connection_count: true\n"@);
    reveal_strlit("\nskip_procs_count: true\n");
    assert(seg2.subrange(28, 52) =~= "\nskip_procs_count: true\n"@);
    lemma_contains_at(seg2, "\nskip_procs_count: true\n"@, 28);
    lemma_contains_within(before_seg2, seg2, after_seg2, "\nskip_procs_count: true\n"@);
    reveal_strlit("\ntemperature: false\n");
    assert(seg2.subrange(51, 71) =~= "\ntemperature: false\n"@);
    lemma_contains_at(seg2, "\ntemperature: false\n"@, 51);
    lemma_contains_within(before_seg2, seg2, after_seg2, "\ntemperature: false\n"@);
    reveal_strlit("\nuse_gitee_to_upgrade: false\n");
    assert(seg3.subrange(0, 29) =~= "\nuse_gitee_to_upgrade: false\n"@);
    lemma_contains_at(seg3, "\nuse_gitee_to_upgrade: false\n"@, 0);
    lemma_contains_within(before_seg3, seg3, after_seg3, "\nuse_gitee_to_upgrade: false\n"@);
    reveal_strlit("\nuse_ipv6_country_code: false\n");
    assert(seg3.subrange(28, 58) =~= "\nuse_ipv6_country_code: false\n"@);
    lemma_contains_at(seg3, "\nuse_ipv6_country_code: false\n"@, 28);
    lemma_contains_within(before_seg3, seg3, after_seg3, "\nuse_ipv6_country_code: false\n"@);
    assert(c.subrange(0, 15 + key.len() as int) =~= "client_secret: "@ + key);
    reveal_strlit("\nserver: ");
    reveal_strlit("\n");
    let server_line = "\nserver: "@ + server + "\n"@;
    let p = head.len() + big.len() - 9;
    assert(c.subrange(p, p + server_line.len()) =~= server_line);
    lemma_contains_at(c, server_line, p);
    reveal_strlit("\ntls: true\n");
    reveal_strlit("\ntls: false\n");
    let q = before_seg2.len() + seg2.len() - 6;
    if tls_port_texts().contains(after_last_colon(server)) {
        assert(flag == "true"@);
        assert(c.subrange(q, q + 11) =~= "\ntls: true\n"@);
        lemma_contains_at(c, "\ntls: true\n"@, q);
    } else {
        assert(flag == "false"@);
        assert(c.subrange(q, q + 12) =~= "\ntls: false\n"@);
        lemma_contains_at(c, "\ntls: false\n"@, q);
    }
    reveal_strlit("\nuuid: ");
    assert(c.subrange(c.len() - 7 - uuid.len(), c.len() as int) =~= "\nuuid: "@ + uuid);
}


/// The TLS ports are exactly 443, 8443, 2096, 2087, 2083 and 2053.
pub proof fn law_tls_ports_are_the_https_ports(port: Seq<char>)
    ensures
        tls_port_texts().contains(port) <==> {
            ||| port == "443"@
            ||| port == "8443"@
            ||| port == "2096"@
            ||| port == "2087"@
            ||| port == "2083"@
            ||| port == "2053"@
        },
{
    let t = tls_port_texts();
    if t.contains(port) {
        let i = choose|i: int| 0 <= i < t.len() && t[i] == port;
        assert(0 <= i < 6);
    }
    if port == "443"@ {
        assert(t[0] == port);
    } else if port == "8443"@ {
        assert(t[1] == port);
    } else if port == "2096"@ {
        assert(t[2] == port);
    } else if port == "2087"@ {
        assert(t[3] == port);
    } else if port == "2083"@ {
        assert(t[4] == port);
    } else if port == "2053"@ {
        assert(t[5] == port);
    }
}

/// The v0 agent is started against `server:port` with its key, with
/// `--tls` exactly for a TLS port, and always with automatic updates off.
pub proof fn law_v0_command_flags(server: Seq<char>, port: Seq<char>, key: Seq<char>)
    ensures
        contains_text(spec_v0_command(server, port, key), " -s "@ + server + ":"@ + port + " -p "@ + key + " "@),
        tls_port_texts().contains(port) ==> contains_text(
            spec_v0_command(server, port, key),
            " --tls --disable-auto-update "@,
        ),
        !tls_port_texts().contains(port) ==> contains_text(
            spec_v0_command(server, port, key),
            " -p "@ + key + "  --disable-auto-update "@,
        ),
{
    let c = spec_v0_command(server, port, key);
    reveal_strlit("nohup ./npm -s ");
    reveal_strlit(" -s ");
    reveal_strlit(" -p ");
    reveal_strlit(" ");
    reveal_strlit("--tls");
    reveal_strlit(" --disable-auto-update --report-delay 4 --skip-conn --skip-procs >/dev/null 2>&1 &");
    reveal_strlit(" --tls --disable-auto-update ");
    reveal_strlit("  --disable-auto-update ");
    let flag = if tls_port_texts().contains(port) {
        "--tls"@
    } else {
        Seq::<char>::empty()
    };
    let tail = " --disable-auto-update --report-delay 4 --skip-conn --skip-procs >/dev/null 2>&1 &"@;
    let call = " -s "@ + server + ":"@ + port + " -p "@ + key + " "@;
    assert(c =~= "nohup ./npm"@ + call + (flag + tail)) by {
        reveal_strlit("nohup ./npm");
    }
    lemma_contains_between("nohup ./npm"@, call, flag + tail);
    let head = "nohup ./npm -s "@ + server + ":"@ + port;
    if tls_port_texts().contains(port) {
        let at: int = (head.len() + 4 + key.len()) as int;
        assert(c.subrange(at, at + 29) =~= " --tls --disable-auto-update "@);
        lemma_contains_at(c, " --tls --disable-auto-update "@, at);
    } else {
        let at: int = head.len() as int;
        let t = " -p "@ + key + "  --disable-auto-update "@;
        assert(c.subrange(at, at + t.len() as int) =~= t);
        lemma_contains_at(c, t, at);
    }
}

/// The agent is downloaded from the ARM64 host for `aarch64`, `arm` and
/// `arm64` machines and from the AMD64 host otherwise, as the v1 build when
/// no agent port is configured and the v0 `agent` build otherwise.
pub proof fn law_download_url_parts(arch: Seq<char>, v1: bool)
    ensures
        spec_download_url(arch, v1) == "https://"@ + (if arch == "aarch64"@ || arch == "arm"@ || arch
            == "arm64"@ {
            "arm64"@
        } else {
            "amd64"@
        }) + ".ssss.nyc.mn/"@ + (if v1 {
            "v1"@
        } else {
            "agent"@
        }),
{
    reveal_strlit("https://");
    reveal_strlit("arm64");
    reveal_strlit("amd64");
    reveal_strlit(".ssss.nyc.mn/");
    reveal_strlit("v1");
    reveal_strlit("agent");
    reveal_strlit("https://arm64.ssss.nyc.mn/v1");
    reveal_strlit("https://arm64.ssss.nyc.mn/agent");
    reveal_strlit("https://amd64.ssss.nyc.mn/v1");
    reveal_strlit("https://amd64.ssss.nyc.mn/agent");
    let r = "https://"@ + (if is_arm(arch) {
        "arm64"@
    } else {
        "amd64"@
    }) + ".ssss.nyc.mn/"@ + (if v1 {
        "v1"@
    } else {
        "agent"@
    });
    assert(spec_download_url(arch, v1) =~= r);
}

} // verus!
