//! The subscription document: VLESS, Trojan and Shadowsocks links for the
//! node, one per line, Base64-encoded as a whole.
use vstd::prelude::*;
use vstd::utf8::encode_utf8;
use crate::config::Config;
use crate::text::{
    ascii_char, contains_text, decimal_text, lemma_contains_between, push_char, push_decimal, push_str,
    upper_hex_digit,
};

verus! {

/// The address under which clients reach the node.
#[derive(Debug, Clone, PartialEq, Eq)]
pub struct IpInfo {
    pub domain: String,
    pub tls: bool,
    pub port: u16,
}

/// The character of a 6-bit value in the standard Base64 alphabet
/// (`A`-`Z`, `a`-`z`, `0`-`9`, `+`, `/`).
pub open spec fn base64_char(v: int) -> char {
    if v < 26 {
        ascii_char(65 + v)
    } else if v < 52 {
        ascii_char(71 + v)
    } else if v < 62 {
        ascii_char(v - 4)
    } else if v == 62 {
        '+'
    } else {
        '/'
    }
}

/// Standard Base64 with `=` padding (RFC 4648, section 4): each group of
/// three bytes becomes four characters; a final group of one or two bytes
/// is padded with `=` to four characters.
pub open spec fn base64_text(b: Seq<u8>) -> Seq<char>
    decreases b.len(),
{
    if b.len() == 0 {
        Seq::empty()
    } else if b.len() == 1 {
        seq![base64_char(b[0] as int / 4), base64_char((b[0] as int % 4) * 16), '=', '=']
    } else if b.len() == 2 {
        seq![
            base64_char(b[0] as int / 4),
            base64_char((b[0] as int % 4) * 16 + b[1] as int / 16),
            base64_char((b[1] as int % 16) * 4),
            '=',
        ]
    } else {
        seq![
            base64_char(b[0] as int / 4),
            base64_char((b[0] as int % 4) * 16 + b[1] as int / 16),
            base64_char((b[1] as int % 16) * 4 + b[2] as int / 64),
            base64_char(b[2] as int % 64),
        ] + base64_text(b.subrange(3, b.len() as int))
    }
}

/// Base64-encodes bytes.
///
/// Calls `base64::engine::general_purpose::STANDARD.encode`: the standard
/// alphabet with `=` padding.
#[verifier::external_body]
fn base64_encode(data: &[u8]) -> (s: String)
    ensures
        s@ == base64_text(data@),
{
    base64::Engine::encode(&base64::engine::general_purpose::STANDARD, data)
}

/// Bytes left as they are in a query component: ASCII letters, digits and `-_.~`.
pub open spec fn is_unreserved(b: u8) -> bool {
    ||| 65 <= b <= 90
    ||| 97 <= b <= 122
    ||| 48 <= b <= 57
    ||| b == 45
    ||| b == 95
    ||| b == 46
    ||| b == 126
}

/// How one byte is written: unreserved bytes as themselves, a space as `+`,
/// any other byte as `%` and two uppercase hex digits.
pub open spec fn escape_byte(b: u8) -> Seq<char> {
    if is_unreserved(b) {
        seq![ascii_char(b as int)]
    } else if b == 32 {
        seq!['+']
    } else {
        seq!['%', upper_hex_digit(b as int / 16), upper_hex_digit(b as int % 16)]
    }
}

/// The bytes of a text escaped for a URL query component.
pub open spec fn spec_query_escape(bytes: Seq<u8>) -> Seq<char>
    decreases bytes.len(),
{
    if bytes.len() == 0 {
        Seq::empty()
    } else {
        spec_query_escape(bytes.drop_last()) + escape_byte(bytes.last())
    }
}

/// `tls` or `none`.
pub open spec fn security_text(tls: bool) -> Seq<char> {
    if tls {
        "tls"@
    } else {
        "none"@
    }
}

/// The name shown for the node: `NAME-isp`, or the ISP alone.
pub open spec fn node_name(config: Config, isp: Seq<char>) -> Seq<char> {
    match config.name {
        Some(n) => n@ + "-"@ + isp,
        None => isp,
    }
}

/// The escaped WebSocket path, `%2F` and the escaped configured path.
pub open spec fn escaped_ws_path(config: Config) -> Seq<char> {
    "%2F"@ + spec_query_escape(encode_utf8(config.ws_path@))
}

/// The VLESS link.
pub open spec fn vless_link(config: Config, ip: IpInfo, isp: Seq<char>) -> Seq<char> {
    "vless://"@ + config.uuid_text@ + "@"@ + ip.domain@ + ":"@ + decimal_text(ip.port as nat)
        + "?encryption=none&security="@ + security_text(ip.tls) + "&sni="@ + ip.domain@
        + "&fp=chrome&type=ws&host="@ + ip.domain@ + "&path="@ + escaped_ws_path(config) + "#"@
        + spec_query_escape(encode_utf8(node_name(config, isp)))
}

/// The Trojan link.
pub open spec fn trojan_link(config: Config, ip: IpInfo, isp: Seq<char>) -> Seq<char> {
    "trojan://"@ + config.uuid_text@ + "@"@ + ip.domain@ + ":"@ + decimal_text(ip.port as nat)
        + "?security="@ + security_text(ip.tls) + "&sni="@ + ip.domain@
        + "&fp=chrome&type=ws&host="@ + ip.domain@ + "&path="@ + escaped_ws_path(config) + "#"@
        + spec_query_escape(encode_utf8(node_name(config, isp)))
}

/// The Shadowsocks link, for the v2ray-plugin over WebSocket.
pub open spec fn shadowsocks_link(config: Config, ip: IpInfo, isp: Seq<char>) -> Seq<char> {
    "ss://"@ + base64_text(encode_utf8("none:"@ + config.uuid_text@)) + "@"@ + ip.domain@ + ":"@
        + decimal_text(ip.port as nat) + "?plugin=v2ray-plugin;mode%3Dwebsocket;host%3D"@
        + ip.domain@ + ";path%3D"@ + escaped_ws_path(config) + ";"@ + (if ip.tls {
        "tls;"@
    } else {
        Seq::empty()
    }) + "sni%3D"@ + ip.domain@ + ";skip-cert-verify%3Dtrue;mux%3D0#"@ + spec_query_escape(
        encode_utf8(node_name(config, isp)),
    )
}

/// The subscription document before encoding: the three links, one per line.
pub open spec fn subscription_text(config: Config, ip: IpInfo, isp: Seq<char>) -> Seq<char> {
    vless_link(config, ip, isp) + seq!['\n'] + trojan_link(config, ip, isp) + seq!['\n']
        + shadowsocks_link(config, ip, isp)
}

/// The uppercase hexadecimal digit of a nibble.
pub fn hex(nibble: u8) -> (c: char)
    requires
        nibble <= 15,
    ensures
        c == upper_hex_digit(nibble as int),
{
    if nibble <= 9 {
        (48 + nibble) as char
    } else {
        (55 + nibble) as char
    }
}

/// Escapes a text for a URL query component, byte by byte.
pub fn query_escape(value: &str) -> (out: String)
    ensures
        out@ == spec_query_escape(encode_utf8(value@)),
{
    let bytes = value.as_bytes();
    let mut out = String::new();
    let n = bytes.len();
    for i in 0..n
        invariant
            n == bytes@.len(),
            bytes@ == encode_utf8(value@),
            out@ == spec_query_escape(bytes@.subrange(0, i as int)),
    {
        let byte = bytes[i];
        if (65 <= byte && byte <= 90) || (97 <= byte && byte <= 122) || (48 <= byte && byte <= 57)
            || byte == 45 || byte == 95 || byte == 46 || byte == 126 {
            push_char(&mut out, byte as char);
        } else if byte == 32 {
            push_char(&mut out, '+');
        } else {
            push_char(&mut out, '%');
            push_char(&mut out, hex(byte / 16));
            push_char(&mut out, hex(byte % 16));
        }
        assert(bytes@.subrange(0, i + 1).drop_last() == bytes@.subrange(0, i as int));
    }
    assert(bytes@.subrange(0, n as int) == bytes@);
    out
}

fn push_security(s: &mut String, tls: bool)
    ensures
        final(s)@ == old(s)@ + security_text(tls),
{
    if tls {
        push_str(s, "tls");
    } else {
        push_str(s, "none");
    }
}

/// Appends `@domain:port`.
fn push_authority(s: &mut String, ip: &IpInfo)
    ensures
        final(s)@ == old(s)@ + "@"@ + ip.domain@ + ":"@ + decimal_text(ip.port as nat),
{
    push_str(s, "@");
    push_str(s, ip.domain.as_str());
    push_str(s, ":");
    push_decimal(s, ip.port as u64);
}

fn push_vless(doc: &mut String, config: &Config, ip: &IpInfo, isp: &str, ws_path: &String, name: &String)
    requires
        ws_path@ == escaped_ws_path(*config),
        name@ == spec_query_escape(encode_utf8(node_name(*config, isp@))),
    ensures
        final(doc)@ == old(doc)@ + vless_link(*config, *ip, isp@),
{
    let mut link = String::new();
    push_str(&mut link, "vless://");
    push_str(&mut link, config.uuid_text.as_str());
    push_authority(&mut link, ip);
    push_str(&mut link, "?encryption=none&security=");
    push_security(&mut link, ip.tls);
    push_str(&mut link, "&sni=");
    push_str(&mut link, ip.domain.as_str());
    push_str(&mut link, "&fp=chrome&type=ws&host=");
    push_str(&mut link, ip.domain.as_str());
    push_str(&mut link, "&path=");
    push_str(&mut link, ws_path.as_str());
    push_str(&mut link, "#");
    push_str(&mut link, name.as_str());
    assert(link@ == vless_link(*config, *ip, isp@));
    push_str(doc, link.as_str());
}

fn push_trojan(doc: &mut String, config: &Config, ip: &IpInfo, isp: &str, ws_path: &String, name: &String)
    requires
        ws_path@ == escaped_ws_path(*config),
        name@ == spec_query_escape(encode_utf8(node_name(*config, isp@))),
    ensures
        final(doc)@ == old(doc)@ + trojan_link(*config, *ip, isp@),
{
    let mut link = String::new();
    push_str(&mut link, "trojan://");
    push_str(&mut link, config.uuid_text.as_str());
    push_authority(&mut link, ip);
    push_str(&mut link, "?security=");
    push_security(&mut link, ip.tls);
    push_str(&mut link, "&sni=");
    push_str(&mut link, ip.domain.as_str());
    push_str(&mut link, "&fp=chrome&type=ws&host=");
    push_str(&mut link, ip.domain.as_str());
    push_str(&mut link, "&path=");
    push_str(&mut link, ws_path.as_str());
    push_str(&mut link, "#");
    push_str(&mut link, name.as_str());
    assert(link@ == trojan_link(*config, *ip, isp@));
    push_str(doc, link.as_str());
}

fn push_shadowsocks(doc: &mut String, config: &Config, ip: &IpInfo, isp: &str, ws_path: &String, name: &String)
    requires
        ws_path@ == escaped_ws_path(*config),
        name@ == spec_query_escape(encode_utf8(node_name(*config, isp@))),
    ensures
        final(doc)@ == old(doc)@ + shadowsocks_link(*config, *ip, isp@),
{
    let mut method_password = String::new();
    push_str(&mut method_password, "none:");
    push_str(&mut method_password, config.uuid_text.as_str());
    let encoded_password = base64_encode(method_password.as_str().as_bytes());
    let mut link = String::new();
    push_str(&mut link, "ss://");
    push_str(&mut link, encoded_password.as_str());
    push_authority(&mut link, ip);
    push_str(&mut link, "?plugin=v2ray-plugin;mode%3Dwebsocket;host%3D");
    push_str(&mut link, ip.domain.as_str());
    push_str(&mut link, ";path%3D");
    push_str(&mut link, ws_path.as_str());
    push_str(&mut link, ";");
    let ghost before_tls = link@;
    if ip.tls {
        push_str(&mut link, "tls;");
    }
    assert(link@ == before_tls + (if ip.tls { "tls;"@ } else { Seq::<char>::empty() }));
    push_str(&mut link, "sni%3D");
    push_str(&mut link, ip.domain.as_str());
    push_str(&mut link, ";skip-cert-verify%3Dtrue;mux%3D0#");
    push_str(&mut link, name.as_str());
    assert(link@ == shadowsocks_link(*config, *ip, isp@));
    push_str(doc, link.as_str());
}

/// The Base64-encoded subscription document for the node.
pub fn generate_subscription(config: &Config, ip: &IpInfo, isp: &str) -> (s: String)
    ensures
        s@ == base64_text(encode_utf8(subscription_text(*config, *ip, isp@))),
{
    let mut name = String::new();
    match &config.name {
        Some(n) => {
            push_str(&mut name, n.as_str());
            push_str(&mut name, "-");
            push_str(&mut name, isp);
        },
        None => {
            push_str(&mut name, isp);
        },
    }
    assert(name@ == node_name(*config, isp@));
    let escaped_name = query_escape(name.as_str());
    let mut ws_path = String::new();
    push_str(&mut ws_path, "%2F");
    let escaped_path = query_escape(config.ws_path.as_str());
    push_str(&mut ws_path, escaped_path.as_str());

    let mut doc = String::new();
    push_vless(&mut doc, config, ip, isp, &ws_path, &escaped_name);
    push_char(&mut doc, '\n');
    push_trojan(&mut doc, config, ip, isp, &ws_path, &escaped_name);
    push_char(&mut doc, '\n');
    push_shadowsocks(&mut doc, config, ip, isp, &ws_path, &escaped_name);
    assert(doc@ == subscription_text(*config, *ip, isp@));
    base64_encode(doc.as_str().as_bytes())
}

/// Characters that can stand in a URL query component as they are: ASCII
/// letters and digits, `-_.~`, and `+` and `%` as the escaping writes them.
pub open spec fn is_query_safe(c: char) -> bool {
    ||| 65 <= (c as u32) <= 90
    ||| 97 <= (c as u32) <= 122
    ||| 48 <= (c as u32) <= 57
    ||| c == '-'
    ||| c == '_'
    ||| c == '.'
    ||| c == '~'
    ||| c == '+'
    ||| c == '%'
}

proof fn lemma_escape_byte_safe(b: u8)
    ensures
        forall|i: int| 0 <= i < escape_byte(b).len() ==> is_query_safe(#[trigger] escape_byte(b)[i]),
{
    if is_unreserved(b) {
        assert((ascii_char(b as int) as u32) == b);
    } else if b != 32 {
        let hi = b as int / 16;
        let lo = b as int % 16;
        assert(is_query_safe(upper_hex_digit(hi)));
        assert(is_query_safe(upper_hex_digit(lo)));
    }
}

/// Escaping leaves only URL-safe characters: whatever the text, its escaped
/// form holds no `#`, `&`, `/`, `?`, `=`, space or non-ASCII character.
pub proof fn law_query_escape_is_url_safe(bytes: Seq<u8>)
    ensures
        forall|i: int|
            0 <= i < spec_query_escape(bytes).len() ==> is_query_safe(
                #[trigger] spec_query_escape(bytes)[i],
            ),
    decreases bytes.len(),
{
    if bytes.len() > 0 {
        law_query_escape_is_url_safe(bytes.drop_last());
        lemma_escape_byte_safe(bytes.last());
        let prefix = spec_query_escape(bytes.drop_last());
        let tail = escape_byte(bytes.last());
        assert forall|i: int| 0 <= i < spec_query_escape(bytes).len() implies is_query_safe(
            #[trigger] spec_query_escape(bytes)[i],
        ) by {
            if i < prefix.len() {
                assert(spec_query_escape(bytes)[i] == prefix[i]);
            } else {
                assert(spec_query_escape(bytes)[i] == tail[i - prefix.len()]);
            }
        }
    }
}


/// The VLESS and Trojan links ask for TLS exactly when the node serves TLS:
/// their query reads `security=tls` for a TLS node and `security=none`
/// otherwise.
pub proof fn law_link_security_follows_tls(config: Config, ip: IpInfo, isp: Seq<char>)
    ensures
        ip.tls ==> contains_text(vless_link(config, ip, isp), "?encryption=none&security=tls&sni="@),
        ip.tls ==> contains_text(trojan_link(config, ip, isp), "?security=tls&sni="@),
        !ip.tls ==> contains_text(vless_link(config, ip, isp), "?encryption=none&security=none&sni="@),
        !ip.tls ==> contains_text(trojan_link(config, ip, isp), "?security=none&sni="@),
{
    reveal_strlit("?encryption=none&security=");
    reveal_strlit("?security=");
    reveal_strlit("&sni=");
    reveal_strlit("tls");
    reveal_strlit("none");
    reveal_strlit("?encryption=none&security=tls&sni=");
    reveal_strlit("?security=tls&sni=");
    reveal_strlit("?encryption=none&security=none&sni=");
    reveal_strlit("?security=none&sni=");
    let authority = "@"@ + ip.domain@ + ":"@ + decimal_text(ip.port as nat);
    let rest = ip.domain@ + "&fp=chrome&type=ws&host="@ + ip.domain@ + "&path="@ + escaped_ws_path(
        config,
    ) + "#"@ + spec_query_escape(encode_utf8(node_name(config, isp)));
    let va = "vless://"@ + config.uuid_text@ + authority;
    let ta = "trojan://"@ + config.uuid_text@ + authority;
    let vq = "?encryption=none&security="@ + security_text(ip.tls) + "&sni="@;
    let tq = "?security="@ + security_text(ip.tls) + "&sni="@;
    assert(vless_link(config, ip, isp) =~= va + vq + rest);
    assert(trojan_link(config, ip, isp) =~= ta + tq + rest);
    lemma_contains_between(va, vq, rest);
    lemma_contains_between(ta, tq, rest);
    if ip.tls {
        assert(vq =~= "?encryption=none&security=tls&sni="@);
        assert(tq =~= "?security=tls&sni="@);
    } else {
        assert(vq =~= "?encryption=none&security=none&sni="@);
        assert(tq =~= "?security=none&sni="@);
    }
}

/// The Shadowsocks plugin options switch TLS on (`tls;` right before the
/// SNI) for a TLS node, and for any other node go straight from the path to
/// the SNI.
pub proof fn law_shadowsocks_tls_follows_tls(config: Config, ip: IpInfo, isp: Seq<char>)
    ensures
        ip.tls ==> contains_text(shadowsocks_link(config, ip, isp), ";tls;sni%3D"@),
        !ip.tls ==> contains_text(
            shadowsocks_link(config, ip, isp),
            ";path%3D"@ + escaped_ws_path(config) + ";sni%3D"@,
        ),
{
    reveal_strlit(";");
    reveal_strlit("tls;");
    reveal_strlit("sni%3D");
    reveal_strlit(";tls;sni%3D");
    reveal_strlit(";path%3D");
    reveal_strlit(";sni%3D");
    let head = "ss://"@ + base64_text(encode_utf8("none:"@ + config.uuid_text@)) + "@"@ + ip.domain@
        + ":"@ + decimal_text(ip.port as nat) + "?plugin=v2ray-plugin;mode%3Dwebsocket;host%3D"@
        + ip.domain@;
    let opt = if ip.tls {
        "tls;"@
    } else {
        Seq::empty()
    };
    let tail = ip.domain@ + ";skip-cert-verify%3Dtrue;mux%3D0#"@ + spec_query_escape(
        encode_utf8(node_name(config, isp)),
    );
    let link = shadowsocks_link(config, ip, isp);
    if ip.tls {
        let before = head + ";path%3D"@ + escaped_ws_path(config);
        let mid = ";"@ + opt + "sni%3D"@;
        assert(link =~= before + mid + tail);
        assert(mid =~= ";tls;sni%3D"@);
        lemma_contains_between(before, mid, tail);
    } else {
        let mid = ";path%3D"@ + escaped_ws_path(config) + ";"@ + opt + "sni%3D"@;
        assert(link =~= head + mid + tail);
        assert(mid =~= ";path%3D"@ + escaped_ws_path(config) + ";sni%3D"@);
        lemma_contains_between(head, mid, tail);
    }
}



/// The part of the VLESS and Trojan queries that points the WebSocket
/// transport at the node: SNI and host are the node's domain, the path is
/// `/` and the configured path, escaped.
pub open spec fn websocket_query(config: Config, ip: IpInfo) -> Seq<char> {
    "&sni="@ + ip.domain@ + "&fp=chrome&type=ws&host="@ + ip.domain@ + "&path=%2F"@ + spec_query_escape(
        encode_utf8(config.ws_path@),
    ) + "#"@
}

/// `@domain:port`.
pub open spec fn authority_text(ip: IpInfo) -> Seq<char> {
    "@"@ + ip.domain@ + ":"@ + decimal_text(ip.port as nat)
}

/// The VLESS link names the node: it starts with `vless://`, the UUID and
/// `@domain:port`, points the WebSocket transport at the node's domain and
/// escaped path, and ends with `#` and the escaped node name.
pub proof fn law_vless_link_names_the_node(config: Config, ip: IpInfo, isp: Seq<char>)
    ensures
        ("vless://"@ + config.uuid_text@ + authority_text(ip)).is_prefix_of(vless_link(config, ip, isp)),
        contains_text(vless_link(config, ip, isp), websocket_query(config, ip)),
        ("#"@ + spec_query_escape(encode_utf8(node_name(config, isp)))).is_suffix_of(
            vless_link(config, ip, isp),
        ),
{
    reveal_strlit("&path=");
    reveal_strlit("%2F");
    reveal_strlit("&path=%2F");
    let v = vless_link(config, ip, isp);
    let name_text = spec_query_escape(encode_utf8(node_name(config, isp)));
    let name = "#"@ + name_text;
    let p = "vless://"@ + config.uuid_text@ + authority_text(ip);
    let mid = "?encryption=none&security="@ + security_text(ip.tls);
    let ws = websocket_query(config, ip);
    assert(v =~= p + mid + ws + name_text);
    assert(p =~= v.subrange(0, p.len() as int));
    lemma_contains_between(p + mid, ws, name_text);
    assert(name =~= v.subrange(v.len() - name.len(), v.len() as int));
}

/// The Trojan link names the node: it starts with `trojan://`, the password
/// and `@domain:port`, points the WebSocket transport at the node's domain
/// and escaped path, and ends with `#` and the escaped node name.
pub proof fn law_trojan_link_names_the_node(config: Config, ip: IpInfo, isp: Seq<char>)
    ensures
        ("trojan://"@ + config.uuid_text@ + authority_text(ip)).is_prefix_of(trojan_link(config, ip, isp)),
        contains_text(trojan_link(config, ip, isp), websocket_query(config, ip)),
        ("#"@ + spec_query_escape(encode_utf8(node_name(config, isp)))).is_suffix_of(
            trojan_link(config, ip, isp),
        ),
{
    reveal_strlit("&path=");
    reveal_strlit("%2F");
    reveal_strlit("&path=%2F");
    let v = trojan_link(config, ip, isp);
    let name_text = spec_query_escape(encode_utf8(node_name(config, isp)));
    let name = "#"@ + name_text;
    let p = "trojan://"@ + config.uuid_text@ + authority_text(ip);
    let mid = "?security="@ + security_text(ip.tls);
    let ws = websocket_query(config, ip);
    assert(v =~= p + mid + ws + name_text);
    assert(p =~= v.subrange(0, p.len() as int));
    lemma_contains_between(p + mid, ws, name_text);
    assert(name =~= v.subrange(v.len() - name.len(), v.len() as int));
}

/// The Shadowsocks link names the node: it starts with `ss://`, the
/// Base64 of `none:` and the UUID, and `@domain:port`, runs the v2ray plugin
/// over WebSocket to the node's domain and escaped path, and ends with `#`
/// and the escaped node name.
pub proof fn law_shadowsocks_link_names_the_node(config: Config, ip: IpInfo, isp: Seq<char>)
    ensures
        ("ss://"@ + base64_text(encode_utf8("none:"@ + config.uuid_text@)) + authority_text(ip)).is_prefix_of(
            shadowsocks_link(config, ip, isp),
        ),
        contains_text(
            shadowsocks_link(config, ip, isp),
            "?plugin=v2ray-plugin;mode%3Dwebsocket;host%3D"@ + ip.domain@ + ";path%3D%2F"@
                + spec_query_escape(encode_utf8(config.ws_path@)) + ";"@,
        ),
        ("#"@ + spec_query_escape(encode_utf8(node_name(config, isp)))).is_suffix_of(
            shadowsocks_link(config, ip, isp),
        ),
{
    reveal_strlit(";path%3D");
    reveal_strlit("%2F");
    reveal_strlit(";path%3D%2F");
    reveal_strlit(";skip-cert-verify%3Dtrue;mux%3D0#");
    reveal_strlit(";skip-cert-verify%3Dtrue;mux%3D0");
    reveal_strlit("#");
    let ss = shadowsocks_link(config, ip, isp);
    let name_text = spec_query_escape(encode_utf8(node_name(config, isp)));
    let name = "#"@ + name_text;
    let sp = "ss://"@ + base64_text(encode_utf8("none:"@ + config.uuid_text@)) + authority_text(ip);
    let plugin = "?plugin=v2ray-plugin;mode%3Dwebsocket;host%3D"@ + ip.domain@ + ";path%3D%2F"@
        + spec_query_escape(encode_utf8(config.ws_path@)) + ";"@;
    let opt = if ip.tls {
        "tls;"@
    } else {
        Seq::empty()
    };
    let stail = opt + "sni%3D"@ + ip.domain@ + ";skip-cert-verify%3Dtrue;mux%3D0"@ + name;
    assert(ss =~= sp + plugin + stail);
    assert(sp =~= ss.subrange(0, sp.len() as int));
    lemma_contains_between(sp, plugin, stail);
    assert(name =~= ss.subrange(ss.len() - name.len(), ss.len() as int));
}

} // verus!
