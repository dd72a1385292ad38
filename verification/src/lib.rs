//! Protocol parsing, domain policy, subscription links, configuration and
//! the decisions of a VLESS / Trojan / Shadowsocks WebSocket proxy.
pub mod text;
pub mod address;
pub mod protocol;
pub mod policy;
pub mod config;
pub mod subscription;
pub mod dns;
pub mod external;
pub mod monitor;
pub mod session;
