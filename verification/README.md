# rws

A WebSocket proxy for VLESS, Trojan and Shadowsocks clients, whose protocol
logic is a Verus-verified library.

- `src/` is the library, verified by Verus: first-packet parsing
  (`protocol`, with address text in `address`), the blocked-domain policy
  (`policy`), configuration from key/value settings (`config`), the
  subscription document (`subscription`), the DNS answer choice and the
  answer cache (`dns`), the decisions around external services (`external`)
  and the monitoring agent (`monitor`), and the decisions of a proxied
  session (`session`). `text` holds the character-level helpers.
- `app/` is the server around it: environment, HTTP routes, WebSocket
  relaying, DNS-over-HTTPS and system resolution, TCP connections, and the
  agent process.
- `tests/` exercises the library on concrete inputs.
