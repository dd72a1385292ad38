//! Configuration from key/value settings (the process environment), with
//! defaults for every setting.
use vstd::prelude::*;
use crate::text::{chars_of, push_str, string_of_chars};

verus! {

/// The UUID used when `UUID` is unset or empty.
pub const DEFAULT_UUID: &'static str = "5efabea4-f6d4-91fd-b8f0-17e004c89c60";

/// The proxy's configuration.
#[derive(Debug, Clone)]
pub struct Config {
    /// The sixteen bytes of the user's UUID.
    pub uuid: [u8; 16],
    /// The UUID as it was configured.
    pub uuid_text: String,
    pub nezha_server: Option<String>,
    pub nezha_port: Option<String>,
    pub nezha_key: Option<String>,
    pub domain: Option<String>,
    pub auto_access: bool,
    /// WebSocket path, without leading slashes.
    pub ws_path: String,
    pub sub_path: String,
    pub name: Option<String>,
    pub port: u16,
}

#[verifier::external_type_specification]
#[verifier::external_body]
pub struct ExUuidError(uuid::Error);

#[verifier::external_type_specification]
#[verifier::external_body]
pub struct ExParseIntError(std::num::ParseIntError);

#[verifier::external_type_specification]
#[verifier::external_body]
pub struct ExParseBoolError(std::str::ParseBoolError);

/// Why a configuration was refused.
#[derive(Debug)]
pub enum ConfigError {
    InvalidUuid { value: String, source: uuid::Error },
    InvalidPort { value: String, source: std::num::ParseIntError },
    InvalidBool { value: String, source: std::str::ParseBoolError },
    /// `WSPATH` is empty and the UUID text has no 8-byte prefix without hyphens.
    InvalidWsPath,
}

/// The bytes of the UUID that `uuid::Uuid::parse_str` reads from a text, or
/// `None` where it refuses the text.
pub uninterp spec fn parsed_uuid(text: Seq<char>) -> Option<Seq<u8>>;

/// Whether every character is ASCII.
pub open spec fn all_ascii(s: Seq<char>) -> bool {
    forall|i: int| 0 <= i < s.len() ==> (#[trigger] s[i] as u32) < 0x80
}

/// Parses a UUID.
///
/// Calls `uuid::Uuid::parse_str` (then `Uuid::into_bytes`). Which texts it
/// accepts, and the bytes it reads, are named by [`parsed_uuid`]. Stated
/// besides: it accepts only ASCII texts (32 hex digits, optionally with four
/// hyphens, braces or a `urn:uuid:` prefix), so an accepted text holds at
/// least 32 characters that are not hyphens.
#[verifier::external_body]
fn parse_uuid(text: &str) -> (r: Result<[u8; 16], uuid::Error>)
    ensures
        r is Ok <==> parsed_uuid(text@) is Some,
        r matches Ok(b) ==> parsed_uuid(text@) == Some(b@),
        r is Ok ==> all_ascii(text@) && without_hyphens(text@).len() >= 32,
{
    uuid::Uuid::parse_str(text).map(|u| u.into_bytes())
}

/// Whether a character is an ASCII decimal digit.
pub open spec fn is_digit(c: char) -> bool {
    48 <= (c as u32) <= 57
}

/// The value of a text of decimal digits.
pub open spec fn digits_value(s: Seq<char>) -> nat
    decreases s.len(),
{
    if s.len() == 0 {
        0
    } else {
        digits_value(s.drop_last()) * 10 + ((s.last() as u32) - 48) as nat
    }
}

/// What `str::parse::<u16>` gives: an optional `+` followed by at least one
/// decimal digit, and nothing else, with a value that fits in 16 bits.
pub open spec fn spec_parse_u16(s: Seq<char>) -> Option<u16> {
    let digits = if s.len() > 0 && s[0] == '+' {
        s.drop_first()
    } else {
        s
    };
    if digits.len() > 0 && (forall|i: int| 0 <= i < digits.len() ==> is_digit(#[trigger] digits[i]))
        && digits_value(digits) <= 65535 {
        Some(digits_value(digits) as u16)
    } else {
        None
    }
}

/// What `str::parse::<bool>` gives: `true` and `false`, exactly.
pub open spec fn spec_parse_bool(s: Seq<char>) -> Option<bool> {
    if s == seq!['t', 'r', 'u', 'e'] {
        Some(true)
    } else if s == seq!['f', 'a', 'l', 's', 'e'] {
        Some(false)
    } else {
        None
    }
}

/// Parses a port number.
///
/// Calls std's `str::parse::<u16>`, which accepts an optional `+` sign
/// followed by decimal digits only, and refuses values above `u16::MAX`.
#[verifier::external_body]
fn parse_port(text: &str) -> (r: Result<u16, std::num::ParseIntError>)
    ensures
        r is Ok <==> spec_parse_u16(text@) is Some,
        r matches Ok(p) ==> spec_parse_u16(text@) == Some(p),
{
    text.parse::<u16>()
}

/// Parses a boolean.
///
/// Calls std's `str::parse::<bool>`, which accepts exactly `true` and `false`.
#[verifier::external_body]
fn parse_bool(text: &str) -> (r: Result<bool, std::str::ParseBoolError>)
    ensures
        r is Ok <==> spec_parse_bool(text@) is Some,
        r matches Ok(b) ==> spec_parse_bool(text@) == Some(b),
{
    text.parse::<bool>()
}

/// The texts of key/value pairs.
pub open spec fn pairs_view(pairs: Seq<(String, String)>) -> Seq<(Seq<char>, Seq<char>)> {
    pairs.map_values(|p: (String, String)| (p.0@, p.1@))
}

/// The value of the last pair with the given key (later pairs override
/// earlier ones, as when they are collected into a map).
pub open spec fn lookup(pairs: Seq<(Seq<char>, Seq<char>)>, key: Seq<char>) -> Option<Seq<char>>
    decreases pairs.len(),
{
    if pairs.len() == 0 {
        None
    } else if pairs.last().0 == key {
        Some(pairs.last().1)
    } else {
        lookup(pairs.drop_last(), key)
    }
}

/// The value of a key, unless it is missing or empty.
pub open spec fn setting(pairs: Seq<(Seq<char>, Seq<char>)>, key: Seq<char>) -> Option<Seq<char>> {
    match lookup(pairs, key) {
        Some(v) => if v.len() > 0 {
            Some(v)
        } else {
            None
        },
        None => None,
    }
}

/// The value of a key, or `default` where it is missing or empty.
pub open spec fn setting_or(
    pairs: Seq<(Seq<char>, Seq<char>)>,
    key: Seq<char>,
    default: Seq<char>,
) -> Seq<char> {
    match setting(pairs, key) {
        Some(v) => v,
        None => default,
    }
}

/// The view of an optional string.
pub open spec fn opt_view(o: Option<String>) -> Option<Seq<char>> {
    match o {
        Some(s) => Some(s@),
        None => None,
    }
}

/// A text without its leading slashes.
pub open spec fn trim_leading_slashes(s: Seq<char>) -> Seq<char>
    decreases s.len(),
{
    if s.len() > 0 && s[0] == '/' {
        trim_leading_slashes(s.drop_first())
    } else {
        s
    }
}

/// The number of bytes of a character in UTF-8.
pub open spec fn utf8_width(c: char) -> int {
    if (c as u32) < 0x80 {
        1
    } else if (c as u32) < 0x800 {
        2
    } else if (c as u32) < 0x10000 {
        3
    } else {
        4
    }
}

/// The characters whose UTF-8 encoding is exactly the first `n` bytes of the
/// text's, if `n` falls on a character boundary within it (as `str::get(..n)`).
pub open spec fn utf8_prefix(s: Seq<char>, n: int) -> Option<Seq<char>>
    decreases s.len(),
{
    if n == 0 {
        Some(Seq::empty())
    } else if n < 0 || s.len() == 0 {
        None
    } else if utf8_width(s[0]) > n {
        None
    } else {
        match utf8_prefix(s.drop_first(), n - utf8_width(s[0])) {
            Some(p) => Some(seq![s[0]] + p),
            None => None,
        }
    }
}

/// A prefix put in front of an optional text.
pub open spec fn prefixed(o: Option<Seq<char>>, pre: Seq<char>) -> Option<Seq<char>> {
    match o {
        Some(p) => Some(pre + p),
        None => None,
    }
}

/// The text without its hyphens.
pub open spec fn without_hyphens(s: Seq<char>) -> Seq<char> {
    s.filter(|c: char| c != '-')
}

/// The part of a UUID text that holds its digits: the text without the
/// `urn:uuid:` prefix of the 45-character form, or without the braces of the
/// 38-character form.
pub open spec fn uuid_digits_part(t: Seq<char>) -> Seq<char> {
    if t.len() == 45 {
        t.subrange(9, 45)
    } else if t.len() == 38 && t[0] == '{' && t[37] == '}' {
        t.subrange(1, 37)
    } else {
        t
    }
}

/// The WebSocket path: `WSPATH` without leading slashes, or else the UUID's
/// first eight digits: the first eight bytes of its digit part with hyphens
/// removed.
pub open spec fn spec_ws_path(pairs: Seq<(Seq<char>, Seq<char>)>, uuid_text: Seq<char>) -> Option<
    Seq<char>,
> {
    match setting(pairs, "WSPATH"@) {
        Some(v) => Some(trim_leading_slashes(v)),
        None => utf8_prefix(without_hyphens(uuid_digits_part(uuid_text)), 8),
    }
}

/// The UUID text: `UUID`, or the default UUID.
pub open spec fn spec_uuid_text(pairs: Seq<(Seq<char>, Seq<char>)>) -> Seq<char> {
    setting_or(pairs, "UUID"@, DEFAULT_UUID@)
}

/// What a configuration built from `pairs`, with the UUID text read as
/// `uuid`, holds, field by field; and which error comes first where it fails.
pub open spec fn config_matches(
    pairs: Seq<(Seq<char>, Seq<char>)>,
    uuid: Option<Seq<u8>>,
    r: Result<Config, ConfigError>,
) -> bool {
    let uuid_text = spec_uuid_text(pairs);
    let port_text = setting_or(pairs, "PORT"@, "3000"@);
    let bool_text = setting_or(pairs, "AUTO_ACCESS"@, "false"@);
    match r {
        Ok(c) => {
            &&& uuid == Some(c.uuid@)
            &&& c.uuid_text@ == uuid_text
            &&& spec_parse_u16(port_text) == Some(c.port)
            &&& spec_parse_bool(bool_text) == Some(c.auto_access)
            &&& spec_ws_path(pairs, uuid_text) == Some(c.ws_path@)
            &&& opt_view(c.nezha_server) == setting(pairs, "NEZHA_SERVER"@)
            &&& opt_view(c.nezha_port) == setting(pairs, "NEZHA_PORT"@)
            &&& opt_view(c.nezha_key) == setting(pairs, "NEZHA_KEY"@)
            &&& opt_view(c.domain) == setting(pairs, "DOMAIN"@)
            &&& c.sub_path@ == setting_or(pairs, "SUB_PATH"@, "sub"@)
            &&& opt_view(c.name) == setting(pairs, "NAME"@)
        },
        Err(ConfigError::InvalidUuid { value, .. }) => {
            &&& uuid is None
            &&& value@ == uuid_text
        },
        Err(ConfigError::InvalidPort { value, .. }) => {
            &&& uuid is Some
            &&& spec_parse_u16(port_text) is None
            &&& value@ == port_text
        },
        Err(ConfigError::InvalidBool { value, .. }) => {
            &&& uuid is Some
            &&& spec_parse_u16(port_text) is Some
            &&& spec_parse_bool(bool_text) is None
            &&& value@ == bool_text
        },
        Err(ConfigError::InvalidWsPath) => {
            &&& uuid is Some
            &&& spec_parse_u16(port_text) is Some
            &&& spec_parse_bool(bool_text) is Some
            &&& spec_ws_path(pairs, uuid_text) is None
        },
    }
}

/// The value of the last pair with the given key.
fn find_value(pairs: &Vec<(String, String)>, key: &str) -> (r: Option<String>)
    ensures
        opt_view(r) == lookup(pairs_view(pairs@), key@),
{
    let k = key.to_owned();
    let mut i = pairs.len();
    let ghost pv = pairs_view(pairs@);
    assert(pv.subrange(0, i as int) == pv);
    while i > 0
        invariant
            i <= pairs@.len(),
            pv == pairs_view(pairs@),
            k@ == key@,
            lookup(pv, key@) == lookup(pv.subrange(0, i as int), key@),
        decreases i,
    {
        let ghost sub = pv.subrange(0, i as int);
        assert(sub.drop_last() == pv.subrange(0, i - 1));
        if pairs[i - 1].0 == k {
            return Some(pairs[i - 1].1.clone());
        }
        i -= 1;
    }
    None
}

/// The value of a key, unless it is missing or empty.
pub fn non_empty(pairs: &Vec<(String, String)>, key: &str) -> (r: Option<String>)
    ensures
        opt_view(r) == setting(pairs_view(pairs@), key@),
{
    match find_value(pairs, key) {
        Some(v) => if v.as_str().is_empty() {
            None
        } else {
            Some(v)
        },
        None => None,
    }
}

fn non_empty_or(pairs: &Vec<(String, String)>, key: &str, default: &str) -> (r: String)
    ensures
        r@ == setting_or(pairs_view(pairs@), key@, default@),
{
    match non_empty(pairs, key) {
        Some(v) => v,
        None => default.to_owned(),
    }
}

/// A text without its leading slashes.
pub fn trim_leading_slash(value: &str) -> (r: String)
    ensures
        r@ == trim_leading_slashes(value@),
{
    let chars = chars_of(value);
    let mut start: usize = 0;
    assert(chars@.subrange(0, chars@.len() as int) == chars@);
    while start < chars.len() && chars[start] == '/'
        invariant
            start <= chars@.len(),
            trim_leading_slashes(chars@) == trim_leading_slashes(chars@.subrange(start as int, chars@.len() as int)),
        decreases chars@.len() - start,
    {
        let ghost rest = chars@.subrange(start as int, chars@.len() as int);
        assert(rest.drop_first() == chars@.subrange(start + 1, chars@.len() as int));
        start += 1;
    }
    let ghost rest = chars@.subrange(start as int, chars@.len() as int);
    assert(chars@.subrange(0, chars@.len() as int) == chars@);
    let mut out: Vec<char> = Vec::new();
    let mut i = start;
    while i < chars.len()
        invariant
            start <= i <= chars@.len(),
            out@ == chars@.subrange(start as int, i as int),
        decreases chars@.len() - i,
    {
        out.push(chars[i]);
        i += 1;
    }
    string_of_chars(&out)
}

fn char_width(c: char) -> (w: usize)
    ensures
        w == utf8_width(c),
{
    let code = c as u32;
    if code < 0x80 {
        1
    } else if code < 0x800 {
        2
    } else if code < 0x10000 {
        3
    } else {
        4
    }
}

proof fn lemma_utf8_prefix_step(s: Seq<char>, k: int, n: int, used: int)
    requires
        0 <= k < s.len(),
        utf8_prefix(s, n) == prefixed(utf8_prefix(s.subrange(k, s.len() as int), n - used), s.subrange(0, k)),
        n - used > 0,
        utf8_width(s[k]) <= n - used,
    ensures
        utf8_prefix(s, n) == prefixed(utf8_prefix(s.subrange(k + 1, s.len() as int), n - used - utf8_width(s[k])), s.subrange(0, k + 1)),
{
    let rest = s.subrange(k, s.len() as int);
    assert(rest.drop_first() == s.subrange(k + 1, s.len() as int));
    assert(rest[0] == s[k]);
    match utf8_prefix(rest.drop_first(), n - used - utf8_width(s[k])) {
        Some(p) => {
            assert(s.subrange(0, k) + (seq![s[k]] + p) == s.subrange(0, k + 1) + p);
        },
        None => {},
    }
}

/// The first `n` bytes of the characters, if `n` falls on a character boundary.
fn byte_prefix(chars: &Vec<char>, n: usize) -> (r: Option<Vec<char>>)
    requires
        n <= 8,
    ensures
        match r {
            Some(v) => utf8_prefix(chars@, n as int) == Some(v@),
            None => utf8_prefix(chars@, n as int) is None,
        },
{
    let mut used: usize = 0;
    let mut k: usize = 0;
    let ghost s = chars@;
    assert(s.subrange(0, s.len() as int) == s);
    assert(utf8_prefix(s, n as int) == prefixed(utf8_prefix(s.subrange(0, s.len() as int), n as int), s.subrange(0, 0))) by {
        match utf8_prefix(s, n as int) {
            Some(p) => { assert(s.subrange(0, 0) + p == p); },
            None => {},
        }
    }
    while used < n
        invariant
            s == chars@,
            n <= 8,
            used <= n,
            k <= s.len(),
            utf8_prefix(s, n as int) == prefixed(utf8_prefix(s.subrange(k as int, s.len() as int), n - used), s.subrange(0, k as int)),
        decreases n - used,
    {
        if k >= chars.len() {
            return None;
        }
        let w = char_width(chars[k]);
        if w > n - used {
            let ghost rest = s.subrange(k as int, s.len() as int);
            assert(rest[0] == s[k as int]);
            return None;
        }
        proof {
            lemma_utf8_prefix_step(s, k as int, n as int, used as int);
        }
        used += w;
        k += 1;
    }
    let mut out: Vec<char> = Vec::new();
    let mut i: usize = 0;
    while i < k
        invariant
            k <= chars@.len(),
            i <= k,
            out@ == chars@.subrange(0, i as int),
        decreases k - i,
    {
        out.push(chars[i]);
        i += 1;
    }
    assert(s.subrange(0, k as int) + Seq::<char>::empty() == out@);
    Some(out)
}

proof fn lemma_filter_push(s: Seq<char>, c: char)
    ensures
        without_hyphens(s.push(c)) == if c != '-' {
            without_hyphens(s).push(c)
        } else {
            without_hyphens(s)
        },
{
    reveal(Seq::filter);
    assert(s.push(c).drop_last() == s);
}

/// The WebSocket path for the given settings and UUID text.
fn ws_path_of(pairs: &Vec<(String, String)>, uuid_text: &String) -> (r: Option<String>)
    ensures
        opt_view(r) == spec_ws_path(pairs_view(pairs@), uuid_text@),
{
    match non_empty(pairs, "WSPATH") {
        Some(v) => Some(trim_leading_slash(v.as_str())),
        None => {
            let chars = chars_of(uuid_text.as_str());
            let n = chars.len();
            let (start, end) = if n == 45 {
                (9, 45)
            } else if n == 38 && chars[0] == '{' && chars[37] == '}' {
                (1, 37)
            } else {
                (0, n)
            };
            let ghost core = chars@.subrange(start as int, end as int);
            assert(core == uuid_digits_part(chars@));
            let mut kept: Vec<char> = Vec::new();
            let mut i: usize = start;
            while i < end
                invariant
                    start <= i <= end <= chars@.len(),
                    kept@ == without_hyphens(chars@.subrange(start as int, i as int)),
                decreases end - i,
            {
                proof {
                    lemma_filter_push(chars@.subrange(start as int, i as int), chars@[i as int]);
                    assert(chars@.subrange(start as int, i + 1) == chars@.subrange(start as int, i as int).push(
                        chars@[i as int],
                    ));
                }
                if chars[i] != '-' {
                    kept.push(chars[i]);
                }
                i += 1;
            }
            match byte_prefix(&kept, 8) {
                Some(p) => Some(string_of_chars(&p)),
                None => None,
            }
        },
    }
}

impl Config {
    /// Builds a configuration from key/value settings.
    pub fn from_pairs(pairs: Vec<(String, String)>) -> (r: Result<Config, ConfigError>)
        ensures
            config_matches(
                pairs_view(pairs@),
                parsed_uuid(spec_uuid_text(pairs_view(pairs@))),
                r,
            ),
            !(r matches Err(ConfigError::InvalidWsPath)),
            parsed_uuid(spec_uuid_text(pairs_view(pairs@))) is Some ==> all_ascii(
                spec_uuid_text(pairs_view(pairs@)),
            ) && without_hyphens(spec_uuid_text(pairs_view(pairs@))).len() >= 32,
    {
        let uuid_text = non_empty_or(&pairs, "UUID", DEFAULT_UUID);
        let parsed = parse_uuid(uuid_text.as_str());
        proof {
            if parsed is Ok {
                lemma_ws_path_exists(pairs_view(pairs@), uuid_text@);
            }
        }
        Self::from_parsed_uuid(pairs, uuid_text, parsed)
    }

    /// Builds a configuration from key/value settings, given the UUID text
    /// they select and what reading that text as a UUID gave.
    pub fn from_parsed_uuid(
        pairs: Vec<(String, String)>,
        uuid_text: String,
        parsed: Result<[u8; 16], uuid::Error>,
    ) -> (r: Result<Config, ConfigError>)
        requires
            uuid_text@ == spec_uuid_text(pairs_view(pairs@)),
        ensures
            config_matches(
                pairs_view(pairs@),
                match parsed {
                    Ok(b) => Some(b@),
                    Err(_) => None,
                },
                r,
            ),
    {
        let uuid = match parsed {
            Ok(b) => b,
            Err(source) => {
                return Err(ConfigError::InvalidUuid { value: uuid_text, source });
            },
        };
        let port_text = non_empty_or(&pairs, "PORT", "3000");
        let port = match parse_port(port_text.as_str()) {
            Ok(p) => p,
            Err(source) => {
                return Err(ConfigError::InvalidPort { value: port_text, source });
            },
        };
        let auto_access_text = non_empty_or(&pairs, "AUTO_ACCESS", "false");
        let auto_access = match parse_bool(auto_access_text.as_str()) {
            Ok(b) => b,
            Err(source) => {
                return Err(ConfigError::InvalidBool { value: auto_access_text, source });
            },
        };
        let ws_path = match ws_path_of(&pairs, &uuid_text) {
            Some(p) => p,
            None => {
                return Err(ConfigError::InvalidWsPath);
            },
        };
        Ok(
            Config {
                uuid,
                uuid_text,
                nezha_server: non_empty(&pairs, "NEZHA_SERVER"),
                nezha_port: non_empty(&pairs, "NEZHA_PORT"),
                nezha_key: non_empty(&pairs, "NEZHA_KEY"),
                domain: non_empty(&pairs, "DOMAIN"),
                auto_access,
                ws_path,
                sub_path: non_empty_or(&pairs, "SUB_PATH", "sub"),
                name: non_empty(&pairs, "NAME"),
                port,
            },
        )
    }
}

impl ConfigError {
    /// A one-line description of the error.
    pub fn message(&self) -> (s: String)
        ensures
            s@ == match self {
                ConfigError::InvalidUuid { value, .. } => "invalid UUID `"@ + value@ + "`"@,
                ConfigError::InvalidPort { value, .. } => "invalid PORT `"@ + value@ + "`"@,
                ConfigError::InvalidBool { value, .. } => "invalid AUTO_ACCESS `"@ + value@ + "`"@,
                ConfigError::InvalidWsPath => "WSPATH is empty and UUID cannot provide an 8 byte prefix"@,
            },
    {
        match self {
            ConfigError::InvalidUuid { value, .. } => {
                let mut s = "invalid UUID `".to_owned();
                push_str(&mut s, value.as_str());
                push_str(&mut s, "`");
                s
            },
            ConfigError::InvalidPort { value, .. } => {
                let mut s = "invalid PORT `".to_owned();
                push_str(&mut s, value.as_str());
                push_str(&mut s, "`");
                s
            },
            ConfigError::InvalidBool { value, .. } => {
                let mut s = "invalid AUTO_ACCESS `".to_owned();
                push_str(&mut s, value.as_str());
                push_str(&mut s, "`");
                s
            },
            ConfigError::InvalidWsPath => "WSPATH is empty and UUID cannot provide an 8 byte prefix".to_owned(),
        }
    }
}

/// A setting given more than once takes its last value.
pub proof fn law_last_setting_wins(
    pairs: Seq<(Seq<char>, Seq<char>)>,
    key: Seq<char>,
    value: Seq<char>,
)
    ensures
        lookup(pairs.push((key, value)), key) == Some(value),
{
}

proof fn lemma_trim_leading_slashes(s: Seq<char>)
    ensures
        trim_leading_slashes(s).len() > 0 ==> trim_leading_slashes(s)[0] != '/',
    decreases s.len(),
{
    if s.len() > 0 && s[0] == '/' {
        lemma_trim_leading_slashes(s.drop_first());
    }
}

/// A configured WebSocket path never starts with a slash.
pub proof fn law_configured_ws_path_has_no_leading_slash(
    pairs: Seq<(Seq<char>, Seq<char>)>,
    uuid_text: Seq<char>,
)
    requires
        setting(pairs, "WSPATH"@) is Some,
    ensures
        spec_ws_path(pairs, uuid_text) matches Some(p) ==> (p.len() > 0 ==> p[0] != '/'),
{
    lemma_trim_leading_slashes(setting(pairs, "WSPATH"@)->0);
}

proof fn lemma_filter_keeps_all(a: Seq<char>)
    requires
        forall|i: int| 0 <= i < a.len() ==> a[i] != '-',
    ensures
        without_hyphens(a) == a,
    decreases a.len(),
{
    reveal(Seq::filter);
    if a.len() > 0 {
        lemma_filter_keeps_all(a.drop_last());
        assert(a.drop_last().push(a.last()) == a);
    }
}

proof fn lemma_ascii_prefix(a: Seq<char>, rest: Seq<char>)
    requires
        forall|i: int| 0 <= i < a.len() ==> (a[i] as u32) < 0x80,
    ensures
        utf8_prefix(a + rest, a.len() as int) == Some(a),
    decreases a.len(),
{
    if a.len() > 0 {
        let x = a + rest;
        assert(x[0] == a[0]);
        assert(x.drop_first() == a.drop_first() + rest);
        lemma_ascii_prefix(a.drop_first(), rest);
        assert(seq![a[0]] + a.drop_first() == a);
    }
}

/// Without `WSPATH`, the WebSocket path is the UUID's first eight
/// characters, after any `urn:uuid:` prefix or opening brace, when they are
/// ASCII and hold no hyphen (as in every UUID text that parses).
pub proof fn law_default_ws_path_is_uuid_prefix(
    pairs: Seq<(Seq<char>, Seq<char>)>,
    uuid_text: Seq<char>,
)
    requires
        setting(pairs, "WSPATH"@) is None,
        uuid_digits_part(uuid_text).len() >= 8,
        forall|i: int|
            0 <= i < 8 ==> (uuid_digits_part(uuid_text)[i] as u32) < 0x80 && uuid_digits_part(
                uuid_text,
            )[i] != '-',
    ensures
        spec_ws_path(pairs, uuid_text) == Some(uuid_digits_part(uuid_text).subrange(0, 8)),
{
    let c = uuid_digits_part(uuid_text);
    let a = c.subrange(0, 8);
    let b = c.subrange(8, c.len() as int);
    assert(a + b == c);
    Seq::filter_distributes_over_add(a, b, |c: char| c != '-');
    lemma_filter_keeps_all(a);
    lemma_ascii_prefix(a, without_hyphens(b));
}

proof fn lemma_filter_ascii(t: Seq<char>)
    requires
        all_ascii(t),
    ensures
        all_ascii(without_hyphens(t)),
    decreases t.len(),
{
    reveal(Seq::filter);
    if t.len() > 0 {
        lemma_filter_ascii(t.drop_last());
        let w = without_hyphens(t.drop_last());
        if t.last() != '-' {
            assert forall|i: int| 0 <= i < w.push(t.last()).len() implies (#[trigger] w.push(
                t.last(),
            )[i] as u32) < 0x80 by {
                if i < w.len() {
                    assert(w.push(t.last())[i] == w[i]);
                }
            }
        }
    }
}

proof fn lemma_ws_path_exists(pairs: Seq<(Seq<char>, Seq<char>)>, t: Seq<char>)
    requires
        all_ascii(t),
        without_hyphens(t).len() >= 32,
    ensures
        spec_ws_path(pairs, t) is Some,
{
    if setting(pairs, "WSPATH"@) is None {
        let c = uuid_digits_part(t);
        let (start, end) = if t.len() == 45 {
            (9int, 45int)
        } else if t.len() == 38 && t[0] == '{' && t[37] == '}' {
            (1int, 37int)
        } else {
            (0int, t.len() as int)
        };
        let pre = t.subrange(0, start);
        let post = t.subrange(end, t.len() as int);
        assert(c == t.subrange(start, end));
        assert(pre + c + post == t);
        Seq::filter_distributes_over_add(pre + c, post, |x: char| x != '-');
        Seq::filter_distributes_over_add(pre, c, |x: char| x != '-');
        pre.lemma_filter_len(|x: char| x != '-');
        post.lemma_filter_len(|x: char| x != '-');
        assert(all_ascii(c)) by {
            assert forall|i: int| 0 <= i < c.len() implies (#[trigger] c[i] as u32) < 0x80 by {
                assert(c[i] == t[start + i]);
            }
        }
        let w = without_hyphens(c);
        lemma_filter_ascii(c);
        let a = w.subrange(0, 8);
        let rest = w.subrange(8, w.len() as int);
        assert(a + rest == w);
        assert forall|i: int| 0 <= i < a.len() implies (a[i] as u32) < 0x80 by {
            assert(a[i] == w[i]);
        }
        lemma_ascii_prefix(a, rest);
    }
}


/// Settings left out or empty take the documented defaults: port 3000,
/// automatic access off, subscription path `sub`, and the built-in UUID
/// `5efabea4-f6d4-91fd-b8f0-17e004c89c60`.
pub proof fn law_default_settings(
    pairs: Seq<(Seq<char>, Seq<char>)>,
    uuid: Option<Seq<u8>>,
    c: Config,
)
    requires
        config_matches(pairs, uuid, Ok(c)),
    ensures
        setting(pairs, "PORT"@) is None ==> c.port == 3000,
        setting(pairs, "AUTO_ACCESS"@) is None ==> !c.auto_access,
        setting(pairs, "SUB_PATH"@) is None ==> c.sub_path@ == "sub"@,
        setting(pairs, "UUID"@) is None ==> c.uuid_text@ == "5efabea4-f6d4-91fd-b8f0-17e004c89c60"@,
{
    reveal_strlit("3000");
    reveal_strlit("false");
    let t = "3000"@;
    assert(t =~= seq!['3', '0', '0', '0']);
    assert(t.drop_last().drop_last().drop_last() =~= seq!['3']);
    assert(t.drop_last().drop_last().drop_last().drop_last() =~= Seq::<char>::empty());
    let one = t.drop_last().drop_last().drop_last();
    assert(digits_value(one.drop_last()) == 0);
    assert(('3' as u32) == 51);
    assert(one.last() == '3');
    assert(digits_value(one) == 3);
    assert(digits_value(t.drop_last().drop_last()) == 30);
    assert(digits_value(t.drop_last()) == 300);
    assert(digits_value(t) == 3000);
    assert("false"@ =~= seq!['f', 'a', 'l', 's', 'e']);
}

} // verus!
