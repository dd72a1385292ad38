//! Decisions around the external HTTP services: which address the
//! subscription advertises, how the ISP label reads, and where the
//! keep-alive service is asked to visit.
use vstd::prelude::*;
use crate::subscription::IpInfo;
use crate::text::{chars_of, push_str, string_of_chars};

verus! {

/// The placeholder domain that counts as "not configured".
pub open spec fn placeholder_domain() -> Seq<char> {
    "your-domain.com"@
}

/// The address advertised for a configured domain: that domain over TLS on
/// port 443, unless the domain is missing, empty or the placeholder.
pub fn configured_ip_info(configured_domain: Option<&str>) -> (r: Option<IpInfo>)
    ensures
        match configured_domain {
            Some(d) => if d@.len() > 0 && d@ != placeholder_domain() {
                r matches Some(info) && info.domain@ == d@ && info.tls && info.port == 443
            } else {
                r is None
            },
            None => r is None,
        },
{
    match configured_domain {
        Some(d) => {
            let domain = d.to_owned();
            let placeholder = "your-domain.com".to_owned();
            if d.is_empty() || domain == placeholder {
                None
            } else {
                Some(IpInfo { domain, tls: true, port: 443 })
            }
        },
        None => None,
    }
}

/// Whether a character has the Unicode `White_Space` property (what
/// `char::is_whitespace` tests).
pub open spec fn is_white_space(c: char) -> bool {
    let u = c as u32;
    ||| 9 <= u <= 13
    ||| u == 32
    ||| u == 0x85
    ||| u == 0xA0
    ||| u == 0x1680
    ||| 0x2000 <= u <= 0x200A
    ||| u == 0x2028
    ||| u == 0x2029
    ||| u == 0x202F
    ||| u == 0x205F
    ||| u == 0x3000
}

/// A text without its leading white space.
pub open spec fn trim_start_white(s: Seq<char>) -> Seq<char>
    decreases s.len(),
{
    if s.len() > 0 && is_white_space(s[0]) {
        trim_start_white(s.drop_first())
    } else {
        s
    }
}

/// A text without its trailing white space.
pub open spec fn trim_end_white(s: Seq<char>) -> Seq<char>
    decreases s.len(),
{
    if s.len() > 0 && is_white_space(s.last()) {
        trim_end_white(s.drop_last())
    } else {
        s
    }
}

/// A text without its leading and trailing white space (as `str::trim`).
pub open spec fn trim_white(s: Seq<char>) -> Seq<char> {
    trim_end_white(trim_start_white(s))
}

fn is_white_space_char(c: char) -> (b: bool)
    ensures
        b == is_white_space(c),
{
    let u = c as u32;
    (9 <= u && u <= 13) || u == 32 || u == 0x85 || u == 0xA0 || u == 0x1680 || (0x2000 <= u && u
        <= 0x200A) || u == 0x2028 || u == 0x2029 || u == 0x202F || u == 0x205F || u == 0x3000
}

proof fn lemma_trim_start_at(s: Seq<char>, start: int)
    requires
        0 <= start <= s.len(),
        forall|j: int| 0 <= j < start ==> is_white_space(s[j]),
        start == s.len() || !is_white_space(s[start]),
    ensures
        trim_start_white(s) == s.subrange(start, s.len() as int),
    decreases start,
{
    if start > 0 {
        lemma_trim_start_at(s.drop_first(), start - 1);
        assert(s.drop_first().subrange(start - 1, s.len() - 1) == s.subrange(start, s.len() as int));
    } else {
        assert(s.subrange(0, s.len() as int) == s);
    }
}

proof fn lemma_trim_end_at(s: Seq<char>, end: int)
    requires
        0 <= end <= s.len(),
        forall|j: int| end <= j < s.len() ==> is_white_space(s[j]),
        end == 0 || !is_white_space(s[end - 1]),
    ensures
        trim_end_white(s) == s.subrange(0, end),
    decreases s.len() - end,
{
    if s.len() > end {
        lemma_trim_end_at(s.drop_last(), end);
        assert(s.drop_last().subrange(0, end) == s.subrange(0, end));
    } else {
        assert(s.subrange(0, end) == s);
    }
}

/// A text without its leading and trailing white space.
pub fn trim_white_space(text: &str) -> (r: String)
    ensures
        r@ == trim_white(text@),
{
    let chars = chars_of(text);
    let n = chars.len();
    let mut start: usize = 0;
    while start < n && is_white_space_char(chars[start])
        invariant
            n == chars@.len(),
            start <= n,
            forall|j: int| 0 <= j < start ==> is_white_space(chars@[j]),
        decreases n - start,
    {
        start += 1;
    }
    let mut end: usize = n;
    while end > start && is_white_space_char(chars[end - 1])
        invariant
            n == chars@.len(),
            start <= end <= n,
            forall|j: int| end <= j < n ==> is_white_space(chars@[j]),
        decreases end,
    {
        end -= 1;
    }
    proof {
        lemma_trim_start_at(chars@, start as int);
        let rest = chars@.subrange(start as int, n as int);
        lemma_trim_end_at(rest, (end - start) as int);
        assert(rest.subrange(0, (end - start) as int) == chars@.subrange(start as int, end as int));
    }
    let mut out: Vec<char> = Vec::new();
    let mut i = start;
    while i < end
        invariant
            start <= i <= end <= chars@.len(),
            out@ == chars@.subrange(start as int, i as int),
        decreases end - i,
    {
        out.push(chars[i]);
        i += 1;
    }
    string_of_chars(&out)
}

/// The address advertised when no domain is configured: the address the
/// public-IP service answered (its body without surrounding white space),
/// without TLS on the configured port; or, where detection failed, a
/// fallback host over TLS on port 443.
pub fn detected_ip_info(public_ip_body: Option<&str>, port: u16) -> (r: IpInfo)
    ensures
        match public_ip_body {
            Some(body) => r.domain@ == trim_white(body@) && !r.tls && r.port == port,
            None => r.domain@ == "change-your-domain.com"@ && r.tls && r.port == 443,
        },
{
    match public_ip_body {
        Some(body) => IpInfo { domain: trim_white_space(body), tls: false, port },
        None => IpInfo { domain: "change-your-domain.com".to_owned(), tls: true, port: 443 },
    }
}

/// The ISP label: the first lookup that succeeded, or `Unknown`.
pub fn isp_from_lookups(first: Option<String>, second: Option<String>) -> (r: String)
    ensures
        match first {
            Some(a) => r@ == a@,
            None => match second {
                Some(b) => r@ == b@,
                None => r@ == "Unknown"@,
            },
        },
{
    match first {
        Some(a) => a,
        None => match second {
            Some(b) => b,
            None => "Unknown".to_owned(),
        },
    }
}

/// A text with every space replaced by an underscore.
pub open spec fn spaces_to_underscores(s: Seq<char>) -> Seq<char> {
    s.map_values(|c: char| if c == ' ' { '_' } else { c })
}

/// The ISP label `country-isp`, with spaces replaced by underscores.
pub open spec fn spec_format_isp(country: Seq<char>, isp: Seq<char>) -> Seq<char> {
    spaces_to_underscores(country + "-"@ + isp)
}

/// Formats the ISP label `country-isp`, with spaces replaced by underscores.
pub fn format_isp(country: String, isp: String) -> (r: String)
    ensures
        r@ == spec_format_isp(country@, isp@),
        forall|i: int| 0 <= i < r@.len() ==> r@[i] != ' ',
{
    let mut joined = String::new();
    push_str(&mut joined, country.as_str());
    push_str(&mut joined, "-");
    push_str(&mut joined, isp.as_str());
    let chars = chars_of(joined.as_str());
    let mut out: Vec<char> = Vec::new();
    let n = chars.len();
    for i in 0..n
        invariant
            n == chars@.len(),
            out@ == spaces_to_underscores(chars@.subrange(0, i as int)),
    {
        let c = chars[i];
        if c == ' ' {
            out.push('_');
        } else {
            out.push(c);
        }
        assert(chars@.subrange(0, i + 1) == chars@.subrange(0, i as int).push(c));
    }
    assert(chars@.subrange(0, n as int) == chars@);
    string_of_chars(&out)
}

/// The address the keep-alive service is asked to visit,
/// `https://domain/sub_path`; none for an empty domain.
pub fn access_task_url(domain: &str, sub_path: &str) -> (r: Option<String>)
    ensures
        domain@.len() == 0 ==> r is None,
        domain@.len() > 0 ==> (r matches Some(u) && u@ == "https://"@ + domain@ + "/"@ + sub_path@),
{
    if domain.is_empty() {
        return None;
    }
    let mut url = String::new();
    push_str(&mut url, "https://");
    push_str(&mut url, domain);
    push_str(&mut url, "/");
    push_str(&mut url, sub_path);
    Some(url)
}

} // verus!
