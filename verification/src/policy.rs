//! Which destination hosts the proxy refuses: speed-test sites and their
//! subdomains, compared case-insensitively and without trailing dots.
use vstd::prelude::*;
use crate::text::chars_of;

verus! {

/// Decides whether a destination host is refused.
pub trait DomainPolicy: Send + Sync {
    /// Whether the policy refuses a host.
    spec fn blocks(&self, host: Seq<char>) -> bool;

    fn is_blocked(&self, host: &str) -> (b: bool)
        ensures
            b == self.blocks(host@),
    ;
}

/// Refuses a fixed list of domains and every subdomain of them.
#[derive(Debug, Clone)]
pub struct BlockedDomainPolicy {
    blocked_domains: Vec<String>,
}

impl View for BlockedDomainPolicy {
    type V = Seq<Seq<char>>;

    closed spec fn view(&self) -> Seq<Seq<char>> {
        self.blocked_domains@.map_values(|d: String| d@)
    }
}

/// The domains refused by default: well-known speed-test services.
pub open spec fn default_blocked_domains() -> Seq<Seq<char>> {
    seq![
        "speedtest.net"@,
        "fast.com"@,
        "speedtest.cn"@,
        "speed.cloudflare.com"@,
        "speedof.me"@,
        "testmy.net"@,
        "bandwidth.place"@,
        "speed.io"@,
        "librespeed.org"@,
        "speedcheck.org"@,
    ]
}

/// ASCII `A`..`Z` mapped to `a`..`z`; every other character unchanged.
pub open spec fn ascii_lowercase(c: char) -> char {
    if 65 <= (c as u32) <= 90 {
        (((c as u32) + 32) as u8) as char
    } else {
        c
    }
}

/// A text with every character mapped by [`ascii_lowercase`].
pub open spec fn ascii_lowercase_text(s: Seq<char>) -> Seq<char> {
    s.map_values(|c: char| ascii_lowercase(c))
}

/// A text without its trailing dots.
pub open spec fn trim_trailing_dots(s: Seq<char>) -> Seq<char>
    decreases s.len(),
{
    if s.len() > 0 && s.last() == '.' {
        trim_trailing_dots(s.drop_last())
    } else {
        s
    }
}

/// The form in which hosts are compared: trailing dots removed, ASCII lowercase.
pub open spec fn normalized_host(s: Seq<char>) -> Seq<char> {
    ascii_lowercase_text(trim_trailing_dots(s))
}

/// Whether `host` is `domain` or a subdomain of it.
pub open spec fn matches_domain(host: Seq<char>, domain: Seq<char>) -> bool {
    ||| host == domain
    ||| host.len() > domain.len() && host.subrange(host.len() - domain.len() - 1, host.len() as int)
        == seq!['.'] + domain
}

/// Whether a non-empty host, normalised, is one of `domains` or a subdomain of one.
pub open spec fn spec_is_blocked(domains: Seq<Seq<char>>, host: Seq<char>) -> bool {
    &&& host.len() > 0
    &&& exists|i: int| 0 <= i < domains.len() && #[trigger] matches_domain(normalized_host(host), domains[i])
}

impl Default for BlockedDomainPolicy {
    fn default() -> (p: Self)
        ensures
            p@ == default_blocked_domains(),
    {
        let mut blocked_domains: Vec<String> = Vec::new();
        blocked_domains.push("speedtest.net".to_owned());
        blocked_domains.push("fast.com".to_owned());
        blocked_domains.push("speedtest.cn".to_owned());
        blocked_domains.push("speed.cloudflare.com".to_owned());
        blocked_domains.push("speedof.me".to_owned());
        blocked_domains.push("testmy.net".to_owned());
        blocked_domains.push("bandwidth.place".to_owned());
        blocked_domains.push("speed.io".to_owned());
        blocked_domains.push("librespeed.org".to_owned());
        blocked_domains.push("speedcheck.org".to_owned());
        let p = BlockedDomainPolicy { blocked_domains };
        assert(p@ == default_blocked_domains());
        p
    }
}

/// Whether `host` equals `domain` or ends with `.` followed by `domain`.
fn host_matches(host: &Vec<char>, domain: &Vec<char>) -> (b: bool)
    ensures
        b == matches_domain(host@, domain@),
{
    let hl = host.len();
    let dl = domain.len();
    if hl == dl {
        let mut i: usize = 0;
        while i < hl
            invariant
                hl == host@.len(),
                dl == domain@.len(),
                hl == dl,
                i <= hl,
                forall|j: int| 0 <= j < i ==> host@[j] == domain@[j],
            decreases hl - i,
        {
            if host[i] != domain[i] {
                return false;
            }
            i += 1;
        }
        assert(host@ == domain@);
        true
    } else if hl > dl {
        let start = hl - dl - 1;
        if host[start] != '.' {
            assert(host@.subrange(start as int, hl as int)[0] != (seq!['.'] + domain@)[0]);
            return false;
        }
        let mut i: usize = 0;
        while i < dl
            invariant
                hl == host@.len(),
                dl == domain@.len(),
                hl > dl,
                start == hl - dl - 1,
                host@[start as int] == '.',
                i <= dl,
                forall|j: int| 0 <= j < i ==> host@[start + 1 + j] == domain@[j],
            decreases dl - i,
        {
            if host[start + 1 + i] != domain[i] {
                assert(host@.subrange(start as int, hl as int)[i + 1] != (seq!['.'] + domain@)[i
                    + 1]);
                return false;
            }
            i += 1;
        }
        assert(host@.subrange(start as int, hl as int) == seq!['.'] + domain@);
        true
    } else {
        false
    }
}

proof fn lemma_trim_prefix(s: Seq<char>, end: int)
    requires
        0 <= end <= s.len(),
        forall|j: int| end <= j < s.len() ==> s[j] == '.',
    ensures
        trim_trailing_dots(s) == trim_trailing_dots(s.subrange(0, end)),
    decreases s.len(),
{
    if s.len() > end {
        assert(s.drop_last() == s.subrange(0, s.len() - 1));
        lemma_trim_prefix(s.drop_last(), end);
        assert(s.drop_last().subrange(0, end) == s.subrange(0, end));
    } else {
        assert(s.subrange(0, end) == s);
    }
}

/// The normalised characters of a host: trailing dots removed, ASCII lowercase.
fn normalize(host: &str) -> (v: Vec<char>)
    ensures
        v@ == normalized_host(host@),
{
    let chars = chars_of(host);
    let mut end = chars.len();
    while end > 0 && chars[end - 1] == '.'
        invariant
            end <= chars@.len(),
            forall|j: int| end <= j < chars@.len() ==> chars@[j] == '.',
        decreases end,
    {
        end -= 1;
    }
    proof {
        lemma_trim_prefix(chars@, end as int);
        assert(trim_trailing_dots(chars@.subrange(0, end as int)) == chars@.subrange(0, end as int));
    }
    let mut v: Vec<char> = Vec::new();
    let mut i: usize = 0;
    while i < end
        invariant
            end <= chars@.len(),
            i <= end,
            v@ == ascii_lowercase_text(chars@.subrange(0, i as int)),
        decreases end - i,
    {
        let c = chars[i];
        let code = c as u32;
        let lc = if 65 <= code && code <= 90 {
            ((c as u32) + 32) as u8 as char
        } else {
            c
        };
        assert(lc == ascii_lowercase(c));
        v.push(lc);
        assert(chars@.subrange(0, i + 1) == chars@.subrange(0, i as int).push(c));
        i += 1;
    }
    v
}

impl DomainPolicy for BlockedDomainPolicy {
    open spec fn blocks(&self, host: Seq<char>) -> bool {
        spec_is_blocked(self@, host)
    }

    fn is_blocked(&self, host: &str) -> (b: bool) {
        if host.is_empty() {
            return false;
        }
        let normalized = normalize(host);
        let n = self.blocked_domains.len();
        let mut i: usize = 0;
        while i < n
            invariant
                n == self.blocked_domains@.len(),
                n == self@.len(),
                i <= n,
                normalized@ == normalized_host(host@),
                host@.len() > 0,
                forall|j: int| 0 <= j < i ==> !matches_domain(normalized@, #[trigger] self@[j]),
            decreases n - i,
        {
            let domain = chars_of(self.blocked_domains[i].as_str());
            assert(domain@ == self@[i as int]);
            if host_matches(&normalized, &domain) {
                assert(matches_domain(normalized_host(host@), self@[i as int]));
                return true;
            }
            i += 1;
        }
        false
    }
}


proof fn lemma_lowercase_idempotent(c: char)
    ensures
        ascii_lowercase(ascii_lowercase(c)) == ascii_lowercase(c),
{
    if 65 <= (c as u32) <= 90 {
        let l = (((c as u32) + 32) as u8) as char;
        assert((l as u32) == (c as u32) + 32);
    }
}

proof fn lemma_trim_lowercase(s: Seq<char>)
    ensures
        trim_trailing_dots(ascii_lowercase_text(s)) == ascii_lowercase_text(trim_trailing_dots(s)),
    decreases s.len(),
{
    let l = ascii_lowercase_text(s);
    if s.len() > 0 {
        assert(l.drop_last() == ascii_lowercase_text(s.drop_last()));
        assert(l.last() == ascii_lowercase(s.last()));
        if s.last() == '.' {
            lemma_trim_lowercase(s.drop_last());
        } else {
            assert(ascii_lowercase(s.last()) != '.');
        }
    }
}

proof fn lemma_trim_after_label(label: Seq<char>, host: Seq<char>)
    requires
        trim_trailing_dots(host).len() > 0,
    ensures
        trim_trailing_dots(label + seq!['.'] + host) == label + seq!['.'] + trim_trailing_dots(host),
    decreases host.len(),
{
    let whole = label + seq!['.'] + host;
    if host.len() > 0 && host.last() == '.' {
        assert(whole.drop_last() == label + seq!['.'] + host.drop_last());
        lemma_trim_after_label(label, host.drop_last());
    }
}

/// Blocking ignores ASCII case: a host is refused exactly when its
/// lowercase form is.
pub proof fn law_blocking_ignores_ascii_case(policy: BlockedDomainPolicy, host: Seq<char>)
    ensures
        spec_is_blocked(policy@, host) == spec_is_blocked(policy@, ascii_lowercase_text(host)),
{
    let lower = ascii_lowercase_text(host);
    lemma_trim_lowercase(host);
    let t = trim_trailing_dots(host);
    assert(ascii_lowercase_text(ascii_lowercase_text(t)) == ascii_lowercase_text(t)) by {
        assert forall|i: int| 0 <= i < t.len() implies ascii_lowercase_text(ascii_lowercase_text(t))[i]
            == ascii_lowercase_text(t)[i] by {
            lemma_lowercase_idempotent(t[i]);
        }
    }
    assert(normalized_host(lower) == normalized_host(host));
}

/// Trailing dots do not matter: a non-empty host is refused exactly when the
/// same host with one more trailing dot is.
pub proof fn law_blocking_ignores_trailing_dot(policy: BlockedDomainPolicy, host: Seq<char>)
    requires
        host.len() > 0,
    ensures
        spec_is_blocked(policy@, host) == spec_is_blocked(policy@, host.push('.')),
{
    assert(host.push('.').drop_last() == host);
    assert(normalized_host(host.push('.')) == normalized_host(host));
}

/// Every subdomain of a refused host is refused too (for a host that is not
/// made of dots only).
pub proof fn law_subdomains_of_blocked_hosts_are_blocked(
    policy: BlockedDomainPolicy,
    label: Seq<char>,
    host: Seq<char>,
)
    requires
        trim_trailing_dots(host).len() > 0,
        spec_is_blocked(policy@, host),
    ensures
        spec_is_blocked(policy@, label + seq!['.'] + host),
{
    let sub = label + seq!['.'] + host;
    let n = normalized_host(host);
    let i = choose|i: int| 0 <= i < policy@.len() && #[trigger] matches_domain(n, policy@[i]);
    let d = policy@[i];
    lemma_trim_after_label(label, host);
    let t = trim_trailing_dots(host);
    let ns = normalized_host(sub);
    assert(ns == ascii_lowercase_text(label) + seq!['.'] + n);
    assert(ns.len() > d.len());
    if n == d {
        assert(ns.subrange(ns.len() - d.len() - 1, ns.len() as int) == seq!['.'] + d);
    } else {
        assert(n.subrange(n.len() - d.len() - 1, n.len() as int) == seq!['.'] + d);
        assert(ns.subrange(ns.len() - d.len() - 1, ns.len() as int) == n.subrange(
            n.len() - d.len() - 1,
            n.len() as int,
        ));
    }
    assert(matches_domain(ns, d));
    assert(sub.len() > 0);
}


/// The default policy refuses the speed-test services and nothing else: a
/// host is refused by default exactly when it is non-empty and, once
/// normalised, is one of these ten domains or a subdomain of one.
pub proof fn law_default_policy_refuses_only_speed_tests(host: Seq<char>)
    ensures
        spec_is_blocked(default_blocked_domains(), host) <==> {
            let n = normalized_host(host);
            &&& host.len() > 0
            &&& {
                ||| matches_domain(n, "speedtest.net"@)
                ||| matches_domain(n, "fast.com"@)
                ||| matches_domain(n, "speedtest.cn"@)
                ||| matches_domain(n, "speed.cloudflare.com"@)
                ||| matches_domain(n, "speedof.me"@)
                ||| matches_domain(n, "testmy.net"@)
                ||| matches_domain(n, "bandwidth.place"@)
                ||| matches_domain(n, "speed.io"@)
                ||| matches_domain(n, "librespeed.org"@)
                ||| matches_domain(n, "speedcheck.org"@)
            }
        },
{
    let d = default_blocked_domains();
    let n = normalized_host(host);
    assert(d.len() == 10);
    if spec_is_blocked(d, host) {
        let i = choose|i: int| 0 <= i < d.len() && #[trigger] matches_domain(n, d[i]);
        assert(0 <= i < 10);
    }
    if host.len() > 0 {
        if matches_domain(n, "speedtest.net"@) {
            assert(matches_domain(n, d[0]));
        } else if matches_domain(n, "fast.com"@) {
            assert(matches_domain(n, d[1]));
        } else if matches_domain(n, "speedtest.cn"@) {
            assert(matches_domain(n, d[2]));
        } else if matches_domain(n, "speed.cloudflare.com"@) {
            assert(matches_domain(n, d[3]));
        } else if matches_domain(n, "speedof.me"@) {
            assert(matches_domain(n, d[4]));
        } else if matches_domain(n, "testmy.net"@) {
            assert(matches_domain(n, d[5]));
        } else if matches_domain(n, "bandwidth.place"@) {
            assert(matches_domain(n, d[6]));
        } else if matches_domain(n, "speed.io"@) {
            assert(matches_domain(n, d[7]));
        } else if matches_domain(n, "librespeed.org"@) {
            assert(matches_domain(n, d[8]));
        } else if matches_domain(n, "speedcheck.org"@) {
            assert(matches_domain(n, d[9]));
        }
    }
}

} // verus!
