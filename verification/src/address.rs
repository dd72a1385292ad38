//! Textual forms of IPv4 and IPv6 addresses read from a packet.
use vstd::prelude::*;
use crate::text::{decimal_text, lower_hex_text, push_char, push_decimal, push_lower_hex, push_str};

verus! {

/// Dotted-decimal text of four octets, e.g. `8.8.8.8`.
pub open spec fn ipv4_text(o: Seq<u8>) -> Seq<char> {
    decimal_text(o[0] as nat) + seq!['.'] + decimal_text(o[1] as nat) + seq!['.'] + decimal_text(
        o[2] as nat,
    ) + seq!['.'] + decimal_text(o[3] as nat)
}

/// The eight big-endian 16-bit groups of sixteen octets.
pub open spec fn ipv6_segments(o: Seq<u8>) -> Seq<u16> {
    Seq::new(8, |i: int| (o[2 * i] * 256 + o[2 * i + 1]) as u16)
}

/// Whether sixteen octets are an IPv4-mapped IPv6 address (`::ffff:a.b.c.d`).
pub open spec fn is_ipv4_mapped(o: Seq<u8>) -> bool {
    &&& forall|i: int| 0 <= i < 10 ==> o[i] == 0
    &&& o[10] == 0xff
    &&& o[11] == 0xff
}

/// The number of consecutive zero groups starting at `i`.
pub open spec fn zeros_from(segs: Seq<u16>, i: int) -> nat
    decreases segs.len() - i,
{
    if 0 <= i < segs.len() && segs[i] == 0 {
        1 + zeros_from(segs, i + 1)
    } else {
        0
    }
}

/// The longest run of zero groups that starts at or after `i`, as
/// `(start, length)`; among runs of equal length the first one wins.
/// With no zero group the length is 0.
pub open spec fn longest_zero_run(segs: Seq<u16>, i: int) -> (int, nat)
    decreases segs.len() - i,
{
    if i < 0 || i >= segs.len() {
        (segs.len() as int, 0)
    } else {
        let rest = longest_zero_run(segs, i + 1);
        let here = zeros_from(segs, i);
        if here > 0 && here >= rest.1 {
            (i, here)
        } else {
            rest
        }
    }
}

/// Groups in lowercase hex without leading zeros, separated by `:`.
pub open spec fn joined_hex(segs: Seq<u16>) -> Seq<char>
    decreases segs.len(),
{
    if segs.len() == 0 {
        Seq::empty()
    } else if segs.len() == 1 {
        lower_hex_text(segs[0] as nat)
    } else {
        joined_hex(segs.drop_last()) + seq![':'] + lower_hex_text(segs.last() as nat)
    }
}

/// The text of an IPv6 address as std writes it (RFC 5952): IPv4-mapped
/// addresses as `::ffff:a.b.c.d`; otherwise groups in lowercase hex, with the
/// first longest run of two or more zero groups written as `::`.
pub open spec fn ipv6_text(o: Seq<u8>) -> Seq<char> {
    if is_ipv4_mapped(o) {
        seq![':', ':', 'f', 'f', 'f', 'f', ':'] + ipv4_text(o.subrange(12, 16))
    } else {
        let segs = ipv6_segments(o);
        let run = longest_zero_run(segs, 0);
        if run.1 > 1 {
            joined_hex(segs.subrange(0, run.0)) + seq![':', ':'] + joined_hex(
                segs.subrange(run.0 + run.1, 8),
            )
        } else {
            joined_hex(segs)
        }
    }
}

proof fn lemma_zeros_from_bound(segs: Seq<u16>, i: int)
    requires
        0 <= i,
    ensures
        zeros_from(segs, i) <= if i <= segs.len() { segs.len() - i } else { 0 },
        zeros_from(segs, i) > 0 ==> i < segs.len(),
    decreases segs.len() - i,
{
    if 0 <= i < segs.len() && segs[i] == 0 {
        lemma_zeros_from_bound(segs, i + 1);
    }
}

proof fn lemma_longest_run_bound(segs: Seq<u16>, i: int)
    requires
        0 <= i,
    ensures
        ({
            let r = longest_zero_run(segs, i);
            &&& r.1 > 0 ==> 0 <= r.0 && r.0 + r.1 <= segs.len()
            &&& r.1 == 0 ==> r.0 == segs.len()
        }),
    decreases segs.len() - i,
{
    if 0 <= i < segs.len() {
        lemma_longest_run_bound(segs, i + 1);
        lemma_zeros_from_bound(segs, i);
    }
}

/// Dotted-decimal text of the four octets at `at`.
pub(crate) fn ipv4_host(packet: &[u8], at: usize) -> (s: String)
    requires
        at + 4 <= packet.len(),
    ensures
        s@ == ipv4_text(packet@.subrange(at as int, at + 4)),
{
    let mut s = String::new();
    push_decimal(&mut s, packet[at] as u64);
    push_char(&mut s, '.');
    push_decimal(&mut s, packet[at + 1] as u64);
    push_char(&mut s, '.');
    push_decimal(&mut s, packet[at + 2] as u64);
    push_char(&mut s, '.');
    push_decimal(&mut s, packet[at + 3] as u64);
    let ghost o = packet@.subrange(at as int, at + 4);
    assert(s@ == ipv4_text(o));
    s
}

fn push_joined_hex(s: &mut String, segs: &Vec<u16>, from: usize, to: usize)
    requires
        from <= to <= segs@.len(),
    ensures
        final(s)@ == old(s)@ + joined_hex(segs@.subrange(from as int, to as int)),
{
    for i in from..to
        invariant
            from <= to <= segs@.len(),
            s@ == old(s)@ + joined_hex(segs@.subrange(from as int, i as int)),
    {
        let ghost before = s@;
        if i > from {
            push_char(s, ':');
        }
        push_lower_hex(s, segs[i]);
        proof {
            let sub = segs@.subrange(from as int, i + 1);
            assert(sub.drop_last() == segs@.subrange(from as int, i as int));
            if i > from {
                assert(joined_hex(sub) == joined_hex(sub.drop_last()) + seq![':'] + lower_hex_text(
                    segs@[i as int] as nat,
                ));
            } else {
                assert(sub.len() == 1);
                assert(segs@.subrange(from as int, i as int).len() == 0);
                assert(joined_hex(segs@.subrange(from as int, i as int)) == Seq::<char>::empty());
            }
        }
    }
}

/// Text of the sixteen octets at `at` as an IPv6 address.
pub(crate) fn ipv6_host(packet: &[u8], at: usize) -> (s: String)
    requires
        at + 16 <= packet.len(),
    ensures
        s@ == ipv6_text(packet@.subrange(at as int, at + 16)),
{
    let ghost o = packet@.subrange(at as int, at + 16);
    let mut mapped = packet[at + 10] == 0xff && packet[at + 11] == 0xff;
    let mut k: usize = 0;
    while k < 10
        invariant
            at + 16 <= packet.len(),
            o == packet@.subrange(at as int, at + 16),
            k <= 10,
            mapped == (o[10] == 0xff && o[11] == 0xff && forall|j: int| 0 <= j < k ==> o[j] == 0),
        decreases 10 - k,
    {
        let b = packet[at + k];
        assert(o[k as int] == b);
        if b != 0 {
            mapped = false;
        }
        k += 1;
    }
    if mapped {
        let mut s = String::new();
        push_char(&mut s, ':');
        push_char(&mut s, ':');
        push_char(&mut s, 'f');
        push_char(&mut s, 'f');
        push_char(&mut s, 'f');
        push_char(&mut s, 'f');
        push_char(&mut s, ':');
        let v4 = ipv4_host(packet, at + 12);
        push_str(&mut s, v4.as_str());
        assert(o.subrange(12, 16) == packet@.subrange(at + 12, at + 16));
        return s;
    }
    let mut segs: Vec<u16> = Vec::new();
    let mut i: usize = 0;
    while i < 8
        invariant
            at + 16 <= packet.len(),
            o == packet@.subrange(at as int, at + 16),
            i <= 8,
            segs@.len() == i,
            forall|j: int| 0 <= j < i ==> segs@[j] == ipv6_segments(o)[j],
        decreases 8 - i,
    {
        let hi = packet[at + 2 * i] as u16;
        let lo = packet[at + 2 * i + 1] as u16;
        segs.push(hi * 256 + lo);
        i += 1;
    }
    let ghost sp = ipv6_segments(o);
    assert(segs@ == sp);
    // Scan from the last group down, keeping the run that starts here and the
    // best run found so far.
    let mut cur: u16 = 0;
    let mut best_start: usize = 8;
    let mut best_len: u16 = 0;
    let mut j: usize = 8;
    while j > 0
        invariant
            segs@ == sp,
            sp.len() == 8,
            j <= 8,
            cur as nat == zeros_from(sp, j as int),
            (best_start as int, best_len as nat) == longest_zero_run(sp, j as int),
            cur <= 8 - j,
            best_len <= 8,
        decreases j,
    {
        j -= 1;
        proof {
            lemma_zeros_from_bound(sp, j as int);
        }
        if segs[j] == 0 {
            cur = cur + 1;
        } else {
            cur = 0;
        }
        if cur > 0 && cur >= best_len {
            best_start = j;
            best_len = cur;
        }
    }
    proof {
        lemma_longest_run_bound(sp, 0);
    }
    let mut s = String::new();
    if best_len > 1 {
        push_joined_hex(&mut s, &segs, 0, best_start);
        push_char(&mut s, ':');
        push_char(&mut s, ':');
        push_joined_hex(&mut s, &segs, best_start + best_len as usize, 8);
    } else {
        push_joined_hex(&mut s, &segs, 0, 8);
        assert(segs@.subrange(0, 8) == segs@);
    }
    s
}

} // verus!
