//! Numbers and endpoints written out as text.

use crate::data::net::{IpAddress, SocketAddress};
use vstd::prelude::*;
use vstd::string::StringExecFns;

verus! {

/// The character of one digit below sixteen, in lower case.
pub open spec fn spec_digit(d: nat) -> char {
    if d == 0 {
        '0'
    } else if d == 1 {
        '1'
    } else if d == 2 {
        '2'
    } else if d == 3 {
        '3'
    } else if d == 4 {
        '4'
    } else if d == 5 {
        '5'
    } else if d == 6 {
        '6'
    } else if d == 7 {
        '7'
    } else if d == 8 {
        '8'
    } else if d == 9 {
        '9'
    } else if d == 10 {
        'a'
    } else if d == 11 {
        'b'
    } else if d == 12 {
        'c'
    } else if d == 13 {
        'd'
    } else if d == 14 {
        'e'
    } else {
        'f'
    }
}

/// A number written in decimal, without sign and without leading zeros.
pub open spec fn spec_decimal(n: nat) -> Seq<char>
    decreases n,
{
    if n < 10 {
        seq![spec_digit(n)]
    } else {
        spec_decimal(n / 10) + seq![spec_digit(n % 10)]
    }
}

/// A number written in lower-case hexadecimal, without leading zeros.
pub open spec fn spec_hex(n: nat) -> Seq<char>
    decreases n,
{
    if n < 16 {
        seq![spec_digit(n)]
    } else {
        spec_hex(n / 16) + seq![spec_digit(n % 16)]
    }
}

/// The four octets of an IPv4 address in decimal, with dots between them.
pub open spec fn spec_ipv4_text(octets: Seq<u8>) -> Seq<char>
    recommends
        octets.len() == 4,
{
    spec_decimal(octets[0] as nat) + seq!['.'] + spec_decimal(octets[1] as nat) + seq!['.']
        + spec_decimal(octets[2] as nat) + seq!['.'] + spec_decimal(octets[3] as nat)
}

/// The eight 16-bit groups of an IPv6 address.
pub open spec fn spec_groups(octets: Seq<u8>) -> Seq<u16>
    recommends
        octets.len() == 16,
{
    Seq::new(8, |k: int| ((octets[2 * k] as int) * 256 + octets[2 * k + 1] as int) as u16)
}

/// The number of zero groups in a row from position `from` on.
pub open spec fn spec_zero_run(groups: Seq<u16>, from: int) -> nat
    decreases groups.len() - from,
{
    if from < 0 || from >= groups.len() || groups[from] != 0 {
        0
    } else {
        1 + spec_zero_run(groups, from + 1)
    }
}

/// Where, before position `upto`, the longest run of zero groups starts;
/// of several longest runs, the first.
pub open spec fn spec_longest_run(groups: Seq<u16>, upto: int) -> int
    decreases upto,
{
    if upto <= 0 {
        0
    } else {
        let earlier = spec_longest_run(groups, upto - 1);
        if spec_zero_run(groups, upto - 1) > spec_zero_run(groups, earlier) {
            upto - 1
        } else {
            earlier
        }
    }
}

/// Groups in hexadecimal, with colons between them.
pub open spec fn spec_joined(groups: Seq<u16>) -> Seq<char>
    decreases groups.len(),
{
    if groups.len() == 0 {
        Seq::empty()
    } else if groups.len() == 1 {
        spec_hex(groups[0] as nat)
    } else {
        spec_joined(groups.drop_last()) + seq![':'] + spec_hex(groups.last() as nat)
    }
}

/// Whether an IPv6 address stands for an IPv4 address: ten zero octets,
/// two octets of ones, and the four octets of the IPv4 address.
pub open spec fn spec_is_mapped(octets: Seq<u8>) -> bool {
    &&& forall|i: int| 0 <= i < 10 ==> octets[i] == 0
    &&& octets[10] == 255
    &&& octets[11] == 255
}

/// An IPv6 address as text. An address that stands for an IPv4 address
/// is `::ffff:` and that address. Any other is its eight groups in
/// hexadecimal with colons between them, where the longest run of two or
/// more zero groups (the first, of several) is written as `::`.
pub open spec fn spec_ipv6_text(octets: Seq<u8>) -> Seq<char>
    recommends
        octets.len() == 16,
{
    if spec_is_mapped(octets) {
        seq![':', ':', 'f', 'f', 'f', 'f', ':'] + spec_ipv4_text(octets.subrange(12, 16))
    } else {
        let groups = spec_groups(octets);
        let start = spec_longest_run(groups, 8);
        let len = spec_zero_run(groups, start);
        if len > 1 {
            spec_joined(groups.subrange(0, start)) + seq![':', ':'] + spec_joined(
                groups.subrange(start + len, 8),
            )
        } else {
            spec_joined(groups)
        }
    }
}

/// An endpoint as text: `a.b.c.d:port` for IPv4, `[address]:port` for
/// IPv6.
pub open spec fn spec_endpoint_text(endpoint: SocketAddress) -> Seq<char> {
    match endpoint.ip {
        IpAddress::V4(octets) => spec_ipv4_text(octets@) + seq![':'] + spec_decimal(
            endpoint.port as nat,
        ),
        IpAddress::V6(octets) => seq!['['] + spec_ipv6_text(octets@) + seq![']', ':']
            + spec_decimal(endpoint.port as nat),
    }
}

fn digit_text(d: u8) -> (text: &'static str)
    requires
        d < 16,
    ensures
        text@ == seq![spec_digit(d as nat)],
{
    proof {
        reveal_strlit("0");
        reveal_strlit("1");
        reveal_strlit("2");
        reveal_strlit("3");
        reveal_strlit("4");
        reveal_strlit("5");
        reveal_strlit("6");
        reveal_strlit("7");
        reveal_strlit("8");
        reveal_strlit("9");
        reveal_strlit("a");
        reveal_strlit("b");
        reveal_strlit("c");
        reveal_strlit("d");
        reveal_strlit("e");
        reveal_strlit("f");
    }
    let text = match d {
        0 => "0",
        1 => "1",
        2 => "2",
        3 => "3",
        4 => "4",
        5 => "5",
        6 => "6",
        7 => "7",
        8 => "8",
        9 => "9",
        10 => "a",
        11 => "b",
        12 => "c",
        13 => "d",
        14 => "e",
        _ => "f",
    };
    assert(text@ =~= seq![spec_digit(d as nat)]);
    text
}

/// Appends `n`, written in decimal, to `out`.
pub fn push_decimal(out: &mut String, n: u64)
    ensures
        final(out)@ == old(out)@ + spec_decimal(n as nat),
    decreases n,
{
    if n < 10 {
        out.append(digit_text(n as u8));
    } else {
        push_decimal(out, n / 10);
        out.append(digit_text((n % 10) as u8));
        assert(out@ =~= old(out)@ + spec_decimal(n as nat));
    }
}

/// Appends `n`, written in lower-case hexadecimal, to `out`.
pub fn push_hex(out: &mut String, n: u64)
    ensures
        final(out)@ == old(out)@ + spec_hex(n as nat),
    decreases n,
{
    if n < 16 {
        out.append(digit_text(n as u8));
    } else {
        push_hex(out, n / 16);
        out.append(digit_text((n % 16) as u8));
        assert(out@ =~= old(out)@ + spec_hex(n as nat));
    }
}

fn push_literal(out: &mut String, literal: &str)
    ensures
        final(out)@ == old(out)@ + literal@,
{
    out.append(literal);
}

/// Appends the four octets of an IPv4 address, in decimal with dots
/// between them, to `out`.
fn push_ipv4(out: &mut String, a: u8, b: u8, c: u8, d: u8)
    ensures
        final(out)@ == old(out)@ + spec_ipv4_text(seq![a, b, c, d]),
{
    proof {
        reveal_strlit(".");
    }
    push_decimal(out, a as u64);
    push_literal(out, ".");
    push_decimal(out, b as u64);
    push_literal(out, ".");
    push_decimal(out, c as u64);
    push_literal(out, ".");
    push_decimal(out, d as u64);
    assert(out@ =~= old(out)@ + spec_ipv4_text(seq![a, b, c, d]));
}

/// The eight 16-bit groups of an IPv6 address.
fn groups_of(octets: &[u8; 16]) -> (groups: [u16; 8])
    ensures
        groups@ == spec_groups(octets@),
{
    let mut groups: [u16; 8] = [0; 8];
    let mut k: usize = 0;
    while k < 8
        invariant
            k <= 8,
            forall|i: int| 0 <= i < k ==> groups@[i] == spec_groups(octets@)[i],
        decreases 8 - k,
    {
        groups[k] = (octets[2 * k] as u16) * 256 + octets[2 * k + 1] as u16;
        k += 1;
    }
    assert(groups@ =~= spec_groups(octets@));
    groups
}

/// Where the longest run of zero groups starts, and how long it is.
fn longest_run(groups: &[u16; 8]) -> (run: (usize, usize))
    ensures
        run.0 == spec_longest_run(groups@, 8),
        run.1 == spec_zero_run(groups@, run.0 as int),
        run.0 + run.1 <= 8,
{
    let mut runs: [usize; 9] = [0; 9];
    let mut i: usize = 8;
    while i > 0
        invariant
            i <= 8,
            forall|k: int| i <= k <= 8 ==> runs@[k] == spec_zero_run(groups@, k) && k + runs@[k] <= 8,
        decreases i,
    {
        i -= 1;
        if groups[i] == 0 {
            runs[i] = runs[i + 1] + 1;
        } else {
            runs[i] = 0;
        }
    }
    let mut best: usize = 0;
    let mut upto: usize = 0;
    while upto < 8
        invariant
            upto <= 8,
            best == spec_longest_run(groups@, upto as int),
            best < 8,
            forall|k: int| 0 <= k <= 8 ==> runs@[k] == spec_zero_run(groups@, k) && k + runs@[k] <= 8,
        decreases 8 - upto,
    {
        if runs[upto] > runs[best] {
            best = upto;
        }
        upto += 1;
    }
    (best, runs[best])
}

/// Appends the groups from position `from` up to, not including, `to`,
/// in hexadecimal with colons between them, to `out`.
fn push_joined(out: &mut String, groups: &[u16; 8], from: usize, to: usize)
    requires
        from <= to <= 8,
    ensures
        final(out)@ == old(out)@ + spec_joined(groups@.subrange(from as int, to as int)),
{
    let mut k: usize = from;
    while k < to
        invariant
            from <= k <= to <= 8,
            out@ == old(out)@ + spec_joined(groups@.subrange(from as int, k as int)),
        decreases to - k,
    {
        if k > from {
            push_literal(out, ":");
        }
        push_hex(out, groups[k] as u64);
        proof {
            reveal_strlit(":");
            let so_far = groups@.subrange(from as int, k as int);
            let next = groups@.subrange(from as int, k + 1);
            assert(next.drop_last() =~= so_far);
            assert(next.last() == groups@[k as int]);
            if k == from {
                assert(spec_joined(so_far) =~= Seq::<char>::empty());
                assert(next[0] == groups@[k as int]);
            }
            assert(out@ =~= old(out)@ + spec_joined(next));
        }
        k += 1;
    }
}

/// Whether an IPv6 address stands for an IPv4 address.
fn is_mapped(octets: &[u8; 16]) -> (mapped: bool)
    ensures
        mapped == spec_is_mapped(octets@),
{
    let mut i: usize = 0;
    while i < 10
        invariant
            i <= 10,
            forall|k: int| 0 <= k < i ==> octets@[k] == 0,
        decreases 10 - i,
    {
        if octets[i] != 0 {
            return false;
        }
        i += 1;
    }
    octets[10] == 255 && octets[11] == 255
}

/// Appends an IPv6 address to `out`.
fn push_ipv6(out: &mut String, octets: &[u8; 16])
    ensures
        final(out)@ == old(out)@ + spec_ipv6_text(octets@),
{
    if is_mapped(octets) {
        proof {
            reveal_strlit("::ffff:");
        }
        push_literal(out, "::ffff:");
        push_ipv4(out, octets[12], octets[13], octets[14], octets[15]);
        proof {
            assert(octets@.subrange(12, 16) =~= seq![
                octets@[12],
                octets@[13],
                octets@[14],
                octets@[15],
            ]);
            assert(out@ =~= old(out)@ + spec_ipv6_text(octets@));
        }
    } else {
        let groups = groups_of(octets);
        let (start, len) = longest_run(&groups);
        if len > 1 {
            proof {
                reveal_strlit("::");
            }
            push_joined(out, &groups, 0, start);
            push_literal(out, "::");
            push_joined(out, &groups, start + len, 8);
            assert(out@ =~= old(out)@ + spec_ipv6_text(octets@));
        } else {
            push_joined(out, &groups, 0, 8);
            assert(groups@.subrange(0, 8) =~= groups@);
            assert(out@ =~= old(out)@ + spec_ipv6_text(octets@));
        }
    }
}

impl SocketAddress {
    /// The endpoint as text.
    pub fn to_text(&self) -> (text: String)
        ensures
            text@ == spec_endpoint_text(*self),
    {
        let mut out = String::new();
        proof {
            reveal_strlit(":");
            reveal_strlit("[");
            reveal_strlit("]:");
        }
        match self.ip {
            IpAddress::V4(octets) => {
                push_ipv4(&mut out, octets[0], octets[1], octets[2], octets[3]);
                push_literal(&mut out, ":");
                push_decimal(&mut out, self.port as u64);
                assert(octets@ =~= seq![octets@[0], octets@[1], octets@[2], octets@[3]]);
                assert(out@ =~= spec_endpoint_text(*self));
            },
            IpAddress::V6(octets) => {
                push_literal(&mut out, "[");
                push_ipv6(&mut out, &octets);
                push_literal(&mut out, "]:");
                push_decimal(&mut out, self.port as u64);
                assert(out@ =~= spec_endpoint_text(*self));
            },
        }
        out
    }
}

} // verus!
