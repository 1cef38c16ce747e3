//! IP and socket addresses as plain values, and their canonical text form
//! (dotted decimal for IPv4, RFC 5952 for IPv6), which is what the Direct
//! Sockets API is handed as a remote or local address.
use vstd::prelude::*;

verus! {

/// Appends `c` to `s`.
///
/// Trusted: `String::push` of std; its documentation says that it appends the
/// given char to the end of the string.
#[verifier::external_body]
pub(crate) fn push_char(s: &mut String, c: char)
    ensures
        final(s)@ == old(s)@.push(c),
{
    s.push(c);
}

/// The character of digit `d` in base 16, lower case (`0`-`9`, `a`-`f`).
pub open spec fn digit_char(d: nat) -> char {
    if d == 0 { '0' }
    else if d == 1 { '1' }
    else if d == 2 { '2' }
    else if d == 3 { '3' }
    else if d == 4 { '4' }
    else if d == 5 { '5' }
    else if d == 6 { '6' }
    else if d == 7 { '7' }
    else if d == 8 { '8' }
    else if d == 9 { '9' }
    else if d == 10 { 'a' }
    else if d == 11 { 'b' }
    else if d == 12 { 'c' }
    else if d == 13 { 'd' }
    else if d == 14 { 'e' }
    else { 'f' }
}

/// `n` written in base `base` without leading zeros (`0` for zero).
pub open spec fn digits(n: nat, base: nat) -> Seq<char>
    recommends
        2 <= base <= 16,
    decreases n,
{
    if base < 2 || n < base {
        seq![digit_char(n)]
    } else {
        proof {
            assert(n / base < n) by (nonlinear_arith)
                requires
                    base >= 2,
                    n >= base,
            ;
        }
        digits(n / base, base).push(digit_char(n % base))
    }
}

fn digit_of(d: u16) -> (c: char)
    requires
        d < 16,
    ensures
        c == digit_char(d as nat),
{
    if d == 0 { '0' }
    else if d == 1 { '1' }
    else if d == 2 { '2' }
    else if d == 3 { '3' }
    else if d == 4 { '4' }
    else if d == 5 { '5' }
    else if d == 6 { '6' }
    else if d == 7 { '7' }
    else if d == 8 { '8' }
    else if d == 9 { '9' }
    else if d == 10 { 'a' }
    else if d == 11 { 'b' }
    else if d == 12 { 'c' }
    else if d == 13 { 'd' }
    else if d == 14 { 'e' }
    else { 'f' }
}

/// Appends `n` written in base `base` (10 or 16) to `s`.
fn push_digits(s: &mut String, n: u16, base: u16)
    requires
        base == 10 || base == 16,
    ensures
        final(s)@ == old(s)@ + digits(n as nat, base as nat),
    decreases n,
{
    if n >= base {
        push_digits(s, n / base, base);
    }
    push_char(s, digit_of(n % base));
    assert(final(s)@ =~= old(s)@ + digits(n as nat, base as nat));
}


/// An IP address: four octets, or eight 16-bit groups, most significant first.
#[derive(Clone, Copy, Debug, PartialEq, Eq)]
pub enum IpAddress {
    V4([u8; 4]),
    V6([u16; 8]),
}

/// An IP address with a UDP port.
#[derive(Clone, Copy, Debug, PartialEq, Eq)]
pub struct SocketAddress {
    pub ip: IpAddress,
    pub port: u16,
}

/// Dotted-decimal text of four octets, such as `192.168.0.1`.
pub open spec fn ipv4_text(o: Seq<u8>) -> Seq<char>
    recommends
        o.len() == 4,
{
    digits(o[0] as nat, 10) + seq!['.'] + digits(o[1] as nat, 10) + seq!['.']
        + digits(o[2] as nat, 10) + seq!['.'] + digits(o[3] as nat, 10)
}

/// The groups of `g` in lower-case hexadecimal without leading zeros,
/// separated by `:`.
pub open spec fn hex_groups(g: Seq<u16>) -> Seq<char>
    decreases g.len(),
{
    if g.len() == 0 {
        Seq::empty()
    } else if g.len() == 1 {
        digits(g[0] as nat, 16)
    } else {
        hex_groups(g.drop_last()) + seq![':'] + digits(g.last() as nat, 16)
    }
}

/// How many groups of `g` are zero in a row from index `i` on.
pub open spec fn zero_run(g: Seq<u16>, i: int) -> nat
    decreases g.len() - i,
{
    if 0 <= i < g.len() && g[i] == 0 {
        1 + zero_run(g, i + 1)
    } else {
        0
    }
}

/// Start and length of the longest run of zero groups that starts before
/// index `k`; of several equally long runs, the first; `(0, 0)` where there is
/// no zero group.
pub open spec fn longest_zero_run(g: Seq<u16>, k: int) -> (int, nat)
    decreases k,
{
    if k <= 0 {
        (0, 0)
    } else {
        let (start, len) = longest_zero_run(g, k - 1);
        if zero_run(g, k - 1) > len {
            (k - 1, zero_run(g, k - 1))
        } else {
            (start, len)
        }
    }
}

/// Whether the eight groups `g` are an IPv4-mapped address `::ffff:a.b.c.d`.
pub open spec fn is_ipv4_mapped(g: Seq<u16>) -> bool {
    &&& g[0] == 0
    &&& g[1] == 0
    &&& g[2] == 0
    &&& g[3] == 0
    &&& g[4] == 0
    &&& g[5] == 0xffff
}

/// The four octets carried in the last two groups of `g`.
pub open spec fn mapped_octets(g: Seq<u16>) -> Seq<u8> {
    seq![(g[6] / 256) as u8, (g[6] % 256) as u8, (g[7] / 256) as u8, (g[7] % 256) as u8]
}

/// RFC 5952 text of the eight groups `g`: an IPv4-mapped address as
/// `::ffff:` and the dotted-decimal IPv4 address; otherwise the groups in
/// hexadecimal, with the longest run of two or more zero groups (the first of
/// equally long ones) written as `::`.
pub open spec fn ipv6_text(g: Seq<u16>) -> Seq<char>
    recommends
        g.len() == 8,
{
    if is_ipv4_mapped(g) {
        seq![':', ':', 'f', 'f', 'f', 'f', ':'] + ipv4_text(mapped_octets(g))
    } else {
        let (start, len) = longest_zero_run(g, g.len() as int);
        if len > 1 {
            hex_groups(g.subrange(0, start)) + seq![':', ':'] + hex_groups(
                g.subrange(start + len, g.len() as int),
            )
        } else {
            hex_groups(g)
        }
    }
}

/// The canonical text of an IP address.
pub open spec fn ip_text(ip: IpAddress) -> Seq<char> {
    match ip {
        IpAddress::V4(o) => ipv4_text(o@),
        IpAddress::V6(g) => ipv6_text(g@),
    }
}

fn push_ipv4(s: &mut String, o: &[u8; 4])
    ensures
        final(s)@ == old(s)@ + ipv4_text(o@),
{
    push_digits(s, o[0] as u16, 10);
    push_char(s, '.');
    push_digits(s, o[1] as u16, 10);
    push_char(s, '.');
    push_digits(s, o[2] as u16, 10);
    push_char(s, '.');
    push_digits(s, o[3] as u16, 10);
    assert(final(s)@ =~= old(s)@ + ipv4_text(o@));
}

/// Length of the run of zero groups from index `i` on.
fn zero_run_at(g: &[u16; 8], i: usize) -> (n: usize)
    requires
        i <= 8,
    ensures
        n == zero_run(g@, i as int),
        n <= 8 - i,
{
    let mut j: usize = i;
    while j < 8 && g[j] == 0
        invariant
            i <= j <= 8,
            zero_run(g@, i as int) == (j - i) + zero_run(g@, j as int),
        decreases 8 - j,
    {
        j = j + 1;
    }
    j - i
}

/// Appends the groups `g[from..to]` in hexadecimal, separated by `:`.
fn push_hex_groups(s: &mut String, g: &[u16; 8], from: usize, to: usize)
    requires
        from <= to <= 8,
    ensures
        final(s)@ == old(s)@ + hex_groups(g@.subrange(from as int, to as int)),
{
    let ghost before = s@;
    let mut k: usize = from;
    assert(g@.subrange(from as int, from as int) =~= Seq::<u16>::empty());
    assert(s@ =~= before + hex_groups(g@.subrange(from as int, from as int)));
    while k < to
        invariant
            from <= k <= to <= 8,
            s@ == before + hex_groups(g@.subrange(from as int, k as int)),
        decreases to - k,
    {
        let ghost done = g@.subrange(from as int, k as int);
        let ghost next = g@.subrange(from as int, k + 1);
        assert(next.drop_last() =~= done);
        if k > from {
            push_char(s, ':');
        } else {
            assert(done.len() == 0);
        }
        push_digits(s, g[k], 16);
        k = k + 1;
        assert(s@ =~= before + hex_groups(next));
    }
}

fn push_ipv6(s: &mut String, g: &[u16; 8])
    ensures
        final(s)@ == old(s)@ + ipv6_text(g@),
{
    if g[0] == 0 && g[1] == 0 && g[2] == 0 && g[3] == 0 && g[4] == 0 && g[5] == 0xffff {
        push_char(s, ':');
        push_char(s, ':');
        push_char(s, 'f');
        push_char(s, 'f');
        push_char(s, 'f');
        push_char(s, 'f');
        push_char(s, ':');
        let o: [u8; 4] = [(g[6] / 256) as u8, (g[6] % 256) as u8, (g[7] / 256) as u8, (g[7] % 256) as u8];
        assert(o@ =~= mapped_octets(g@));
        push_ipv4(s, &o);
        assert(final(s)@ =~= old(s)@ + ipv6_text(g@));
    } else {
        let mut start: usize = 0;
        let mut len: usize = 0;
        let mut i: usize = 0;
        while i < 8
            invariant
                i <= 8,
                longest_zero_run(g@, i as int) == (start as int, len as nat),
                start + len <= 8,
            decreases 8 - i,
        {
            let r = zero_run_at(g, i);
            if r > len {
                start = i;
                len = r;
            }
            i = i + 1;
        }
        if len > 1 {
            push_hex_groups(s, g, 0, start);
            push_char(s, ':');
            push_char(s, ':');
            push_hex_groups(s, g, start + len, 8);
        } else {
            push_hex_groups(s, g, 0, 8);
            assert(g@.subrange(0, 8) =~= g@);
        }
        assert(final(s)@ =~= old(s)@ + ipv6_text(g@));
    }
}

/// The canonical text of `ip`: dotted decimal for IPv4, RFC 5952 for IPv6.
pub fn ip_to_string(ip: &IpAddress) -> (text: String)
    ensures
        text@ == ip_text(*ip),
{
    let mut text = String::new();
    match ip {
        IpAddress::V4(o) => push_ipv4(&mut text, o),
        IpAddress::V6(g) => push_ipv6(&mut text, g),
    }
    assert(text@ =~= ip_text(*ip));
    text
}

} // verus!
