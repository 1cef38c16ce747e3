//! What the address text says, read back: every number in it is a numeral
//! whose value is the octet or group it stands for, and the IPv6 text
//! compresses exactly the first longest run of zero groups.
use vstd::prelude::*;
use crate::address::{digit_char, digits, hex_groups, ip_text, longest_zero_run, zero_run, IpAddress};

verus! {

/// The value of a digit character: `0`-`9` and lower-case `a`-`f`; 16 for any
/// other character.
pub open spec fn digit_value(c: char) -> nat {
    if '0' <= c && c <= '9' {
        (c as int - '0' as int) as nat
    } else if 'a' <= c && c <= 'f' {
        (c as int - 'a' as int + 10) as nat
    } else {
        16
    }
}

/// The value of the digit string `s` read in base `base`, most significant
/// digit first.
pub open spec fn numeral_value(s: Seq<char>, base: nat) -> nat
    decreases s.len(),
{
    if s.len() == 0 {
        0
    } else {
        numeral_value(s.drop_last(), base) * base + digit_value(s.last())
    }
}

/// `s` is a numeral in base `base` for `v`: one or more digits below `base`,
/// no leading zero, and value `v`.
pub open spec fn is_numeral(s: Seq<char>, base: nat, v: nat) -> bool {
    &&& s.len() >= 1
    &&& forall|j: int| 0 <= j < s.len() ==> digit_value(#[trigger] s[j]) < base
    &&& s.len() > 1 ==> s[0] != '0'
    &&& numeral_value(s, base) == v
}

proof fn lemma_numeral_one_digit(s: Seq<char>, base: nat)
    requires
        s.len() == 1,
    ensures
        numeral_value(s, base) == digit_value(s[0]),
{
    assert(s.drop_last() =~= Seq::<char>::empty());
    assert(numeral_value(s.drop_last(), base) == 0);
    assert(0 * base == 0);
}

proof fn lemma_digit_char_value(d: nat)
    requires
        d < 16,
    ensures
        digit_value(digit_char(d)) == d,
{
}

/// `digits(n, base)` is a numeral in base `base` for `n`.
pub proof fn lemma_digits_read_back(n: nat, base: nat)
    requires
        2 <= base <= 16,
    ensures
        is_numeral(digits(n, base), base, n),
    decreases n,
{
    if n < base {
        lemma_digit_char_value(n);
        lemma_numeral_one_digit(digits(n, base), base);
    } else {
        assert(n / base < n) by (nonlinear_arith)
            requires
                base >= 2,
                n >= base,
        ;
        lemma_digits_read_back(n / base, base);
        let prev = digits(n / base, base);
        let s = digits(n, base);
        assert(s == prev.push(digit_char(n % base)));
        assert(n % base < base) by (nonlinear_arith)
            requires
                base >= 2,
        ;
        lemma_digit_char_value(n % base);
        assert(s.drop_last() =~= prev);
        assert((n / base) * base + n % base == n) by (nonlinear_arith)
            requires
                base >= 2,
        ;
        assert forall|j: int| 0 <= j < s.len() implies digit_value(#[trigger] s[j]) < base by {
            if j < prev.len() {
                assert(s[j] == prev[j]);
            }
        }
        if prev.len() == 1 {
            assert(prev[0] != '0') by {
                if prev[0] == '0' {
                    lemma_numeral_one_digit(prev, base);
                    assert(n / base >= 1) by (nonlinear_arith)
                        requires
                            base >= 2,
                            n >= base,
                    ;
                }
            }
        }
        assert(prev.len() >= 1);
        assert(s[0] == prev[0]);
    }
}

/// The IPv4 text is four decimal numerals, the values of the four octets in
/// order, separated by dots.
pub proof fn lemma_ipv4_text_read_back(o: [u8; 4]) -> (parts: Seq<Seq<char>>)
    ensures
        parts.len() == 4,
        forall|i: int| 0 <= i < 4 ==> is_numeral(#[trigger] parts[i], 10, o@[i] as nat),
        ip_text(IpAddress::V4(o)) == parts[0] + seq!['.'] + parts[1] + seq!['.'] + parts[2]
            + seq!['.'] + parts[3],
{
    let parts = seq![
        digits(o@[0] as nat, 10),
        digits(o@[1] as nat, 10),
        digits(o@[2] as nat, 10),
        digits(o@[3] as nat, 10),
    ];
    lemma_digits_read_back(o@[0] as nat, 10);
    lemma_digits_read_back(o@[1] as nat, 10);
    lemma_digits_read_back(o@[2] as nat, 10);
    lemma_digits_read_back(o@[3] as nat, 10);
    assert forall|i: int| 0 <= i < 4 implies is_numeral(#[trigger] parts[i], 10, o@[i] as nat) by {
        if i == 0 {
        } else if i == 1 {
        } else if i == 2 {
        } else {
        }
    }
    parts
}

/// An IPv4-mapped IPv6 address (groups `0:0:0:0:0:ffff`, then the four octets
/// of an IPv4 address, high byte first) is written `::ffff:` followed by the
/// text of that IPv4 address.
pub proof fn lemma_ipv4_mapped_text(g: [u16; 8], o: [u8; 4])
    requires
        g@[0] == 0,
        g@[1] == 0,
        g@[2] == 0,
        g@[3] == 0,
        g@[4] == 0,
        g@[5] == 0xffff,
        g@[6] == o@[0] * 256 + o@[1],
        g@[7] == o@[2] * 256 + o@[3],
    ensures
        ip_text(IpAddress::V6(g)) == seq![':', ':', 'f', 'f', 'f', 'f', ':'] + ip_text(
            IpAddress::V4(o),
        ),
{
    let a = o@[0];
    let b = o@[1];
    let c = o@[2];
    let d = o@[3];
    assert((a * 256 + b) / 256 == a && (a * 256 + b) % 256 == b) by (nonlinear_arith)
        requires
            0 <= b < 256,
            0 <= a,
    ;
    assert((c * 256 + d) / 256 == c && (c * 256 + d) % 256 == d) by (nonlinear_arith)
        requires
            0 <= d < 256,
            0 <= c,
    ;
    assert(crate::address::mapped_octets(g@) =~= o@);
}

/// The parts `ps` joined with `:` between neighbours.
pub open spec fn colon_join(ps: Seq<Seq<char>>) -> Seq<char>
    decreases ps.len(),
{
    if ps.len() == 0 {
        Seq::empty()
    } else if ps.len() == 1 {
        ps[0]
    } else {
        colon_join(ps.drop_last()) + seq![':'] + ps.last()
    }
}

/// The hexadecimal text of groups `g` is one lower-case hexadecimal numeral
/// per group, the values of the groups in order, joined with `:`.
pub proof fn lemma_hex_groups_read_back(g: Seq<u16>) -> (parts: Seq<Seq<char>>)
    ensures
        parts.len() == g.len(),
        forall|i: int| 0 <= i < g.len() ==> is_numeral(#[trigger] parts[i], 16, g[i] as nat),
        hex_groups(g) == colon_join(parts),
    decreases g.len(),
{
    if g.len() == 0 {
        Seq::empty()
    } else {
        let prev = lemma_hex_groups_read_back(g.drop_last());
        let parts = prev.push(digits(g.last() as nat, 16));
        lemma_digits_read_back(g.last() as nat, 16);
        assert(parts.drop_last() =~= prev);
        assert forall|i: int| 0 <= i < g.len() implies is_numeral(
            #[trigger] parts[i],
            16,
            g[i] as nat,
        ) by {
            if i < g.len() - 1 {
                assert(parts[i] == prev[i]);
                assert(g.drop_last()[i] == g[i]);
            }
        }
        if g.len() == 1 {
            assert(hex_groups(g) == digits(g[0] as nat, 16));
        }
        parts
    }
}

/// Groups `g[i..i + l]` all exist and are all zero.
pub open spec fn zeros_at(g: Seq<u16>, i: int, l: int) -> bool {
    &&& 0 <= i
    &&& 0 <= l
    &&& i + l <= g.len()
    &&& forall|k: int| i <= k < i + l ==> g[k] == 0
}

proof fn lemma_zero_run_bound(g: Seq<u16>, i: int)
    requires
        0 <= i <= g.len(),
    ensures
        zero_run(g, i) <= g.len() - i,
    decreases g.len() - i,
{
    if i < g.len() {
        lemma_zero_run_bound(g, i + 1);
    }
}

proof fn lemma_zero_run_zeros(g: Seq<u16>, i: int, l: int)
    requires
        0 <= i,
        0 <= l,
        i + l <= g.len(),
    ensures
        zeros_at(g, i, l) <==> zero_run(g, i) >= l,
    decreases l,
{
    if l > 0 {
        lemma_zero_run_zeros(g, i + 1, l - 1);
        if zeros_at(g, i, l) {
            assert(g[i] == 0);
            assert forall|k: int| i + 1 <= k < i + 1 + l - 1 implies g[k] == 0 by {
                assert(i <= k < i + l);
            }
            assert(zeros_at(g, i + 1, l - 1));
        }
        if zero_run(g, i) >= l {
            assert(g[i] == 0);
            assert(zeros_at(g, i + 1, l - 1));
            assert forall|k: int| i <= k < i + l implies g[k] == 0 by {
                if k > i {
                    assert(i + 1 <= k < i + 1 + l - 1);
                }
            }
        }
    }
}

proof fn lemma_longest_zero_run(g: Seq<u16>, k: int)
    requires
        0 <= k <= g.len(),
    ensures
        forall|i: int| 0 <= i < k ==> zero_run(g, i) <= longest_zero_run(g, k).1,
        longest_zero_run(g, k).1 > 0 ==> {
            let (s, l) = longest_zero_run(g, k);
            &&& 0 <= s < k
            &&& zero_run(g, s) == l
            &&& forall|i: int| 0 <= i < s ==> zero_run(g, i) < l
        },
    decreases k,
{
    if k > 0 {
        lemma_longest_zero_run(g, k - 1);
    }
}

/// Where the longest run of zero groups has two or more groups, the IPv6 text
/// is the groups before the first such longest run, `::`, and the groups after
/// it (for an address that is not IPv4-mapped).
pub proof fn lemma_ipv6_text_compresses_first_longest_run(g: [u16; 8], start: int, len: int)
    requires
        !(g@[0] == 0 && g@[1] == 0 && g@[2] == 0 && g@[3] == 0 && g@[4] == 0 && g@[5] == 0xffff),
        len >= 2,
        zeros_at(g@, start, len),
        forall|i: int, l: int| #[trigger] zeros_at(g@, i, l) ==> l <= len,
        forall|i: int| 0 <= i < start ==> !#[trigger] zeros_at(g@, i, len),
    ensures
        ip_text(IpAddress::V6(g)) == hex_groups(g@.subrange(0, start)) + seq![':', ':']
            + hex_groups(g@.subrange(start + len, 8)),
{
    let s = g@;
    lemma_longest_zero_run(s, 8);
    let (b, l) = longest_zero_run(s, 8);
    lemma_zero_run_zeros(s, start, len);
    assert(l >= len);
    lemma_zero_run_bound(s, b);
    lemma_zero_run_zeros(s, b, l as int);
    assert(zeros_at(s, b, l as int));
    assert(l == len);
    if b < start {
        assert(zeros_at(s, b, len));
    }
    if b > start {
        assert(zero_run(s, start) < l);
    }
    assert(b == start);
}

/// Where no two neighbouring groups are both zero, the IPv6 text is all eight
/// groups in hexadecimal with nothing compressed (for an address that is not
/// IPv4-mapped).
pub proof fn lemma_ipv6_text_without_zero_pair(g: [u16; 8])
    requires
        !(g@[0] == 0 && g@[1] == 0 && g@[2] == 0 && g@[3] == 0 && g@[4] == 0 && g@[5] == 0xffff),
        forall|i: int| 0 <= i < 7 ==> !(g@[i] == 0 && #[trigger] g@[i + 1] == 0),
    ensures
        ip_text(IpAddress::V6(g)) == hex_groups(g@),
{
    let s = g@;
    lemma_longest_zero_run(s, 8);
    let (b, l) = longest_zero_run(s, 8);
    if l >= 2 {
        lemma_zero_run_bound(s, b);
        lemma_zero_run_zeros(s, b, 2);
        assert(s[b] == 0 && s[b + 1] == 0);
    }
}

} // verus!
