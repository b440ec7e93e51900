//! Conversions between raw numeric address forms and their usual text.

use vstd::prelude::*;

verus! {

/// The character that stands for the decimal digit `d`.
pub open spec fn digit_char(d: int) -> char {
    if d == 0 {
        '0'
    } else if d == 1 {
        '1'
    } else if d == 2 {
        '2'
    } else if d == 3 {
        '3'
    } else if d == 4 {
        '4'
    } else if d == 5 {
        '5'
    } else if d == 6 {
        '6'
    } else if d == 7 {
        '7'
    } else if d == 8 {
        '8'
    } else {
        '9'
    }
}

/// Decimal text of a natural number, without sign or leading zeros.
pub open spec fn decimal_text(n: nat) -> Seq<char>
    decreases n,
{
    if n < 10 {
        seq![digit_char(n as int)]
    } else {
        decimal_text(n / 10).push(digit_char((n % 10) as int))
    }
}

/// The byte of `ip` at position `k`, position 0 being the least significant.
pub open spec fn ipv4_octet(ip: u32, k: nat) -> nat {
    if k == 0 {
        (ip % 256) as nat
    } else if k == 1 {
        ((ip / 0x100) % 256) as nat
    } else if k == 2 {
        ((ip / 0x1_0000) % 256) as nat
    } else {
        ((ip / 0x100_0000) % 256) as nat
    }
}

/// Dotted-quad text of `ip`: its four bytes from the most significant to the
/// least significant, each in decimal, joined by dots.
pub open spec fn ipv4_text(ip: u32) -> Seq<char> {
    decimal_text(ipv4_octet(ip, 3)) + seq!['.'] + decimal_text(ipv4_octet(ip, 2)) + seq!['.']
        + decimal_text(ipv4_octet(ip, 1)) + seq!['.'] + decimal_text(ipv4_octet(ip, 0))
}

fn decimal_digit(d: u8) -> (c: char)
    requires
        d < 10,
    ensures
        c == digit_char(d as int),
{
    if d == 0 {
        '0'
    } else if d == 1 {
        '1'
    } else if d == 2 {
        '2'
    } else if d == 3 {
        '3'
    } else if d == 4 {
        '4'
    } else if d == 5 {
        '5'
    } else if d == 6 {
        '6'
    } else if d == 7 {
        '7'
    } else if d == 8 {
        '8'
    } else {
        '9'
    }
}

/// Appends the decimal text of `n` to `out`.
pub fn push_decimal(out: &mut String, n: u32)
    ensures
        final(out)@ == old(out)@ + decimal_text(n as nat),
    decreases n,
{
    if n >= 10 {
        push_decimal(out, n / 10);
    }
    let digit: u8 = (n % 10) as u8;
    out.push(decimal_digit(digit));
    assert(out@ =~= old(out)@ + decimal_text(n as nat));
}

/// Takes byte `k` out of `ip`, byte 0 being the least significant.
fn octet_of(ip: u32, k: u8) -> (b: u8)
    requires
        k < 4,
    ensures
        b == ipv4_octet(ip, k as nat),
{
    let shifted: u32 = ip >> (k * 8);
    let masked: u32 = shifted & 0xFF;
    assert(masked == ipv4_octet(ip, k as nat)) by {
        assert(k == 0 ==> (ip >> 0u8) & 0xFF == ip % 256) by (bit_vector);
        assert(k == 1 ==> (ip >> 8u8) & 0xFF == (ip / 0x100) % 256) by (bit_vector);
        assert(k == 2 ==> (ip >> 16u8) & 0xFF == (ip / 0x1_0000) % 256) by (bit_vector);
        assert(k == 3 ==> (ip >> 24u8) & 0xFF == (ip / 0x100_0000) % 256) by (bit_vector);
    }
    masked as u8
}

/// Renders a 32-bit IPv4 address held in host order as dotted-quad text.
pub fn ip_to_string(ip: u32) -> (s: String)
    ensures
        s@ == ipv4_text(ip),
{
    let mut s = String::new();
    let mut i: u8 = 0;
    while i < 4
        invariant
            i <= 4,
            i == 0 ==> s@ == Seq::<char>::empty(),
            i == 1 ==> s@ == decimal_text(ipv4_octet(ip, 3)) + seq!['.'],
            i == 2 ==> s@ == decimal_text(ipv4_octet(ip, 3)) + seq!['.'] + decimal_text(
                ipv4_octet(ip, 2),
            ) + seq!['.'],
            i == 3 ==> s@ == decimal_text(ipv4_octet(ip, 3)) + seq!['.'] + decimal_text(
                ipv4_octet(ip, 2),
            ) + seq!['.'] + decimal_text(ipv4_octet(ip, 1)) + seq!['.'],
            i == 4 ==> s@ == ipv4_text(ip),
        decreases 4 - i,
    {
        let grp_idx: u8 = 4 - i - 1;
        let group_val: u8 = octet_of(ip, grp_idx);
        push_decimal(&mut s, group_val as u32);
        if i < 3 {
            s.push('.');
        }
        i = i + 1;
    }
    s
}

/// The character that stands for the hexadecimal digit `d`, in upper case.
pub open spec fn hex_char(d: int) -> char {
    if d < 10 {
        digit_char(d)
    } else if d == 10 {
        'A'
    } else if d == 11 {
        'B'
    } else if d == 12 {
        'C'
    } else if d == 13 {
        'D'
    } else if d == 14 {
        'E'
    } else {
        'F'
    }
}

/// The value of a hexadecimal digit written in upper case; 0 for any other
/// character.
pub open spec fn hex_value(c: char) -> int {
    if c == '1' {
        1
    } else if c == '2' {
        2
    } else if c == '3' {
        3
    } else if c == '4' {
        4
    } else if c == '5' {
        5
    } else if c == '6' {
        6
    } else if c == '7' {
        7
    } else if c == '8' {
        8
    } else if c == '9' {
        9
    } else if c == 'A' {
        10
    } else if c == 'B' {
        11
    } else if c == 'C' {
        12
    } else if c == 'D' {
        13
    } else if c == 'E' {
        14
    } else if c == 'F' {
        15
    } else {
        0
    }
}

/// The two hexadecimal digits of one byte, high digit first.
pub open spec fn hex_pair(b: u8) -> Seq<char> {
    seq![hex_char(b as int / 16), hex_char(b as int % 16)]
}

/// Text of a hardware address: each byte as two upper-case hexadecimal
/// digits, the bytes joined by colons. No bytes give the empty text.
pub open spec fn mac_text(bytes: Seq<u8>) -> Seq<char>
    decreases bytes.len(),
{
    if bytes.len() == 0 {
        Seq::empty()
    } else if bytes.len() == 1 {
        hex_pair(bytes[0])
    } else {
        mac_text(bytes.drop_last()) + seq![':'] + hex_pair(bytes.last())
    }
}

/// The bytes that a hardware address text spells: one byte for each group
/// of two hexadecimal digits, the groups standing three characters apart.
pub open spec fn mac_decode(text: Seq<char>) -> Seq<u8> {
    Seq::new(
        ((text.len() + 1) / 3) as nat,
        |i: int| (hex_value(text[3 * i]) * 16 + hex_value(text[3 * i + 1])) as u8,
    )
}

/// A 32-bit value with its four bytes in the opposite order.
pub open spec fn byte_swapped(v: u32) -> u32 {
    (ipv4_octet(v, 0) * 0x100_0000 + ipv4_octet(v, 1) * 0x1_0000 + ipv4_octet(v, 2) * 0x100
        + ipv4_octet(v, 3)) as u32
}

fn hex_digit(d: u8) -> (c: char)
    requires
        d < 16,
    ensures
        c == hex_char(d as int),
{
    if d < 10 {
        decimal_digit(d)
    } else if d == 10 {
        'A'
    } else if d == 11 {
        'B'
    } else if d == 12 {
        'C'
    } else if d == 13 {
        'D'
    } else if d == 14 {
        'E'
    } else {
        'F'
    }
}

/// Renders the bytes of a hardware address in the colloquial form, such as
/// `DE:AD:00` for the bytes `DE`, `AD` and `00`.
pub fn mac_to_string(mac: &Vec<u8>) -> (s: String)
    ensures
        s@ == mac_text(mac@),
{
    let mut s = String::new();
    let n: usize = mac.len();
    let mut i: usize = 0;
    while i < n
        invariant
            n == mac.len(),
            i <= n,
            i == 0 ==> s@ == Seq::<char>::empty(),
            0 < i < n ==> s@ == mac_text(mac@.take(i as int)) + seq![':'],
            i == n ==> s@ == mac_text(mac@.take(i as int)),
        decreases n - i,
    {
        let b: u8 = mac[i];
        let ghost before = s@;
        let ghost prefix = mac@.take(i as int + 1);
        s.push(hex_digit(b / 16));
        s.push(hex_digit(b % 16));
        proof {
            assert(prefix.drop_last() =~= mac@.take(i as int));
            assert(prefix.last() == b);
            assert(s@ =~= before + hex_pair(b));
            if i == 0 {
                assert(prefix[0] == b);
                assert(s@ =~= mac_text(prefix));
            } else {
                assert(s@ =~= mac_text(prefix));
            }
        }
        if i + 1 < n {
            s.push(':');
        }
        i = i + 1;
    }
    proof {
        assert(mac@.take(n as int) =~= mac@);
    }
    s
}

/// Converts a 32-bit value read in network byte order to host order on a
/// little-endian host, by reversing its four bytes.
pub fn network_to_host_order(v: u32) -> (r: u32)
    ensures
        r == byte_swapped(v),
        ipv4_octet(r, 0) == ipv4_octet(v, 3),
        ipv4_octet(r, 1) == ipv4_octet(v, 2),
        ipv4_octet(r, 2) == ipv4_octet(v, 1),
        ipv4_octet(r, 3) == ipv4_octet(v, 0),
{
    let r: u32 = ((v & 0xFF) << 24) | ((v & 0xFF00) << 8) | ((v >> 8) & 0xFF00) | (v >> 24);
    proof {
        assert(r == (v % 256) * 0x100_0000 + ((v / 0x100) % 256) * 0x1_0000 + ((v / 0x1_0000)
            % 256) * 0x100 + (v / 0x100_0000) % 256) by (bit_vector)
            requires
                r == ((v & 0xFF) << 24) | ((v & 0xFF00) << 8) | ((v >> 8) & 0xFF00) | (v >> 24),
        ;
        lemma_byte_swapped_octets(v);
    }
    r
}

/// Each byte of a swapped value is the byte at the mirrored position of the
/// value it was made from.
pub proof fn lemma_byte_swapped_octets(v: u32)
    ensures
        ipv4_octet(byte_swapped(v), 0) == ipv4_octet(v, 3),
        ipv4_octet(byte_swapped(v), 1) == ipv4_octet(v, 2),
        ipv4_octet(byte_swapped(v), 2) == ipv4_octet(v, 1),
        ipv4_octet(byte_swapped(v), 3) == ipv4_octet(v, 0),
{
    lemma_octets_of_sum(
        ipv4_octet(v, 0) as int,
        ipv4_octet(v, 1) as int,
        ipv4_octet(v, 2) as int,
        ipv4_octet(v, 3) as int,
    );
}

/// The four bytes of a value that is written as a sum of bytes, each at
/// its weight.
proof fn lemma_octets_of_sum(a: int, b: int, c: int, d: int)
    requires
        0 <= a < 256,
        0 <= b < 256,
        0 <= c < 256,
        0 <= d < 256,
    ensures
        0 <= a * 0x100_0000 + b * 0x1_0000 + c * 0x100 + d < 0x1_0000_0000,
        (a * 0x100_0000 + b * 0x1_0000 + c * 0x100 + d) % 256 == d,
        ((a * 0x100_0000 + b * 0x1_0000 + c * 0x100 + d) / 0x100) % 256 == c,
        ((a * 0x100_0000 + b * 0x1_0000 + c * 0x100 + d) / 0x1_0000) % 256 == b,
        ((a * 0x100_0000 + b * 0x1_0000 + c * 0x100 + d) / 0x100_0000) % 256 == a,
{
    let w = a * 0x100_0000 + b * 0x1_0000 + c * 0x100 + d;
    let w1 = a * 0x1_0000 + b * 0x100 + c;
    let w2 = a * 0x100 + b;
    vstd::arithmetic::div_mod::lemma_fundamental_div_mod_converse(w, 0x100, w1, d);
    vstd::arithmetic::div_mod::lemma_fundamental_div_mod_converse(w1, 0x100, w2, c);
    vstd::arithmetic::div_mod::lemma_fundamental_div_mod_converse(w, 0x1_0000, w2, c * 0x100 + d);
    vstd::arithmetic::div_mod::lemma_fundamental_div_mod_converse(w2, 0x100, a, b);
    vstd::arithmetic::div_mod::lemma_fundamental_div_mod_converse(
        w,
        0x100_0000,
        a,
        b * 0x1_0000 + c * 0x100 + d,
    );
    vstd::arithmetic::div_mod::lemma_fundamental_div_mod_converse(a, 0x100, 0, a);
}

/// Reversing the bytes twice gives the value back.
pub proof fn lemma_byte_swap_involution(v: u32)
    ensures
        byte_swapped(byte_swapped(v)) == v,
{
    lemma_byte_swapped_octets(v);
    assert(v == ((v / 0x100_0000) % 256) * 0x100_0000 + ((v / 0x1_0000) % 256) * 0x1_0000 + ((v
        / 0x100) % 256) * 0x100 + v % 256) by (bit_vector);
}

/// The text of a hardware address of `n` bytes, `n` not zero, is made of
/// `2n - 1` parts: `n` groups of two digits and `n - 1` colons between
/// them. It is therefore `3n - 1` characters long, and byte `i` is spelled
/// at position `3 * i`.
pub proof fn lemma_mac_text_layout(bytes: Seq<u8>)
    ensures
        bytes.len() == 0 ==> mac_text(bytes).len() == 0,
        bytes.len() > 0 ==> mac_text(bytes).len() == 3 * bytes.len() - 1,
        forall|i: int|
            0 <= i < bytes.len() ==> #[trigger] mac_text(bytes)[3 * i] == hex_char(
                bytes[i] as int / 16,
            ) && mac_text(bytes)[3 * i + 1] == hex_char(bytes[i] as int % 16),
        forall|i: int| 0 <= i < bytes.len() - 1 ==> #[trigger] mac_text(bytes)[3 * i + 2] == ':',
    decreases bytes.len(),
{
    if bytes.len() >= 2 {
        let front = bytes.drop_last();
        lemma_mac_text_layout(front);
        let n = bytes.len() as int;
        assert forall|i: int| 0 <= i < n implies #[trigger] mac_text(bytes)[3 * i] == hex_char(
            bytes[i] as int / 16,
        ) && mac_text(bytes)[3 * i + 1] == hex_char(bytes[i] as int % 16) by {
            if i < n - 1 {
                assert(mac_text(front)[3 * i] == hex_char(front[i] as int / 16));
            }
        }
        assert forall|i: int| 0 <= i < n - 1 implies #[trigger] mac_text(bytes)[3 * i + 2]
            == ':' by {
            if i < n - 2 {
                assert(mac_text(front)[3 * i + 2] == ':');
            }
        }
    }
}

/// Reading a rendered hardware address back as hexadecimal gives the bytes
/// it was rendered from.
pub proof fn lemma_mac_text_round_trip(bytes: Seq<u8>)
    ensures
        mac_decode(mac_text(bytes)) == bytes,
{
    lemma_mac_text_layout(bytes);
    let text = mac_text(bytes);
    assert(mac_decode(text).len() == bytes.len());
    assert forall|i: int| 0 <= i < bytes.len() implies mac_decode(text)[i] == bytes[i] by {
        assert(text[3 * i] == hex_char(bytes[i] as int / 16));
        lemma_hex_value_of_hex_char(bytes[i] as int / 16);
        lemma_hex_value_of_hex_char(bytes[i] as int % 16);
    }
    assert(mac_decode(text) =~= bytes);
}

proof fn lemma_hex_value_of_hex_char(d: int)
    requires
        0 <= d < 16,
    ensures
        hex_value(hex_char(d)) == d,
{
}

} // verus!
