//! Byte and hex-text encodings used by the proof format.

use vstd::prelude::*;

verus! {

/// Value of a digit sequence read most-significant digit first.
pub open spec fn radix_value(d: Seq<nat>, base: nat) -> nat
    decreases d.len(),
{
    if d.len() == 0 {
        0
    } else {
        radix_value(d.drop_last(), base) * base + d.last()
    }
}

/// `base` raised to `n`.
pub open spec fn power(base: nat, n: nat) -> nat
    decreases n,
{
    if n == 0 {
        1
    } else {
        power(base, (n - 1) as nat) * base
    }
}

/// Big-endian numeric value of a byte sequence.
pub open spec fn be_value(b: Seq<u8>) -> nat {
    radix_value(b.map_values(|x: u8| x as nat), 256)
}

pub open spec fn is_hex_digit(c: char) -> bool {
    ('0' <= c && c <= '9') || ('a' <= c && c <= 'f') || ('A' <= c && c <= 'F')
}

pub open spec fn hex_digit_value(c: char) -> nat {
    if '0' <= c && c <= '9' {
        (c as nat - '0' as nat) as nat
    } else if 'a' <= c && c <= 'f' {
        (c as nat - 'a' as nat + 10) as nat
    } else {
        (c as nat - 'A' as nat + 10) as nat
    }
}

/// Every character is a hex digit.
pub open spec fn all_hex_digits(s: Seq<char>) -> bool {
    forall|i: int| 0 <= i < s.len() ==> is_hex_digit(#[trigger] s[i])
}

/// Text that decodes to bytes: an even number of hex digits.
pub open spec fn is_hex_text(s: Seq<char>) -> bool {
    s.len() % 2 == 0 && all_hex_digits(s)
}

/// Numeric value of a run of hex digits.
pub open spec fn hex_value(s: Seq<char>) -> nat {
    radix_value(s.map_values(|c: char| hex_digit_value(c)), 16)
}

/// The bytes that a hex text stands for, two digits per byte.
pub open spec fn hex_bytes(s: Seq<char>) -> Seq<u8> {
    Seq::new(
        s.len() / 2,
        |i: int| (hex_digit_value(s[2 * i]) * 16 + hex_digit_value(s[2 * i + 1])) as u8,
    )
}

pub open spec fn lower_hex_char(d: nat) -> char {
    if d < 10 {
        (('0' as nat) + d) as char
    } else {
        (('a' as nat) + d - 10) as char
    }
}

/// Lower-case hex text of a byte sequence, two digits per byte.
pub open spec fn hex_text(b: Seq<u8>) -> Seq<char> {
    Seq::new(
        2 * b.len(),
        |i: int|
            if i % 2 == 0 {
                lower_hex_char(b[i / 2] as nat / 16)
            } else {
                lower_hex_char(b[i / 2] as nat % 16)
            },
    )
}

/// The two bytes of a 16-bit value, least significant first.
pub open spec fn le_u16(v: u16) -> Seq<u8> {
    seq![(v % 256) as u8, (v / 256) as u8]
}

/// Bytes of a sequence of 16-bit values, each least significant byte first.
pub open spec fn le_u16_seq(s: Seq<u16>) -> Seq<u8>
    decreases s.len(),
{
    if s.len() == 0 {
        Seq::empty()
    } else {
        le_u16_seq(s.drop_last()) + le_u16(s.last())
    }
}

pub proof fn lemma_radix_bound(d: Seq<nat>, base: nat)
    requires
        base > 0,
        forall|i: int| 0 <= i < d.len() ==> d[i] < base,
    ensures
        radix_value(d, base) < power(base, d.len()),
    decreases d.len(),
{
    if d.len() > 0 {
        let init = d.drop_last();
        assert forall|i: int| 0 <= i < init.len() implies init[i] < base by {
            assert(init[i] == d[i]);
        }
        lemma_radix_bound(init, base);
        let v = radix_value(init, base);
        let p = power(base, init.len());
        let l = d.last();
        assert(l < base);
        assert(v * base + l < p * base) by (nonlinear_arith)
            requires
                v < p,
                l < base,
        ;
    }
}

pub proof fn lemma_radix_push(d: Seq<nat>, x: nat, base: nat)
    ensures
        radix_value(d.push(x), base) == radix_value(d, base) * base + x,
{
    assert(d.push(x).drop_last() =~= d);
}

/// Reads one hex digit.
pub fn hex_digit(c: char) -> (r: u8)
    requires
        is_hex_digit(c),
    ensures
        r as nat == hex_digit_value(c),
        r < 16,
{
    if '0' <= c && c <= '9' {
        (c as u32 - '0' as u32) as u8
    } else if 'a' <= c && c <= 'f' {
        (c as u32 - 'a' as u32 + 10) as u8
    } else {
        (c as u32 - 'A' as u32 + 10) as u8
    }
}

} // verus!

verus! {

#[verifier::external_type_specification]
#[verifier::external_body]
pub struct ExFromHexError(hex::FromHexError);

/// Relies on hex::encode: lower-case hex text, two digits per byte.
#[verifier::external_body]
pub(crate) fn hex_encode(b: &[u8]) -> (r: String)
    ensures
        r@ == hex_text(b@),
{
    hex::encode(b)
}

/// Relies on hex::decode: it accepts exactly the texts of an even number of
/// hex digits (either case) and returns the byte of each digit pair.
#[verifier::external_body]
pub(crate) fn hex_decode(s: &str) -> (r: Result<Vec<u8>, hex::FromHexError>)
    ensures
        r is Ok <==> is_hex_text(s@),
        r is Ok ==> r->Ok_0@ == hex_bytes(s@),
{
    hex::decode(s)
}

} // verus!

verus! {

pub proof fn lemma_power_256_8()
    ensures
        power(256, 8) == 0x1_0000_0000_0000_0000,
{
    reveal_with_fuel(power, 9);
}

pub proof fn lemma_power_16_16()
    ensures
        power(16, 16) == 0x1_0000_0000_0000_0000,
{
    reveal_with_fuel(power, 17);
}

pub proof fn lemma_power_grows(base: nat, a: nat, b: nat)
    requires
        base >= 1,
        a <= b,
    ensures
        power(base, a) <= power(base, b),
    decreases b - a,
{
    if a < b {
        lemma_power_grows(base, a, (b - 1) as nat);
        assert(power(base, (b - 1) as nat) <= power(base, (b - 1) as nat) * base) by (nonlinear_arith)
            requires
                base >= 1,
        ;
    }
}

/// Big-endian value of `len` bytes of `b` from `start`.
pub fn read_be(b: &Vec<u8>, start: usize, len: usize) -> (r: u64)
    requires
        start + len <= b.len(),
        len <= 8,
    ensures
        r as nat == be_value(b@.subrange(start as int, start + len)),
{
    let mut acc: u64 = 0;
    let mut k: usize = 0;
    while k < len
        invariant
            start + len <= b.len(),
            len <= 8,
            k <= len,
            acc as nat == be_value(b@.subrange(start as int, start + k)),
            (acc as nat) < power(256, k as nat),
        decreases len - k,
    {
        let x = b[start + k];
        proof {
            let f = |v: u8| v as nat;
            let prev = b@.subrange(start as int, start + k);
            assert(b@.subrange(start as int, start + k + 1).map_values(f) =~= prev.map_values(f).push(
                x as nat,
            ));
            lemma_radix_push(prev.map_values(f), x as nat, 256);
            lemma_power_256_8();
            lemma_power_grows(256, (k + 1) as nat, 8);
            let a = acc as nat;
            assert(a * 256 + x < power(256, k as nat) * 256) by (nonlinear_arith)
                requires
                    a < power(256, k as nat),
                    x < 256,
            ;
        }
        acc = acc * 256 + x as u64;
        k = k + 1;
    }
    acc
}

/// Value of a text of one to sixteen hex digits.
pub fn read_hex(s: &str) -> (r: u64)
    requires
        0 < s@.len() <= 16,
        all_hex_digits(s@),
    ensures
        r as nat == hex_value(s@),
{
    let n = s.unicode_len();
    let mut acc: u64 = 0;
    let mut k: usize = 0;
    while k < n
        invariant
            n == s@.len(),
            n <= 16,
            all_hex_digits(s@),
            k <= n,
            acc as nat == hex_value(s@.subrange(0, k as int)),
            (acc as nat) < power(16, k as nat),
        decreases n - k,
    {
        let c = s.get_char(k);
        assert(is_hex_digit(s@[k as int]));
        let d = hex_digit(c);
        proof {
            let f = |c: char| hex_digit_value(c);
            let prev = s@.subrange(0, k as int);
            assert(s@.subrange(0, k + 1).map_values(f) =~= prev.map_values(f).push(d as nat));
            lemma_radix_push(prev.map_values(f), d as nat, 16);
            lemma_power_16_16();
            lemma_power_grows(16, (k + 1) as nat, 16);
            let a = acc as nat;
            assert(a * 16 + d < power(16, k as nat) * 16) by (nonlinear_arith)
                requires
                    a < power(16, k as nat),
                    d < 16,
            ;
        }
        acc = acc * 16 + d as u64;
        k = k + 1;
    }
    assert(s@.subrange(0, n as int) =~= s@);
    acc
}

} // verus!

verus! {

pub proof fn lemma_hex_text_is_hex(b: Seq<u8>)
    ensures
        is_hex_text(hex_text(b)),
        hex_text(b).len() == 2 * b.len(),
{
    let t = hex_text(b);
    assert forall|i: int| 0 <= i < t.len() implies is_hex_digit(#[trigger] t[i]) by {
        let x = b[i / 2] as nat;
        assert(x / 16 < 16 && x % 16 < 16);
    }
}

/// `a` followed by `b`.
pub fn concat_bytes(a: &Vec<u8>, b: &Vec<u8>) -> (r: Vec<u8>)
    requires
        a@.len() + b@.len() <= usize::MAX,
    ensures
        r@ == a@ + b@,
{
    let mut r: Vec<u8> = Vec::new();
    let mut i: usize = 0;
    while i < a.len()
        invariant
            i <= a@.len(),
            r@ == a@.subrange(0, i as int),
        decreases a@.len() - i,
    {
        r.push(a[i]);
        i = i + 1;
        assert(r@ =~= a@.subrange(0, i as int));
    }
    let mut j: usize = 0;
    while j < b.len()
        invariant
            j <= b@.len(),
            r@ == a@ + b@.subrange(0, j as int),
        decreases b@.len() - j,
    {
        r.push(b[j]);
        j = j + 1;
        assert(r@ =~= a@ + b@.subrange(0, j as int));
    }
    assert(b@.subrange(0, b@.len() as int) =~= b@);
    assert(a@.subrange(0, a@.len() as int) =~= a@);
    r
}

/// The bytes of `a` in reverse order.
pub fn reverse_bytes(a: &Vec<u8>) -> (r: Vec<u8>)
    ensures
        r@ == a@.reverse(),
{
    let mut r: Vec<u8> = Vec::new();
    let mut i: usize = a.len();
    while i > 0
        invariant
            i <= a@.len(),
            r@.len() == a@.len() - i,
            forall|k: int| 0 <= k < r@.len() ==> r@[k] == a@[a@.len() - 1 - k],
        decreases i,
    {
        i = i - 1;
        r.push(a[i]);
    }
    assert(r@ =~= a@.reverse());
    r
}

/// Bytes of 16-bit values, each least significant byte first.
pub fn le_bytes_of(s: &Vec<u16>) -> (r: Vec<u8>)
    requires
        s@.len() <= 0x1000_0000,
    ensures
        r@ == le_u16_seq(s@),
        r@.len() == 2 * s@.len(),
{
    let mut r: Vec<u8> = Vec::new();
    let mut i: usize = 0;
    while i < s.len()
        invariant
            i <= s@.len(),
            s@.len() <= 0x1000_0000,
            r@ == le_u16_seq(s@.subrange(0, i as int)),
            r@.len() == 2 * i,
        decreases s@.len() - i,
    {
        let v = s[i];
        r.push((v % 256) as u8);
        r.push((v / 256) as u8);
        proof {
            let prev = s@.subrange(0, i as int);
            assert(s@.subrange(0, i + 1).drop_last() =~= prev);
        }
        i = i + 1;
        assert(r@ =~= le_u16_seq(s@.subrange(0, i as int)));
    }
    assert(s@.subrange(0, s@.len() as int) =~= s@);
    r
}

} // verus!

verus! {

pub proof fn lemma_be_value_4_bound(b: Seq<u8>)
    requires
        b.len() == 4,
    ensures
        be_value(b) < 0x1_0000_0000,
{
    let d = b.map_values(|x: u8| x as nat);
    lemma_radix_bound(d, 256);
    reveal_with_fuel(power, 5);
}

} // verus!
