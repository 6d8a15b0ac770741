//! Base32 decoding of shared secrets (RFC 4648 alphabet, upper case).

use vstd::prelude::*;
use vstd::arithmetic::power2::{pow2, lemma_pow2_unfold, lemma_pow2_pos, lemma2_to64};
use vstd::arithmetic::div_mod::lemma_fundamental_div_mod_converse;
use vstd::bits::{lemma_u64_shr_is_div, lemma_u64_shl_is_mul, lemma_u64_low_bits_mask_is_mod};

use crate::text::{chars_of, push_char};

verus! {

broadcast use vstd::string::group_string_axioms;

// ----------------------------------------------------------------------------
// Specification
// ----------------------------------------------------------------------------

/// Whether `c` is one of the 32 symbols `A`..`Z`, `2`..`7`.
pub open spec fn is_base32_char(c: char) -> bool {
    ||| 'A' as u32 <= c as u32 <= 'Z' as u32
    ||| '2' as u32 <= c as u32 <= '7' as u32
}

/// The 5-bit value of a base32 symbol: `A` is 0, `Z` is 25, `2` is 26, `7` is 31.
pub open spec fn base32_value(c: char) -> int {
    if 'A' as u32 <= c as u32 <= 'Z' as u32 {
        c as u32 - 'A' as u32
    } else {
        c as u32 - '2' as u32 + 26
    }
}

/// `s` without its trailing `=` padding characters.
pub open spec fn strip_padding(s: Seq<char>) -> Seq<char>
    decreases s.len(),
{
    if s.len() > 0 && s.last() == '=' {
        strip_padding(s.drop_last())
    } else {
        s
    }
}

/// The first character of `s` that is not a base32 symbol, if any.
pub open spec fn first_invalid(s: Seq<char>) -> Option<char>
    decreases s.len(),
{
    if s.len() == 0 {
        None
    } else if !is_base32_char(s[0]) {
        Some(s[0])
    } else {
        first_invalid(s.drop_first())
    }
}

/// The five bits of `v`, most significant first.
pub open spec fn five_bits(v: int) -> Seq<bool> {
    seq![v / 16 % 2 == 1, v / 8 % 2 == 1, v / 4 % 2 == 1, v / 2 % 2 == 1, v % 2 == 1]
}

/// The bit stream that a sequence of base32 symbols encodes: five bits per
/// symbol, most significant first.
pub open spec fn bit_stream(s: Seq<char>) -> Seq<bool>
    decreases s.len(),
{
    if s.len() == 0 {
        seq![]
    } else {
        bit_stream(s.drop_last()) + five_bits(base32_value(s.last()))
    }
}

/// The number that a sequence of bits denotes, most significant bit first.
pub open spec fn bits_value(b: Seq<bool>) -> nat
    decreases b.len(),
{
    if b.len() == 0 {
        0
    } else {
        2 * bits_value(b.drop_last()) + if b.last() { 1nat } else { 0nat }
    }
}

/// The `k`-th complete octet of a bit stream.
pub open spec fn octet(b: Seq<bool>, k: int) -> u8 {
    bits_value(b.subrange(8 * k, 8 * k + 8)) as u8
}

/// The bytes of a bit stream: each complete group of eight bits, in order;
/// bits left over at the end are dropped.
pub open spec fn octets(b: Seq<bool>) -> Seq<u8> {
    Seq::new(b.len() / 8, |k: int| octet(b, k))
}

/// The message that reports a character outside the base32 alphabet.
pub open spec fn invalid_char_message(c: char) -> Seq<char> {
    "Invalid character in base32: "@.push(c)
}

/// What decoding `s` gives: padding is removed from the end, then every
/// remaining character must be a base32 symbol; the result is the bytes of
/// their bit stream, or an error naming the first character that is not.
pub open spec fn spec_base32_decode(s: Seq<char>) -> Result<Seq<u8>, Seq<char>> {
    let t = strip_padding(s);
    match first_invalid(t) {
        Some(c) => Err(invalid_char_message(c)),
        None => Ok(octets(bit_stream(t))),
    }
}

// ----------------------------------------------------------------------------
// Lemmas
// ----------------------------------------------------------------------------

proof fn lemma_bit_stream_len(s: Seq<char>)
    ensures
        bit_stream(s).len() == 5 * s.len(),
    decreases s.len(),
{
    if s.len() > 0 {
        lemma_bit_stream_len(s.drop_last());
    }
}

proof fn lemma_bits_value_append(a: Seq<bool>, b: Seq<bool>)
    ensures
        bits_value(a + b) == bits_value(a) * pow2(b.len()) + bits_value(b),
    decreases b.len(),
{
    if b.len() == 0 {
        assert(a + b == a);
        lemma2_to64();
        assert(bits_value(b) == 0);
        assert(bits_value(a) * pow2(b.len()) == bits_value(a));
    } else {
        let b0 = b.drop_last();
        assert((a + b).drop_last() == a + b0);
        assert((a + b).last() == b.last());
        lemma_bits_value_append(a, b0);
        lemma_pow2_unfold(b.len());
        let va = bits_value(a) as int;
        let p0 = pow2(b0.len()) as int;
        assert(2 * (va * p0) == va * (2 * p0)) by (nonlinear_arith);
        assert(pow2(b.len()) == 2 * p0);
        assert(bits_value(b) == 2 * bits_value(b0) + if b.last() { 1nat } else { 0nat });
        assert(bits_value(a + b) == 2 * bits_value(a + b0) + if b.last() { 1nat } else { 0nat });
    }
}

proof fn lemma_bits_value_bound(b: Seq<bool>)
    ensures
        bits_value(b) < pow2(b.len()),
    decreases b.len(),
{
    if b.len() == 0 {
        lemma2_to64();
    } else {
        lemma_bits_value_bound(b.drop_last());
        lemma_pow2_unfold(b.len());
    }
}

proof fn lemma_five_bits(v: int)
    requires
        0 <= v < 32,
    ensures
        five_bits(v).len() == 5,
        bits_value(five_bits(v)) == v,
{
    let f = five_bits(v);
    assert(f.drop_last().drop_last().drop_last().drop_last().drop_last().len() == 0);
    reveal_with_fuel(bits_value, 6);
    assert(v == 16 * (v / 16 % 2) + 8 * (v / 8 % 2) + 4 * (v / 4 % 2) + 2 * (v / 2 % 2) + v % 2)
        by (nonlinear_arith)
        requires
            0 <= v < 32,
    ;
}

/// Splitting a window of `8 + r` bits into its leading octet and the rest.
proof fn lemma_split_window(w: Seq<bool>, r: nat)
    requires
        w.len() == 8 + r,
    ensures
        bits_value(w.subrange(0, 8)) < 256,
        bits_value(w) / pow2(r) == bits_value(w.subrange(0, 8)),
        bits_value(w) % pow2(r) == bits_value(w.subrange(8, 8 + r as int)),
{
    let hi = w.subrange(0, 8);
    let lo = w.subrange(8, 8 + r as int);
    assert(w == hi + lo);
    lemma_bits_value_append(hi, lo);
    lemma_bits_value_bound(lo);
    lemma_bits_value_bound(hi);
    lemma2_to64();
    lemma_pow2_pos(r);
    lemma_fundamental_div_mod_converse(
        bits_value(w) as int,
        pow2(r) as int,
        bits_value(hi) as int,
        bits_value(lo) as int,
    );
}

proof fn lemma_first_invalid_at(s: Seq<char>, i: int)
    requires
        0 <= i < s.len(),
        forall|j: int| 0 <= j < i ==> is_base32_char(#[trigger] s[j]),
        !is_base32_char(s[i]),
    ensures
        first_invalid(s) == Some(s[i]),
    decreases i,
{
    if i > 0 {
        lemma_first_invalid_at(s.drop_first(), i - 1);
    }
}

proof fn lemma_first_invalid_none(s: Seq<char>)
    requires
        forall|j: int| 0 <= j < s.len() ==> is_base32_char(#[trigger] s[j]),
    ensures
        first_invalid(s) is None,
    decreases s.len(),
{
    if s.len() > 0 {
        lemma_first_invalid_none(s.drop_first());
    }
}


/// The bit stream of one more symbol extends the bit stream of the ones before.
proof fn lemma_bit_stream_step(t: Seq<char>, i: int)
    requires
        0 <= i < t.len(),
    ensures
        bit_stream(t.take(i + 1)) == bit_stream(t.take(i)) + five_bits(base32_value(t[i])),
{
    assert(t.take(i + 1).drop_last() == t.take(i));
}

/// Extending a bit stream keeps its complete octets and, once eight more bits
/// are there, adds one.
proof fn lemma_octets_extend(b: Seq<bool>, x: Seq<bool>)
    requires
        b.len() % 8 + x.len() < 16,
    ensures
        (b.len() % 8 + x.len() < 8) ==> octets(b + x) == octets(b),
        (b.len() % 8 + x.len() >= 8) ==> octets(b + x) == octets(b).push(
            octet(b + x, (b.len() / 8) as int),
        ),
{
    let bx = b + x;
    assert forall|k: int| 0 <= k < b.len() / 8 implies octet(bx, k) == octet(b, k) by {
        assert(bx.subrange(8 * k, 8 * k + 8) == b.subrange(8 * k, 8 * k + 8));
    }
    if b.len() % 8 + x.len() < 8 {
        assert(bx.len() / 8 == b.len() / 8);
        assert(octets(bx) == octets(b));
    } else {
        assert(bx.len() / 8 == b.len() / 8 + 1);
        assert(octets(bx) == octets(b).push(octet(bx, (b.len() / 8) as int)));
    }
}

/// Padding at the end does not change what a string decodes to.
pub proof fn padding_is_ignored(s: Seq<char>)
    ensures
        spec_base32_decode(s.push('=')) == spec_base32_decode(s),
{
    assert(s.push('=').drop_last() == s);
}

/// A valid string of `n` symbols (padding aside) decodes to `5 * n / 8` bytes:
/// five bits per symbol, whole bytes only.
pub proof fn decoded_length(s: Seq<char>)
    ensures
        spec_base32_decode(s) matches Ok(bytes) ==> bytes.len() == 5 * strip_padding(s).len() / 8,
{
    lemma_bit_stream_len(strip_padding(s));
}

/// Stripping the padding leaves a prefix followed by nothing but `=`, and a
/// prefix that does not end in `=`.
proof fn lemma_strip_padding_shape(s: Seq<char>)
    ensures
        strip_padding(s).len() <= s.len(),
        strip_padding(s) == s.take(strip_padding(s).len() as int),
        forall|i: int| strip_padding(s).len() <= i < s.len() ==> #[trigger] s[i] == '=',
        strip_padding(s).len() > 0 ==> strip_padding(s).last() != '=',
    decreases s.len(),
{
    if s.len() > 0 && s.last() == '=' {
        lemma_strip_padding_shape(s.drop_last());
        let t = strip_padding(s.drop_last());
        assert(s.drop_last().take(t.len() as int) == s.take(t.len() as int));
        assert forall|i: int| t.len() <= i < s.len() implies #[trigger] s[i] == '=' by {
            if i < s.len() - 1 {
                assert(s[i] == s.drop_last()[i]);
            }
        }
    } else {
        assert(s.take(s.len() as int) == s);
    }
}

/// A string made of `u`, which does not end in `=`, and then only `=`, loses
/// exactly that tail.
proof fn lemma_strip_padding_of(s: Seq<char>, k: int)
    requires
        0 <= k <= s.len(),
        forall|i: int| k <= i < s.len() ==> #[trigger] s[i] == '=',
        k > 0 ==> s[k - 1] != '=',
    ensures
        strip_padding(s) == s.take(k),
    decreases s.len(),
{
    if s.len() > k {
        assert(s.drop_last().take(k) == s.take(k));
        assert forall|i: int| k <= i < s.drop_last().len() implies #[trigger] s.drop_last()[i] == '=' by {
            assert(s.drop_last()[i] == s[i]);
        }
        lemma_strip_padding_of(s.drop_last(), k);
    } else {
        assert(s.take(k) == s);
    }
}

proof fn lemma_first_invalid_none_all_valid(s: Seq<char>)
    requires
        first_invalid(s) is None,
    ensures
        forall|j: int| 0 <= j < s.len() ==> is_base32_char(#[trigger] s[j]),
    decreases s.len(),
{
    if s.len() > 0 {
        lemma_first_invalid_none_all_valid(s.drop_first());
        assert forall|j: int| 0 <= j < s.len() implies is_base32_char(#[trigger] s[j]) by {
            if j > 0 {
                assert(s[j] == s.drop_first()[j - 1]);
            }
        }
    }
}

/// The bit stream of a prefix is a prefix of the bit stream.
proof fn lemma_bit_stream_prefix(t: Seq<char>, k: int)
    requires
        0 <= k <= t.len(),
    ensures
        bit_stream(t).len() == 5 * t.len(),
        bit_stream(t).take(5 * k) == bit_stream(t.take(k)),
    decreases t.len(),
{
    lemma_bit_stream_len(t);
    if k == t.len() {
        assert(t.take(k) == t);
        assert(bit_stream(t).take(5 * k) == bit_stream(t));
    } else {
        lemma_bit_stream_prefix(t.drop_last(), k);
        assert(t.drop_last().take(k) == t.take(k));
        lemma_bit_stream_len(t.drop_last());
        assert(bit_stream(t).take(5 * k) == bit_stream(t.drop_last()).take(5 * k));
    }
}

/// The octets of a prefix of a bit stream are a prefix of its octets.
proof fn lemma_octets_prefix(b: Seq<bool>, m: int)
    requires
        0 <= m <= b.len(),
    ensures
        octets(b.take(m)).len() <= octets(b).len(),
        octets(b).take(octets(b.take(m)).len() as int) == octets(b.take(m)),
{
    let p = b.take(m);
    assert(p.len() / 8 <= b.len() / 8) by (nonlinear_arith)
        requires
            p.len() <= b.len(),
    ;
    assert forall|k: int| 0 <= k < p.len() / 8 implies #[trigger] octet(p, k) == octet(b, k) by {
        assert(8 * k + 8 <= p.len()) by (nonlinear_arith)
            requires
                0 <= k < p.len() / 8,
        ;
        assert(p.subrange(8 * k, 8 * k + 8) == b.subrange(8 * k, 8 * k + 8));
    }
    assert(octets(b).take(octets(p).len() as int) == octets(p));
}

/// Decoding a longer valid input only adds bytes: the bytes of a valid input
/// are the first bytes of every valid input that starts with it.
pub proof fn decoding_extends_with_input(s1: Seq<char>, s2: Seq<char>)
    requires
        spec_base32_decode(s1) is Ok,
        spec_base32_decode(s1 + s2) is Ok,
    ensures
        ({
            let v1 = spec_base32_decode(s1)->Ok_0;
            let v2 = spec_base32_decode(s1 + s2)->Ok_0;
            v1.len() <= v2.len() && v2.take(v1.len() as int) == v1
        }),
{
    let s = s1 + s2;
    let t1 = strip_padding(s1);
    let t = strip_padding(s);
    lemma_strip_padding_shape(s1);
    lemma_strip_padding_shape(s);
    lemma_first_invalid_none_all_valid(t1);
    lemma_first_invalid_none_all_valid(t);
    // `t1` is a prefix of `t`.
    if t.len() >= s1.len() {
        assert forall|i: int| 0 <= i < s1.len() implies #[trigger] s1[i] != '=' by {
            assert(s1[i] == s[i]);
            assert(s[i] == t[i]);
            assert(is_base32_char(t[i]));
        }
        lemma_strip_padding_of(s1, s1.len() as int);
        assert(s1.take(s1.len() as int) == s1);
        assert(t1 == s1);
        assert(t.take(s1.len() as int) == s1);
    } else {
        let k = t.len() as int;
        assert forall|i: int| k <= i < s1.len() implies #[trigger] s1[i] == '=' by {
            assert(s1[i] == s[i]);
        }
        if k > 0 {
            assert(s1[k - 1] == t.last());
        }
        lemma_strip_padding_of(s1, k);
        assert(s1.take(k) == t);
        assert(t1 == t);
        assert(t.take(k) == t);
    }
    let k1 = t1.len() as int;
    assert(t.take(k1) == t1);
    lemma_bit_stream_prefix(t, k1);
    lemma_octets_prefix(bit_stream(t), 5 * k1);
}

/// The base32 symbol of a 5-bit value: `A`..`Z` for 0..25, `2`..`7` for 26..31.
pub open spec fn base32_symbol(v: int) -> char {
    if v < 26 {
        (65 + v) as char
    } else {
        (50 + v - 26) as char
    }
}

/// The eight bits of a byte, most significant first.
pub open spec fn byte_bits(b: u8) -> Seq<bool> {
    seq![
        b / 128 % 2 == 1,
        b / 64 % 2 == 1,
        b / 32 % 2 == 1,
        b / 16 % 2 == 1,
        b / 8 % 2 == 1,
        b / 4 % 2 == 1,
        b / 2 % 2 == 1,
        b % 2 == 1,
    ]
}

/// The bits of a sequence of bytes, eight per byte, in order.
pub open spec fn bits_of_bytes(bytes: Seq<u8>) -> Seq<bool>
    decreases bytes.len(),
{
    if bytes.len() == 0 {
        Seq::empty()
    } else {
        bits_of_bytes(bytes.drop_last()) + byte_bits(bytes.last())
    }
}

/// `b` followed by zero bits up to a multiple of five bits.
pub open spec fn pad_to_five(b: Seq<bool>) -> Seq<bool> {
    b + Seq::new(((5 - b.len() % 5) % 5) as nat, |i: int| false)
}

/// The RFC 4648 base32 encoding of `bytes`, without `=` padding: their bits,
/// completed with zero bits to a multiple of five, one symbol per five bits.
pub open spec fn base32_encode(bytes: Seq<u8>) -> Seq<char> {
    let p = pad_to_five(bits_of_bytes(bytes));
    Seq::new(p.len() / 5, |k: int| base32_symbol(bits_value(p.subrange(5 * k, 5 * k + 5)) as int))
}

/// `n` padding characters.
pub open spec fn padding(n: nat) -> Seq<char> {
    Seq::new(n, |i: int| '=')
}

proof fn lemma_symbol(v: int)
    requires
        0 <= v < 32,
    ensures
        is_base32_char(base32_symbol(v)),
        base32_value(base32_symbol(v)) == v,
        base32_symbol(v) != '=',
{
}

proof fn lemma_group_bits(g: Seq<bool>)
    requires
        g.len() == 5,
    ensures
        bits_value(g) < 32,
        five_bits(bits_value(g) as int) == g,
{
    reveal_with_fuel(bits_value, 6);
    assert(g.drop_last().drop_last().drop_last().drop_last().drop_last().len() == 0);
    let a: int = if g[0] { 1 } else { 0 };
    let b: int = if g[1] { 1 } else { 0 };
    let c: int = if g[2] { 1 } else { 0 };
    let d: int = if g[3] { 1 } else { 0 };
    let e: int = if g[4] { 1 } else { 0 };
    let v = 16 * a + 8 * b + 4 * c + 2 * d + e;
    assert(bits_value(g) == v);
    assert(v / 16 % 2 == a && v / 8 % 2 == b && v / 4 % 2 == c && v / 2 % 2 == d && v % 2 == e)
        by (nonlinear_arith)
        requires
            0 <= a <= 1,
            0 <= b <= 1,
            0 <= c <= 1,
            0 <= d <= 1,
            0 <= e <= 1,
            v == 16 * a + 8 * b + 4 * c + 2 * d + e,
    ;
    assert(five_bits(v) == g);
}

proof fn lemma_byte_bits_value(b: u8)
    ensures
        byte_bits(b).len() == 8,
        bits_value(byte_bits(b)) == b,
{
    let f = byte_bits(b);
    reveal_with_fuel(bits_value, 9);
    assert(f.drop_last().drop_last().drop_last().drop_last().drop_last().drop_last().drop_last().drop_last().len() == 0);
    assert(b == 128 * (b / 128 % 2) + 64 * (b / 64 % 2) + 32 * (b / 32 % 2) + 16 * (b / 16 % 2) + 8 * (
    b / 8 % 2) + 4 * (b / 4 % 2) + 2 * (b / 2 % 2) + b % 2) by (bit_vector);
}

proof fn lemma_bits_of_bytes(bytes: Seq<u8>)
    ensures
        bits_of_bytes(bytes).len() == 8 * bytes.len(),
        forall|k: int|
            0 <= k < bytes.len() ==> #[trigger] bits_of_bytes(bytes).subrange(8 * k, 8 * k + 8)
                == byte_bits(bytes[k]),
    decreases bytes.len(),
{
    if bytes.len() > 0 {
        let p = bytes.drop_last();
        lemma_bits_of_bytes(p);
        lemma_byte_bits_value(bytes.last());
        let bb = bits_of_bytes(bytes);
        assert forall|k: int| 0 <= k < bytes.len() implies #[trigger] bb.subrange(8 * k, 8 * k + 8)
            == byte_bits(bytes[k]) by {
            if k < p.len() {
                assert(bb.subrange(8 * k, 8 * k + 8) == bits_of_bytes(p).subrange(8 * k, 8 * k + 8));
                assert(p[k] == bytes[k]);
            } else {
                assert(bb.subrange(8 * k, 8 * k + 8) == byte_bits(bytes.last()));
            }
        }
    }
}

/// The bit stream of symbols whose five bits are the consecutive groups of `p`.
proof fn lemma_bit_stream_of_groups(e: Seq<char>, p: Seq<bool>, k: int)
    requires
        0 <= k <= e.len(),
        e.len() * 5 == p.len(),
        forall|j: int|
            0 <= j < e.len() ==> five_bits(base32_value(#[trigger] e[j])) == p.subrange(
                5 * j,
                5 * j + 5,
            ),
    ensures
        bit_stream(e.take(k)) == p.take(5 * k),
    decreases k,
{
    if k == 0 {
        assert(e.take(0) == Seq::<char>::empty());
        assert(p.take(0) == Seq::<bool>::empty());
    } else {
        lemma_bit_stream_of_groups(e, p, k - 1);
        lemma_bit_stream_step(e, k - 1);
        assert(five_bits(base32_value(e[k - 1])) == p.subrange(5 * (k - 1), 5 * k));
        assert(p.take(5 * (k - 1)) + p.subrange(5 * (k - 1), 5 * k) == p.take(5 * k));
    }
}

/// Decoding gives back the bytes that were encoded, with or without padding.
pub proof fn decoding_undoes_encoding(bytes: Seq<u8>, pad: nat)
    ensures
        spec_base32_decode(base32_encode(bytes) + padding(pad)) == Ok::<Seq<u8>, Seq<char>>(bytes),
{
    let bits = bits_of_bytes(bytes);
    let p = pad_to_five(bits);
    let e = base32_encode(bytes);
    let s = e + padding(pad);
    lemma_bits_of_bytes(bytes);
    assert(p.len() % 5 == 0) by {
        let l = bits.len() as int;
        assert((l + (5 - l % 5) % 5) % 5 == 0) by (nonlinear_arith)
            requires
                l >= 0,
        ;
    }
    assert(e.len() * 5 == p.len());
    // Every symbol is valid and none is `=`.
    assert forall|k: int| 0 <= k < e.len() implies {
        &&& is_base32_char(#[trigger] e[k])
        &&& e[k] != '='
        &&& five_bits(base32_value(e[k])) == p.subrange(5 * k, 5 * k + 5)
    } by {
        let g = p.subrange(5 * k, 5 * k + 5);
        lemma_group_bits(g);
        lemma_symbol(bits_value(g) as int);
    }
    // Stripping the padding gives `e` back.
    assert forall|i: int| e.len() <= i < s.len() implies #[trigger] s[i] == '=' by {}
    if e.len() > 0 {
        assert(s[e.len() - 1] == e[e.len() - 1]);
    }
    lemma_strip_padding_of(s, e.len() as int);
    assert(s.take(e.len() as int) == e);
    lemma_first_invalid_none(e);
    // The bit stream of `e` is `p`.
    lemma_bit_stream_of_groups(e, p, e.len() as int);
    assert(e.take(e.len() as int) == e);
    assert(p.take(p.len() as int) == p);
    assert(bit_stream(e) == p);
    // The octets of `p` are the bytes.
    let n = bytes.len() as int;
    assert(p.len() / 8 == n) by {
        let r = p.len() - bits.len();
        assert(0 <= r < 5);
        assert((8 * n + r) / 8 == n) by (nonlinear_arith)
            requires
                0 <= r < 5,
                n >= 0,
        ;
    }
    assert forall|k: int| 0 <= k < n implies #[trigger] octet(p, k) == bytes[k] by {
        assert(8 * k + 8 <= 8 * n);
        assert(p.subrange(8 * k, 8 * k + 8) == bits.subrange(8 * k, 8 * k + 8));
        lemma_byte_bits_value(bytes[k]);
    }
    assert(octets(p) == bytes);
}

// ----------------------------------------------------------------------------
// Executable code
// ----------------------------------------------------------------------------

/// The 5-bit value of `c`, or `None` when `c` is not a base32 symbol.
fn symbol_value(c: char) -> (res: Option<u64>)
    ensures
        res is Some <==> is_base32_char(c),
        res matches Some(v) ==> v == base32_value(c) && v < 32,
{
    let u = c as u32;
    if 'A' as u32 <= u && u <= 'Z' as u32 {
        Some((u - 'A' as u32) as u64)
    } else if '2' as u32 <= u && u <= '7' as u32 {
        Some((u - '2' as u32 + 26) as u64)
    } else {
        None
    }
}

/// The error message for a character outside the alphabet.
fn invalid_char_error(c: char) -> (res: String)
    ensures
        res@ == invalid_char_message(c),
{
    let mut msg = String::from_str("Invalid character in base32: ");
    proof {
        reveal_strlit("Invalid character in base32: ");
    }
    push_char(&mut msg, c);
    msg
}

/// Decodes a base32 string: trailing `=` padding is ignored, every other
/// character must be one of `A`..`Z`, `2`..`7`, and the bits that do not fill
/// a whole byte at the end are dropped.
pub fn base32_decode(input: &str) -> (res: Result<Vec<u8>, String>)
    ensures
        match spec_base32_decode(input@) {
            Ok(bytes) => res matches Ok(v) && v@ == bytes,
            Err(msg) => res matches Err(e) && e@ == msg,
        },
{
    let chars = chars_of(input);
    let mut end = chars.len();
    assert(chars@.take(end as int) == chars@);
    while end > 0 && chars[end - 1] == '='
        invariant
            end <= chars@.len(),
            strip_padding(chars@) == strip_padding(chars@.take(end as int)),
        decreases end,
    {
        assert(chars@.take(end as int).drop_last() == chars@.take(end - 1));
        end = end - 1;
    }
    let ghost t = chars@.take(end as int);
    assert(strip_padding(t) == t);

    let mut result: Vec<u8> = Vec::new();
    let mut buffer: u64 = 0;
    let mut bits_in_buffer: u64 = 0;
    let mut i: usize = 0;
    proof {
        lemma2_to64();
        assert(t.take(0) =~= Seq::<char>::empty());
        assert(bit_stream(t.take(0)) =~= Seq::<bool>::empty());
        assert(octets(Seq::<bool>::empty()) =~= Seq::<u8>::empty());
    }
    while i < end
        invariant
            end <= chars@.len(),
            t == chars@.take(end as int),
            strip_padding(input@) == t,
            i <= end,
            forall|j: int| 0 <= j < i ==> is_base32_char(#[trigger] t[j]),
            bits_in_buffer < 8,
            bits_in_buffer + 8 * result@.len() == 5 * i,
            bit_stream(t.take(i as int)).len() == 5 * i,
            buffer == bits_value(
                bit_stream(t.take(i as int)).subrange(8 * result@.len() as int, 5 * i as int),
            ),
            result@ == octets(bit_stream(t.take(i as int))),
        decreases end - i,
    {
        let c = chars[i];
        assert(c == t[i as int]);
        let value = match symbol_value(c) {
            Some(v) => v,
            None => {
                proof {
                    lemma_first_invalid_at(t, i as int);
                }
                return Err(invalid_char_error(c));
            },
        };
        let ghost old_stream = bit_stream(t.take(i as int));
        let ghost o: int = result@.len() as int;
        let ghost window = old_stream.subrange(8 * o, 5 * i as int);
        proof {
            lemma_bit_stream_step(t, i as int);
            lemma_five_bits(value as int);
            lemma_bits_value_bound(window);
            lemma2_to64();
            vstd::arithmetic::power2::lemma_pow2_strictly_increases(bits_in_buffer as nat, 8);
            assert(buffer < 128) by {
                if bits_in_buffer < 7 {
                    vstd::arithmetic::power2::lemma_pow2_strictly_increases(
                        bits_in_buffer as nat,
                        7,
                    );
                }
            }
            assert((buffer << 5u64) | value == buffer * 32 + value) by (bit_vector)
                requires
                    buffer < 128,
                    value < 32,
            ;
            let new_stream = bit_stream(t.take(i + 1));
            assert(new_stream.subrange(8 * o, 5 * i as int + 5) == window + five_bits(value as int));
            lemma_bits_value_append(window, five_bits(value as int));
            lemma_octets_extend(old_stream, five_bits(value as int));
            assert(old_stream.len() % 8 == bits_in_buffer);
        }
        buffer = (buffer << 5u64) | value;
        bits_in_buffer = bits_in_buffer + 5;
        if bits_in_buffer >= 8 {
            bits_in_buffer = bits_in_buffer - 8;
            let ghost new_stream = bit_stream(t.take(i + 1));
            let ghost w = new_stream.subrange(8 * o, 5 * i as int + 5);
            proof {
                lemma_split_window(w, bits_in_buffer as nat);
                lemma_u64_shr_is_div(buffer, bits_in_buffer);
                assert(w.subrange(0, 8) == new_stream.subrange(8 * o, 8 * o + 8));
                assert(w.subrange(8, 8 + bits_in_buffer as int) == new_stream.subrange(
                    8 * (o + 1),
                    5 * i as int + 5,
                ));
            }
            result.push((buffer >> bits_in_buffer) as u8);
            proof {
                lemma_u64_shl_is_mul(1, bits_in_buffer);
                vstd::bits::lemma_u64_pow2_no_overflow(bits_in_buffer as nat);
                lemma_u64_low_bits_mask_is_mod(buffer, bits_in_buffer as nat);
            }
            buffer = buffer & ((1u64 << bits_in_buffer) - 1);
        }
        i = i + 1;
    }
    proof {
        lemma_first_invalid_none(t);
        assert(t.take(end as int) == t);
    }
    Ok(result)
}

} // verus!
