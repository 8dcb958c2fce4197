//! The mathematical model of the wire format: every encoding the library
//! produces is described here as a sequence of booleans (the bit stream),
//! and every decoding as a function of such a sequence.
use vstd::prelude::*;
use vstd::arithmetic::power2::pow2;
use vstd::arithmetic::power2::lemma_pow2_unfold;
use vstd::arithmetic::power2::lemma_pow2_pos;
use vstd::arithmetic::power2::lemma_pow2_adds;
use vstd::arithmetic::power2::lemma_pow2_strictly_increases;
use vstd::arithmetic::div_mod::lemma_fundamental_div_mod;
use vstd::arithmetic::div_mod::lemma_fundamental_div_mod_converse;

verus! {

/// The bits of `v` below `width`, most significant first: the bit of weight
/// `pow2(width - 1)` comes first and the bit of weight 1 comes last.
pub open spec fn unsigned_bits(v: nat, width: nat) -> Seq<bool>
    decreases width,
{
    if width == 0 {
        Seq::empty()
    } else {
        unsigned_bits(v / 2, (width - 1) as nat).push(v % 2 == 1)
    }
}

/// The value encoded by a most-significant-first bit sequence.
pub open spec fn bits_value(s: Seq<bool>) -> nat
    decreases s.len(),
{
    if s.len() == 0 {
        0
    } else {
        2 * bits_value(s.drop_last()) + (if s.last() {
            1nat
        } else {
            0nat
        })
    }
}

pub proof fn lemma_unsigned_bits_len(v: nat, width: nat)
    ensures
        unsigned_bits(v, width).len() == width,
    decreases width,
{
    if width > 0 {
        lemma_unsigned_bits_len(v / 2, (width - 1) as nat);
    }
}

/// Decoding undoes encoding, up to reduction modulo `pow2(width)`.
pub proof fn lemma_bits_value_of_unsigned_bits(v: nat, width: nat)
    ensures
        bits_value(unsigned_bits(v, width)) == v % pow2(width),
    decreases width,
{
    if width == 0 {
        assert(pow2(0) == 1) by {
            vstd::arithmetic::power2::lemma2_to64();
        }
    } else {
        let prev = unsigned_bits(v / 2, (width - 1) as nat);
        lemma_unsigned_bits_len(v / 2, (width - 1) as nat);
        let s = unsigned_bits(v, width);
        assert(s.drop_last() == prev);
        lemma_bits_value_of_unsigned_bits(v / 2, (width - 1) as nat);
        lemma_pow2_unfold(width);
        lemma_pow2_pos((width - 1) as nat);
        let p = pow2((width - 1) as nat);
        // v % (2 * p) == 2 * ((v / 2) % p) + v % 2
        lemma_fundamental_div_mod(v as int, 2);
        lemma_fundamental_div_mod((v / 2) as int, p as int);
        let q = (v / 2) / p;
        let r = (v / 2) % p;
        assert(v == 2 * p * q + (2 * r + v % 2)) by (nonlinear_arith)
            requires
                v == 2 * (v / 2) + v % 2,
                v / 2 == p * q + r,
        ;
        lemma_fundamental_div_mod_converse(v as int, (2 * p) as int, q as int, (2 * r + v % 2) as int);
    }
}

/// A decoded value is below `pow2` of the number of bits.
pub proof fn lemma_bits_value_bound(s: Seq<bool>)
    ensures
        bits_value(s) < pow2(s.len()),
    decreases s.len(),
{
    if s.len() == 0 {
        assert(pow2(0) == 1) by {
            vstd::arithmetic::power2::lemma2_to64();
        }
    } else {
        lemma_bits_value_bound(s.drop_last());
        lemma_pow2_unfold(s.len());
    }
}

/// Encoding undoes decoding: a bit sequence is recovered from its value.
pub proof fn lemma_unsigned_bits_of_bits_value(s: Seq<bool>)
    ensures
        unsigned_bits(bits_value(s), s.len()) == s,
    decreases s.len(),
{
    if s.len() > 0 {
        let v = bits_value(s);
        let last = if s.last() {
            1nat
        } else {
            0nat
        };
        assert(v == 2 * bits_value(s.drop_last()) + last);
        assert(v / 2 == bits_value(s.drop_last()) && v % 2 == last) by (nonlinear_arith)
            requires
                v == 2 * bits_value(s.drop_last()) + last,
                last < 2,
        ;
        lemma_unsigned_bits_of_bits_value(s.drop_last());
        assert(unsigned_bits(v, s.len()) == s.drop_last().push(s.last()));
        assert(s.drop_last().push(s.last()) == s);
    }
}

/// The bit of weight `pow2(i)` in `v`.
pub open spec fn bit_of(v: nat, i: nat) -> bool {
    v / pow2(i) % 2 == 1
}

pub proof fn lemma_unsigned_bits_index(v: nat, width: nat, j: int)
    requires
        0 <= j < width,
    ensures
        unsigned_bits(v, width).len() == width,
        unsigned_bits(v, width)[j] == bit_of(v, (width - 1 - j) as nat),
    decreases width,
{
    lemma_unsigned_bits_len(v, width);
    lemma_unsigned_bits_len(v / 2, (width - 1) as nat);
    if j == width - 1 {
        assert(pow2(0) == 1) by {
            vstd::arithmetic::power2::lemma2_to64();
        }
        assert(unsigned_bits(v, width)[j] == (v % 2 == 1));
        assert(v / pow2(0) == v) by {
            vstd::arithmetic::div_mod::lemma_div_basics(v as int);
        }
    } else {
        lemma_unsigned_bits_index(v / 2, (width - 1) as nat, j);
        let i = (width - 1 - j) as nat;
        lemma_pow2_unfold(i);
        lemma_pow2_pos((i - 1) as nat);
        let p = pow2((i - 1) as nat);
        assert((v / 2) / p == v / (2 * p)) by {
            vstd::arithmetic::div_mod::lemma_div_denominator(v as int, 2, p as int);
        }
        assert(unsigned_bits(v, width)[j] == unsigned_bits(v / 2, (width - 1) as nat)[j]);
    }
}

/// The magnitude stored in the seven value bits of a boolean octet.
pub open spec fn octet_mag(u: u8) -> nat {
    if u < 128 {
        u as nat
    } else {
        (255 - u) as nat
    }
}

/// The eight stream bits of one byte: seven magnitude bits, most significant
/// first, then the sign bit, which is set exactly when the byte, read as a
/// signed byte, is not negative.
pub open spec fn octet_bits(u: u8) -> Seq<bool> {
    unsigned_bits(octet_mag(u), 7).push(u < 128)
}

/// The byte encoded by eight stream bits.
pub open spec fn octet_value(s: Seq<bool>) -> u8 {
    if s[7] {
        bits_value(s.take(7)) as u8
    } else {
        (255 - bits_value(s.take(7))) as u8
    }
}

pub proof fn lemma_octet_bits_len(u: u8)
    ensures
        octet_bits(u).len() == 8,
{
    lemma_unsigned_bits_len(octet_mag(u), 7);
}

pub proof fn lemma_octet_value_of_octet_bits(u: u8)
    ensures
        octet_value(octet_bits(u)) == u,
{
    let mag = octet_mag(u);
    lemma_unsigned_bits_len(mag, 7);
    lemma_bits_value_of_unsigned_bits(mag, 7);
    assert(pow2(7) == 128) by {
        vstd::arithmetic::power2::lemma2_to64();
    }
    assert(octet_bits(u).take(7) == unsigned_bits(mag, 7));
    assert(mag % 128 == mag);
}

pub proof fn lemma_octet_bits_of_octet_value(s: Seq<bool>)
    requires
        s.len() == 8,
    ensures
        octet_bits(octet_value(s)) == s,
{
    let t = s.take(7);
    lemma_bits_value_bound(t);
    assert(pow2(7) == 128) by {
        vstd::arithmetic::power2::lemma2_to64();
    }
    let u = octet_value(s);
    assert(octet_mag(u) == bits_value(t));
    lemma_unsigned_bits_of_bits_value(t);
    assert((u < 128) == s[7]);
    assert(octet_bits(u) == t.push(s[7]));
    assert(t.push(s[7]) == s);
}

/// The stream bits of the `nbytes` low bytes of `v`, least significant byte
/// first; each byte contributes its octet bits.
pub open spec fn le_bits(v: nat, nbytes: nat) -> Seq<bool>
    decreases nbytes,
{
    if nbytes == 0 {
        Seq::empty()
    } else {
        octet_bits((v % 256) as u8) + le_bits(v / 256, (nbytes - 1) as nat)
    }
}

/// The value encoded by `8 * nbytes` stream bits, least significant byte first.
pub open spec fn le_value(s: Seq<bool>, nbytes: nat) -> nat
    decreases nbytes,
{
    if nbytes == 0 {
        0
    } else {
        octet_value(s.take(8)) as nat + 256 * le_value(s.skip(8), (nbytes - 1) as nat)
    }
}

pub proof fn lemma_le_bits_len(v: nat, nbytes: nat)
    ensures
        le_bits(v, nbytes).len() == 8 * nbytes,
    decreases nbytes,
{
    if nbytes > 0 {
        lemma_octet_bits_len((v % 256) as u8);
        lemma_le_bits_len(v / 256, (nbytes - 1) as nat);
    }
}

pub proof fn lemma_le_value_of_le_bits(v: nat, nbytes: nat)
    ensures
        le_value(le_bits(v, nbytes), nbytes) == v % pow2(8 * nbytes),
    decreases nbytes,
{
    if nbytes == 0 {
        assert(pow2(0) == 1) by {
            vstd::arithmetic::power2::lemma2_to64();
        }
    } else {
        let lo = (v % 256) as u8;
        let s = le_bits(v, nbytes);
        lemma_octet_bits_len(lo);
        lemma_le_bits_len(v / 256, (nbytes - 1) as nat);
        assert(s.take(8) == octet_bits(lo));
        assert(s.skip(8) == le_bits(v / 256, (nbytes - 1) as nat));
        lemma_octet_value_of_octet_bits(lo);
        lemma_le_value_of_le_bits(v / 256, (nbytes - 1) as nat);
        let p = pow2((8 * (nbytes - 1)) as nat);
        assert(pow2(8) == 256) by {
            vstd::arithmetic::power2::lemma2_to64();
        }
        assert(pow2(8 * nbytes) == 256 * p) by {
            lemma_pow2_adds(8, (8 * (nbytes - 1)) as nat);
        }
        lemma_pow2_pos((8 * (nbytes - 1)) as nat);
        lemma_fundamental_div_mod(v as int, 256);
        lemma_fundamental_div_mod((v / 256) as int, p as int);
        let q = (v / 256) / p;
        let r = (v / 256) % p;
        assert(v == 256 * p * q + (v % 256 + 256 * r)) by (nonlinear_arith)
            requires
                v == 256 * (v / 256) + v % 256,
                v / 256 == p * q + r,
        ;
        assert(v % 256 + 256 * r < 256 * p) by (nonlinear_arith)
            requires
                v % 256 < 256,
                r < p,
        ;
        lemma_fundamental_div_mod_converse(
            v as int,
            (256 * p) as int,
            q as int,
            (v % 256 + 256 * r) as int,
        );
    }
}

/// How many bits are needed to store `v`: the least `k` with `pow2(k) > v`.
pub open spec fn required_bits(v: nat) -> nat
    decreases v,
{
    if v == 0 {
        0
    } else {
        required_bits(v / 2) + 1
    }
}

pub proof fn lemma_required_bits_bounds(v: nat)
    ensures
        v < pow2(required_bits(v)),
        v > 0 ==> pow2((required_bits(v) - 1) as nat) <= v,
    decreases v,
{
    if v == 0 {
        assert(pow2(0) == 1) by {
            vstd::arithmetic::power2::lemma2_to64();
        }
    } else {
        lemma_required_bits_bounds(v / 2);
        let k = required_bits(v / 2);
        lemma_pow2_unfold(k + 1);
        if v / 2 > 0 {
            lemma_pow2_unfold(k);
        } else {
            assert(pow2(0) == 1) by {
                vstd::arithmetic::power2::lemma2_to64();
            }
        }
    }
}

pub proof fn lemma_required_bits_u64(v: u64)
    ensures
        required_bits(v as nat) <= 64,
{
    if required_bits(v as nat) > 64 {
        lemma_required_bits_bounds(v as nat);
        let k = required_bits(v as nat);
        assert(pow2(64) <= pow2((k - 1) as nat)) by {
            if k - 1 > 64 {
                lemma_pow2_strictly_increases(64, (k - 1) as nat);
            }
        }
        assert(pow2(64) == 0x10000000000000000) by {
            vstd::arithmetic::power2::lemma2_to64_rest();
        }
    }
}

/// The stream bits of a value stored in a caller-chosen number of bits.
pub open spec fn sized_u64_bits(v: u64, bits: nat) -> Seq<bool> {
    unsigned_bits(v as nat, bits)
}

/// The magnitude stored for a signed value: the value itself when it is not
/// negative, and `-value - 1` otherwise, so that every bit pattern decodes
/// to exactly one value.
pub open spec fn signed_mag(v: i64) -> nat {
    if v >= 0 {
        v as nat
    } else {
        (-(v as int) - 1) as nat
    }
}

/// The stream bits of a signed value stored in a caller-chosen number of
/// bits: a sign bit, set exactly when the value is not negative, then the
/// magnitude in the remaining bits, most significant first.
pub open spec fn sized_i64_bits(v: i64, bits: nat) -> Seq<bool>
    recommends
        bits >= 1,
{
    seq![v >= 0] + unsigned_bits(signed_mag(v), (bits - 1) as nat)
}

/// The signed value encoded by a sign bit followed by magnitude bits.
pub open spec fn sized_i64_value(s: Seq<bool>) -> i64
    recommends
        s.len() >= 1,
{
    if s[0] {
        bits_value(s.skip(1)) as i64
    } else {
        (-(bits_value(s.skip(1)) as int) - 1) as i64
    }
}

/// The stream bits of a self-describing unsigned value: a six-bit count of
/// the payload bits, less one, then the payload itself. A zero value still
/// carries one payload bit.
pub open spec fn var_u64_bits(v: u64) -> Seq<bool> {
    if v == 0 {
        unsigned_bits(0, 6) + seq![false]
    } else {
        unsigned_bits((required_bits(v as nat) - 1) as nat, 6) + unsigned_bits(
            v as nat,
            required_bits(v as nat),
        )
    }
}


/// The value of seven bits, written out with its weights.
pub proof fn lemma_bits_value_7(s: Seq<bool>)
    requires
        s.len() == 7,
    ensures
        bits_value(s) == (if s[0] { 64nat } else { 0nat }) + (if s[1] { 32nat } else { 0nat })
            + (if s[2] { 16nat } else { 0nat }) + (if s[3] { 8nat } else { 0nat }) + (if s[4] {
            4nat
        } else {
            0nat
        }) + (if s[5] { 2nat } else { 0nat }) + (if s[6] { 1nat } else { 0nat }),
{
    let s6 = s.drop_last();
    let s5 = s6.drop_last();
    let s4 = s5.drop_last();
    let s3 = s4.drop_last();
    let s2 = s3.drop_last();
    let s1 = s2.drop_last();
    let s0 = s1.drop_last();
    assert(bits_value(s0) == 0);
    assert(bits_value(s1) == 2 * bits_value(s0) + (if s[0] { 1nat } else { 0nat }));
    assert(bits_value(s2) == 2 * bits_value(s1) + (if s[1] { 1nat } else { 0nat }));
    assert(bits_value(s3) == 2 * bits_value(s2) + (if s[2] { 1nat } else { 0nat }));
    assert(bits_value(s4) == 2 * bits_value(s3) + (if s[3] { 1nat } else { 0nat }));
    assert(bits_value(s5) == 2 * bits_value(s4) + (if s[4] { 1nat } else { 0nat }));
    assert(bits_value(s6) == 2 * bits_value(s5) + (if s[5] { 1nat } else { 0nat }));
    assert(bits_value(s) == 2 * bits_value(s6) + (if s[6] { 1nat } else { 0nat }));
}

/// The value of eight bits, written out with its weights.
pub proof fn lemma_bits_value_8(s: Seq<bool>)
    requires
        s.len() == 8,
    ensures
        bits_value(s) == (if s[0] { 128nat } else { 0nat }) + (if s[1] { 64nat } else { 0nat })
            + (if s[2] { 32nat } else { 0nat }) + (if s[3] { 16nat } else { 0nat }) + (if s[4] {
            8nat
        } else {
            0nat
        }) + (if s[5] { 4nat } else { 0nat }) + (if s[6] { 2nat } else { 0nat }) + (if s[7] {
            1nat
        } else {
            0nat
        }),
{
    let s7 = s.drop_last();
    lemma_bits_value_7(s7);
    assert(bits_value(s) == 2 * bits_value(s7) + (if s[7] { 1nat } else { 0nat }));
}

/// How the bit of weight `pow2(k)` shows up in the residues of `v`.
pub proof fn lemma_bit_threshold(v: nat, k: nat)
    ensures
        bit_of(v, k) <==> v % pow2(k + 1) >= pow2(k),
        v % pow2(k + 1) >= pow2(k) ==> v % pow2(k + 1) - pow2(k) == v % pow2(k),
        v % pow2(k + 1) < pow2(k) ==> v % pow2(k + 1) == v % pow2(k),
        v % pow2(k + 1) < pow2(k + 1),
        v < pow2(k + 1) ==> v % pow2(k + 1) == v,
{
    lemma_pow2_pos(k);
    lemma_pow2_unfold(k + 1);
    let p = pow2(k) as int;
    vstd::arithmetic::div_mod::lemma_mod_breakdown(v as int, p, 2);
    assert(v as int % (p * 2) == p * ((v as int / p) % 2) + v as int % p);
    vstd::arithmetic::div_mod::lemma_mod_bound(v as int, p);
    vstd::arithmetic::div_mod::lemma_mod_bound(v as int / p, 2);
    vstd::arithmetic::div_mod::lemma_mod_bound(v as int, p * 2);
    assert(pow2(k + 1) == p * 2);
    assert(v % pow2(k + 1) == v as int % (p * 2));
    assert(bit_of(v, k) == ((v as int / p) % 2 == 1));
    if (v as int / p) % 2 == 1 {
        assert(v as int % (p * 2) == p + v as int % p);
    } else {
        assert(v as int % (p * 2) == v as int % p);
    }
    if v < pow2(k + 1) {
        vstd::arithmetic::div_mod::lemma_small_mod(v, pow2(k + 1));
    }
}

/// How a signed byte reads as an unsigned byte.
pub proof fn lemma_i8_as_u8(b: i8)
    ensures
        b >= 0 ==> (b as u8) as int == b as int,
        b < 0 ==> (b as u8) as int == b as int + 256,
{
    assert((b >= 0 ==> (b as u8) as int == b as int) && (b < 0 ==> (b as u8) as int == b as int
        + 256)) by (bit_vector);
}

/// Reinterpreting a byte as signed and back preserves the bit pattern.
pub proof fn lemma_cast_u8_identity(x: u8)
    ensures
        ((x as i8) as u8) == x,
{
    assert(((x as i8) as u8) == x) by (bit_vector);
}

pub proof fn lemma_cast_u16_identity(x: u16)
    ensures
        ((x as i16) as u16) == x,
{
    assert(((x as i16) as u16) == x) by (bit_vector);
}

pub proof fn lemma_cast_u32_identity(x: u32)
    ensures
        ((x as i32) as u32) == x,
{
    assert(((x as i32) as u32) == x) by (bit_vector);
}

pub proof fn lemma_cast_u64_identity(x: u64)
    ensures
        ((x as i64) as u64) == x,
{
    assert(((x as i64) as u64) == x) by (bit_vector);
}


/// Casting a signed integer to its unsigned twin and back preserves it.
pub proof fn lemma_cast_i8_identity(x: i8)
    ensures
        ((x as u8) as i8) == x,
{
    assert(((x as u8) as i8) == x) by (bit_vector);
}

pub proof fn lemma_cast_i16_identity(x: i16)
    ensures
        ((x as u16) as i16) == x,
{
    assert(((x as u16) as i16) == x) by (bit_vector);
}

pub proof fn lemma_cast_i32_identity(x: i32)
    ensures
        ((x as u32) as i32) == x,
{
    assert(((x as u32) as i32) == x) by (bit_vector);
}

pub proof fn lemma_cast_i64_identity(x: i64)
    ensures
        ((x as u64) as i64) == x,
{
    assert(((x as u64) as i64) == x) by (bit_vector);
}

/// The stream bits of one `i8` value.
pub open spec fn i8_bits(v: i8) -> Seq<bool> {
    octet_bits(v as u8)
}

/// The `i8` value encoded by 8 stream bits.
pub open spec fn i8_of_bits(s: Seq<bool>) -> i8 {
    octet_value(s) as i8
}

/// The stream bits of one `u8` value.
pub open spec fn u8_bits(v: u8) -> Seq<bool> {
    octet_bits(v)
}

/// The `u8` value encoded by 8 stream bits.
pub open spec fn u8_of_bits(s: Seq<bool>) -> u8 {
    octet_value(s)
}

/// The stream bits of one `i16` value.
pub open spec fn i16_bits(v: i16) -> Seq<bool> {
    le_bits((v as u16) as nat, 2)
}

/// The `i16` value encoded by 16 stream bits.
pub open spec fn i16_of_bits(s: Seq<bool>) -> i16 {
    (le_value(s, 2) as u16) as i16
}

/// The stream bits of one `u16` value.
pub open spec fn u16_bits(v: u16) -> Seq<bool> {
    le_bits(v as nat, 2)
}

/// The `u16` value encoded by 16 stream bits.
pub open spec fn u16_of_bits(s: Seq<bool>) -> u16 {
    le_value(s, 2) as u16
}

/// The stream bits of one `i32` value.
pub open spec fn i32_bits(v: i32) -> Seq<bool> {
    le_bits((v as u32) as nat, 4)
}

/// The `i32` value encoded by 32 stream bits.
pub open spec fn i32_of_bits(s: Seq<bool>) -> i32 {
    (le_value(s, 4) as u32) as i32
}

/// The stream bits of one `u32` value.
pub open spec fn u32_bits(v: u32) -> Seq<bool> {
    le_bits(v as nat, 4)
}

/// The `u32` value encoded by 32 stream bits.
pub open spec fn u32_of_bits(s: Seq<bool>) -> u32 {
    le_value(s, 4) as u32
}

/// The stream bits of one `i64` value.
pub open spec fn i64_bits(v: i64) -> Seq<bool> {
    le_bits((v as u64) as nat, 8)
}

/// The `i64` value encoded by 64 stream bits.
pub open spec fn i64_of_bits(s: Seq<bool>) -> i64 {
    (le_value(s, 8) as u64) as i64
}

/// The stream bits of one `u64` value.
pub open spec fn u64_bits(v: u64) -> Seq<bool> {
    le_bits(v as nat, 8)
}

/// The `u64` value encoded by 64 stream bits.
pub open spec fn u64_of_bits(s: Seq<bool>) -> u64 {
    le_value(s, 8) as u64
}

pub proof fn lemma_width_bits_len()
    ensures
        forall|v: i8| (#[trigger] i8_bits(v)).len() == 8,
        forall|v: u8| (#[trigger] u8_bits(v)).len() == 8,
        forall|v: i16| (#[trigger] i16_bits(v)).len() == 16,
        forall|v: u16| (#[trigger] u16_bits(v)).len() == 16,
        forall|v: i32| (#[trigger] i32_bits(v)).len() == 32,
        forall|v: u32| (#[trigger] u32_bits(v)).len() == 32,
        forall|v: i64| (#[trigger] i64_bits(v)).len() == 64,
        forall|v: u64| (#[trigger] u64_bits(v)).len() == 64,
{
    assert forall|v: i8| (#[trigger] i8_bits(v)).len() == 8 by {
        lemma_octet_bits_len(v as u8);
    }
    assert forall|v: u8| (#[trigger] u8_bits(v)).len() == 8 by {
        lemma_octet_bits_len(v);
    }
    assert forall|v: i16| (#[trigger] i16_bits(v)).len() == 16 by {
        lemma_le_bits_len((v as u16) as nat, 2);
    }
    assert forall|v: u16| (#[trigger] u16_bits(v)).len() == 16 by {
        lemma_le_bits_len(v as nat, 2);
    }
    assert forall|v: i32| (#[trigger] i32_bits(v)).len() == 32 by {
        lemma_le_bits_len((v as u32) as nat, 4);
    }
    assert forall|v: u32| (#[trigger] u32_bits(v)).len() == 32 by {
        lemma_le_bits_len(v as nat, 4);
    }
    assert forall|v: i64| (#[trigger] i64_bits(v)).len() == 64 by {
        lemma_le_bits_len((v as u64) as nat, 8);
    }
    assert forall|v: u64| (#[trigger] u64_bits(v)).len() == 64 by {
        lemma_le_bits_len(v as nat, 8);
    }
}

pub proof fn lemma_le_bits_2(v: nat)
    ensures
        le_bits(v, 2) == octet_bits((v % 256) as u8) + octet_bits((v / 256 % 256) as u8),
{
    reveal_with_fuel(le_bits, 4);
    assert(le_bits(v / 256, 1) == octet_bits((v / 256 % 256) as u8) + le_bits(v / 65536, 0));
    assert(octet_bits((v / 256 % 256) as u8) + Seq::<bool>::empty() =~= octet_bits(
        (v / 256 % 256) as u8,
    ));
}

pub proof fn lemma_le_bits_4(v: nat)
    ensures
        le_bits(v, 4) == octet_bits((v % 256) as u8) + (octet_bits((v / 256 % 256) as u8)
            + (octet_bits((v / 65536 % 256) as u8) + octet_bits((v / 16777216 % 256) as u8))),
{
    reveal_with_fuel(le_bits, 6);
    vstd::arithmetic::div_mod::lemma_div_denominator(v as int, 256, 256);
    vstd::arithmetic::div_mod::lemma_div_denominator(v as int, 65536, 256);
    assert((v / 256) / 256 == v / 65536);
    assert((v / 65536) / 256 == v / 16777216);
    lemma_le_bits_2(v / 65536);
    assert(le_bits(v, 4) == octet_bits((v % 256) as u8) + (octet_bits((v / 256 % 256) as u8)
        + le_bits(v / 65536, 2)));
}

pub proof fn lemma_le_bits_8(v: nat)
    ensures
        le_bits(v, 8) == octet_bits((v % 256) as u8) + (octet_bits((v / 256 % 256) as u8)
            + (octet_bits((v / 65536 % 256) as u8) + (octet_bits((v / 16777216 % 256) as u8)
            + (octet_bits((v / 4294967296 % 256) as u8) + (octet_bits(
            (v / 1099511627776 % 256) as u8,
        ) + (octet_bits((v / 281474976710656 % 256) as u8) + octet_bits(
            (v / 72057594037927936 % 256) as u8,
        ))))))),
{
    reveal_with_fuel(le_bits, 10);
    vstd::arithmetic::div_mod::lemma_div_denominator(v as int, 256, 256);
    vstd::arithmetic::div_mod::lemma_div_denominator(v as int, 65536, 256);
    vstd::arithmetic::div_mod::lemma_div_denominator(v as int, 16777216, 256);
    vstd::arithmetic::div_mod::lemma_div_denominator(v as int, 4294967296, 256);
    vstd::arithmetic::div_mod::lemma_div_denominator(v as int, 1099511627776, 256);
    vstd::arithmetic::div_mod::lemma_div_denominator(v as int, 281474976710656, 256);
    assert((v / 256) / 256 == v / 65536);
    assert((v / 65536) / 256 == v / 16777216);
    assert((v / 16777216) / 256 == v / 4294967296);
    assert((v / 4294967296) / 256 == v / 1099511627776);
    assert((v / 1099511627776) / 256 == v / 281474976710656);
    assert((v / 281474976710656) / 256 == v / 72057594037927936);
    lemma_le_bits_4(v / 4294967296);
    assert(le_bits(v, 8) == octet_bits((v % 256) as u8) + (octet_bits((v / 256 % 256) as u8)
        + (octet_bits((v / 65536 % 256) as u8) + (octet_bits((v / 16777216 % 256) as u8)
        + le_bits(v / 4294967296, 4)))));
}

pub proof fn lemma_le_value_2(s: Seq<bool>)
    requires
        s.len() == 16,
    ensures
        le_value(s, 2) == octet_value(s.subrange(0, 8)) as nat + 256 * (octet_value(
            s.subrange(8, 16),
        ) as nat),
{
    reveal_with_fuel(le_value, 4);
    assert(s.take(8) =~= s.subrange(0, 8));
    assert(s.skip(8).take(8) =~= s.subrange(8, 16));
    assert(s.skip(8).skip(8) =~= s.subrange(16, 16));
    assert(le_value(s.skip(8), 1) == octet_value(s.skip(8).take(8)) as nat + 256 * le_value(
        s.skip(8).skip(8),
        0,
    ));
}

pub proof fn lemma_le_value_4(s: Seq<bool>)
    requires
        s.len() == 32,
    ensures
        le_value(s, 4) == octet_value(s.subrange(0, 8)) as nat + 256 * (octet_value(
            s.subrange(8, 16),
        ) as nat) + 65536 * (octet_value(s.subrange(16, 24)) as nat) + 16777216 * (octet_value(
            s.subrange(24, 32),
        ) as nat),
{
    reveal_with_fuel(le_value, 6);
    assert(s.take(8) =~= s.subrange(0, 8));
    assert(s.skip(8) =~= s.subrange(8, 32));
    lemma_le_value_2(s.subrange(8, 32).skip(8));
    assert(s.subrange(8, 32).take(8) =~= s.subrange(8, 16));
    assert(s.subrange(8, 32).skip(8) =~= s.subrange(16, 32));
    assert(s.subrange(16, 32).subrange(0, 8) =~= s.subrange(16, 24));
    assert(s.subrange(16, 32).subrange(8, 16) =~= s.subrange(24, 32));
    assert(le_value(s.subrange(8, 32), 3) == octet_value(s.subrange(8, 16)) as nat + 256
        * le_value(s.subrange(16, 32), 2));
    assert(le_value(s.subrange(16, 32), 2) == octet_value(s.subrange(16, 24)) as nat + 256
        * (octet_value(s.subrange(24, 32)) as nat)) by {
        assert(s.subrange(16, 32).take(8) =~= s.subrange(16, 24));
        assert(s.subrange(16, 32).skip(8).take(8) =~= s.subrange(24, 32));
        assert(le_value(s.subrange(16, 32).skip(8), 1) == octet_value(
            s.subrange(16, 32).skip(8).take(8),
        ) as nat + 256 * le_value(s.subrange(16, 32).skip(8).skip(8), 0));
    }
}

/// Round trip, fixed width: decoding the bits of a value gives it back.
pub proof fn lemma_u16_round_trip(v: u16)
    ensures
        u16_of_bits(u16_bits(v)) == v,
{
    lemma_le_value_of_le_bits(v as nat, 2);
    assert(pow2(16) == 65536) by {
        vstd::arithmetic::power2::lemma2_to64();
    }
    vstd::arithmetic::div_mod::lemma_small_mod(v as nat, 65536);
}

pub proof fn lemma_i16_round_trip(v: i16)
    ensures
        i16_of_bits(i16_bits(v)) == v,
{
    lemma_u16_round_trip(v as u16);
    lemma_cast_i16_identity(v);
}

pub proof fn lemma_u32_round_trip(v: u32)
    ensures
        u32_of_bits(u32_bits(v)) == v,
{
    lemma_le_value_of_le_bits(v as nat, 4);
    assert(pow2(32) == 0x100000000) by {
        vstd::arithmetic::power2::lemma2_to64();
    }
    vstd::arithmetic::div_mod::lemma_small_mod(v as nat, 0x100000000);
}

pub proof fn lemma_i32_round_trip(v: i32)
    ensures
        i32_of_bits(i32_bits(v)) == v,
{
    lemma_u32_round_trip(v as u32);
    lemma_cast_i32_identity(v);
}

pub proof fn lemma_u64_round_trip(v: u64)
    ensures
        u64_of_bits(u64_bits(v)) == v,
{
    lemma_le_value_of_le_bits(v as nat, 8);
    assert(pow2(64) == 0x10000000000000000) by {
        vstd::arithmetic::power2::lemma2_to64();
    }
    vstd::arithmetic::div_mod::lemma_small_mod(v as nat, 0x10000000000000000);
}

pub proof fn lemma_i64_round_trip(v: i64)
    ensures
        i64_of_bits(i64_bits(v)) == v,
{
    lemma_u64_round_trip(v as u64);
    lemma_cast_i64_identity(v);
}

pub proof fn lemma_u8_round_trip(v: u8)
    ensures
        u8_of_bits(u8_bits(v)) == v,
{
    lemma_octet_value_of_octet_bits(v);
}

pub proof fn lemma_i8_round_trip(v: i8)
    ensures
        i8_of_bits(i8_bits(v)) == v,
{
    lemma_octet_value_of_octet_bits(v as u8);
    lemma_cast_i8_identity(v);
}

/// The stream bits of a sequence of `i8` values, in order.
pub open spec fn i8_seq_bits(s: Seq<i8>) -> Seq<bool>
    decreases s.len(),
{
    if s.len() == 0 {
        Seq::empty()
    } else {
        i8_bits(s[0]) + i8_seq_bits(s.drop_first())
    }
}

pub proof fn lemma_i8_seq_bits_push(s: Seq<i8>, x: i8)
    ensures
        i8_seq_bits(s.push(x)) == i8_seq_bits(s) + i8_bits(x),
    decreases s.len(),
{
    reveal_with_fuel(i8_seq_bits, 3);
    if s.len() == 0 {
        assert(s.push(x).drop_first() =~= Seq::<i8>::empty());
        assert(s.push(x)[0] == x);
        assert(i8_seq_bits(s.push(x)) =~= i8_seq_bits(s) + i8_bits(x));
    } else {
        assert(s.push(x).drop_first() =~= s.drop_first().push(x));
        lemma_i8_seq_bits_push(s.drop_first(), x);
        assert(s.push(x)[0] == s[0]);
        assert(i8_seq_bits(s.push(x)) =~= i8_seq_bits(s) + i8_bits(x));
    }
}

/// The stream bits of a sequence of `u8` values, in order.
pub open spec fn u8_seq_bits(s: Seq<u8>) -> Seq<bool>
    decreases s.len(),
{
    if s.len() == 0 {
        Seq::empty()
    } else {
        u8_bits(s[0]) + u8_seq_bits(s.drop_first())
    }
}

pub proof fn lemma_u8_seq_bits_push(s: Seq<u8>, x: u8)
    ensures
        u8_seq_bits(s.push(x)) == u8_seq_bits(s) + u8_bits(x),
    decreases s.len(),
{
    reveal_with_fuel(u8_seq_bits, 3);
    if s.len() == 0 {
        assert(s.push(x).drop_first() =~= Seq::<u8>::empty());
        assert(s.push(x)[0] == x);
        assert(u8_seq_bits(s.push(x)) =~= u8_seq_bits(s) + u8_bits(x));
    } else {
        assert(s.push(x).drop_first() =~= s.drop_first().push(x));
        lemma_u8_seq_bits_push(s.drop_first(), x);
        assert(s.push(x)[0] == s[0]);
        assert(u8_seq_bits(s.push(x)) =~= u8_seq_bits(s) + u8_bits(x));
    }
}

/// The stream bits of a sequence of `i16` values, in order.
pub open spec fn i16_seq_bits(s: Seq<i16>) -> Seq<bool>
    decreases s.len(),
{
    if s.len() == 0 {
        Seq::empty()
    } else {
        i16_bits(s[0]) + i16_seq_bits(s.drop_first())
    }
}

pub proof fn lemma_i16_seq_bits_push(s: Seq<i16>, x: i16)
    ensures
        i16_seq_bits(s.push(x)) == i16_seq_bits(s) + i16_bits(x),
    decreases s.len(),
{
    reveal_with_fuel(i16_seq_bits, 3);
    if s.len() == 0 {
        assert(s.push(x).drop_first() =~= Seq::<i16>::empty());
        assert(s.push(x)[0] == x);
        assert(i16_seq_bits(s.push(x)) =~= i16_seq_bits(s) + i16_bits(x));
    } else {
        assert(s.push(x).drop_first() =~= s.drop_first().push(x));
        lemma_i16_seq_bits_push(s.drop_first(), x);
        assert(s.push(x)[0] == s[0]);
        assert(i16_seq_bits(s.push(x)) =~= i16_seq_bits(s) + i16_bits(x));
    }
}

/// The stream bits of a sequence of `u16` values, in order.
pub open spec fn u16_seq_bits(s: Seq<u16>) -> Seq<bool>
    decreases s.len(),
{
    if s.len() == 0 {
        Seq::empty()
    } else {
        u16_bits(s[0]) + u16_seq_bits(s.drop_first())
    }
}

pub proof fn lemma_u16_seq_bits_push(s: Seq<u16>, x: u16)
    ensures
        u16_seq_bits(s.push(x)) == u16_seq_bits(s) + u16_bits(x),
    decreases s.len(),
{
    reveal_with_fuel(u16_seq_bits, 3);
    if s.len() == 0 {
        assert(s.push(x).drop_first() =~= Seq::<u16>::empty());
        assert(s.push(x)[0] == x);
        assert(u16_seq_bits(s.push(x)) =~= u16_seq_bits(s) + u16_bits(x));
    } else {
        assert(s.push(x).drop_first() =~= s.drop_first().push(x));
        lemma_u16_seq_bits_push(s.drop_first(), x);
        assert(s.push(x)[0] == s[0]);
        assert(u16_seq_bits(s.push(x)) =~= u16_seq_bits(s) + u16_bits(x));
    }
}

/// The stream bits of a sequence of `i32` values, in order.
pub open spec fn i32_seq_bits(s: Seq<i32>) -> Seq<bool>
    decreases s.len(),
{
    if s.len() == 0 {
        Seq::empty()
    } else {
        i32_bits(s[0]) + i32_seq_bits(s.drop_first())
    }
}

pub proof fn lemma_i32_seq_bits_push(s: Seq<i32>, x: i32)
    ensures
        i32_seq_bits(s.push(x)) == i32_seq_bits(s) + i32_bits(x),
    decreases s.len(),
{
    reveal_with_fuel(i32_seq_bits, 3);
    if s.len() == 0 {
        assert(s.push(x).drop_first() =~= Seq::<i32>::empty());
        assert(s.push(x)[0] == x);
        assert(i32_seq_bits(s.push(x)) =~= i32_seq_bits(s) + i32_bits(x));
    } else {
        assert(s.push(x).drop_first() =~= s.drop_first().push(x));
        lemma_i32_seq_bits_push(s.drop_first(), x);
        assert(s.push(x)[0] == s[0]);
        assert(i32_seq_bits(s.push(x)) =~= i32_seq_bits(s) + i32_bits(x));
    }
}

/// The stream bits of a sequence of `u32` values, in order.
pub open spec fn u32_seq_bits(s: Seq<u32>) -> Seq<bool>
    decreases s.len(),
{
    if s.len() == 0 {
        Seq::empty()
    } else {
        u32_bits(s[0]) + u32_seq_bits(s.drop_first())
    }
}

pub proof fn lemma_u32_seq_bits_push(s: Seq<u32>, x: u32)
    ensures
        u32_seq_bits(s.push(x)) == u32_seq_bits(s) + u32_bits(x),
    decreases s.len(),
{
    reveal_with_fuel(u32_seq_bits, 3);
    if s.len() == 0 {
        assert(s.push(x).drop_first() =~= Seq::<u32>::empty());
        assert(s.push(x)[0] == x);
        assert(u32_seq_bits(s.push(x)) =~= u32_seq_bits(s) + u32_bits(x));
    } else {
        assert(s.push(x).drop_first() =~= s.drop_first().push(x));
        lemma_u32_seq_bits_push(s.drop_first(), x);
        assert(s.push(x)[0] == s[0]);
        assert(u32_seq_bits(s.push(x)) =~= u32_seq_bits(s) + u32_bits(x));
    }
}


/// The two stream bytes of a 16-bit value.
pub proof fn lemma_u16_bits_bytes(u: u16)
    ensures
        u16_bits(u) == octet_bits((u % 256) as u8) + octet_bits((u / 256) as u8),
        i16_bits(u as i16) == u16_bits(u),
{
    lemma_le_bits_2(u as nat);
    vstd::arithmetic::div_mod::lemma_fundamental_div_mod(u as int, 256);
    vstd::arithmetic::div_mod::lemma_mod_bound(u as int, 256);
    vstd::arithmetic::div_mod::lemma_small_mod((u as nat) / 256, 256);
    lemma_cast_u16_identity(u);
}

/// The four stream bytes of a 32-bit value.
pub proof fn lemma_u32_bits_bytes(u: u32)
    ensures
        u32_bits(u) == octet_bits((u % 256) as u8) + (octet_bits((u / 256 % 256) as u8)
            + (octet_bits((u / 65536 % 256) as u8) + octet_bits((u / 16777216) as u8))),
        i32_bits(u as i32) == u32_bits(u),
{
    lemma_le_bits_4(u as nat);
    vstd::arithmetic::div_mod::lemma_fundamental_div_mod(u as int, 16777216);
    vstd::arithmetic::div_mod::lemma_mod_bound(u as int, 16777216);
    vstd::arithmetic::div_mod::lemma_small_mod((u as nat) / 16777216, 256);
    lemma_cast_u32_identity(u);
}

/// The eight stream bytes of a 64-bit value.
pub proof fn lemma_u64_bits_bytes(u: u64)
    ensures
        u64_bits(u) == octet_bits((u % 256) as u8) + (octet_bits((u / 256 % 256) as u8)
            + (octet_bits((u / 65536 % 256) as u8) + (octet_bits((u / 16777216 % 256) as u8)
            + (octet_bits((u / 4294967296 % 256) as u8) + (octet_bits(
            (u / 1099511627776 % 256) as u8,
        ) + (octet_bits((u / 281474976710656 % 256) as u8) + octet_bits(
            (u / 72057594037927936) as u8,
        ))))))),
        i64_bits(u as i64) == u64_bits(u),
{
    lemma_le_bits_8(u as nat);
    vstd::arithmetic::div_mod::lemma_fundamental_div_mod(u as int, 72057594037927936);
    vstd::arithmetic::div_mod::lemma_mod_bound(u as int, 72057594037927936);
    vstd::arithmetic::div_mod::lemma_small_mod((u as nat) / 72057594037927936, 256);
    lemma_cast_u64_identity(u);
}

pub proof fn lemma_required_bits_u16(v: u16)
    ensures
        required_bits(v as nat) <= 16,
{
    if required_bits(v as nat) > 16 {
        lemma_required_bits_bounds(v as nat);
        let k = required_bits(v as nat);
        assert(pow2(16) <= pow2((k - 1) as nat)) by {
            if k - 1 > 16 {
                lemma_pow2_strictly_increases(16, (k - 1) as nat);
            }
        }
        assert(pow2(16) == 65536) by {
            vstd::arithmetic::power2::lemma2_to64();
        }
    }
}

/// `required_bits` is pinned by its two bounds.
pub proof fn lemma_required_bits_is(v: nat, k: nat)
    requires
        v < pow2(k),
        k > 0 ==> pow2((k - 1) as nat) <= v,
    ensures
        required_bits(v) == k,
{
    lemma_required_bits_bounds(v);
    let m = required_bits(v);
    if k < m {
        assert(m > 0);
        assert(pow2(k) <= pow2((m - 1) as nat)) by {
            if k < m - 1 {
                lemma_pow2_strictly_increases(k, (m - 1) as nat);
            }
        }
        assert(v > 0) by {
            lemma_pow2_pos((m - 1) as nat);
        }
    }
    if k > m {
        assert(pow2(m) <= pow2((k - 1) as nat)) by {
            if m < k - 1 {
                lemma_pow2_strictly_increases(m, (k - 1) as nat);
            }
        }
    }
}


/// The `amount` values of `8` bits each that start at bit `pos` of `s`.
pub open spec fn i8_seq_of_bits(s: Seq<bool>, pos: nat, amount: nat) -> Seq<i8> {
    Seq::new(amount, |j: int| i8_of_bits(s.subrange(pos + 8 * j, pos + 8 * j + 8)))
}

/// The `amount` values of `8` bits each that start at bit `pos` of `s`.
pub open spec fn u8_seq_of_bits(s: Seq<bool>, pos: nat, amount: nat) -> Seq<u8> {
    Seq::new(amount, |j: int| u8_of_bits(s.subrange(pos + 8 * j, pos + 8 * j + 8)))
}

/// The `amount` values of `16` bits each that start at bit `pos` of `s`.
pub open spec fn i16_seq_of_bits(s: Seq<bool>, pos: nat, amount: nat) -> Seq<i16> {
    Seq::new(amount, |j: int| i16_of_bits(s.subrange(pos + 16 * j, pos + 16 * j + 16)))
}

/// The `amount` values of `16` bits each that start at bit `pos` of `s`.
pub open spec fn u16_seq_of_bits(s: Seq<bool>, pos: nat, amount: nat) -> Seq<u16> {
    Seq::new(amount, |j: int| u16_of_bits(s.subrange(pos + 16 * j, pos + 16 * j + 16)))
}

/// The `amount` values of `32` bits each that start at bit `pos` of `s`.
pub open spec fn i32_seq_of_bits(s: Seq<bool>, pos: nat, amount: nat) -> Seq<i32> {
    Seq::new(amount, |j: int| i32_of_bits(s.subrange(pos + 32 * j, pos + 32 * j + 32)))
}

/// The `amount` values of `32` bits each that start at bit `pos` of `s`.
pub open spec fn u32_seq_of_bits(s: Seq<bool>, pos: nat, amount: nat) -> Seq<u32> {
    Seq::new(amount, |j: int| u32_of_bits(s.subrange(pos + 32 * j, pos + 32 * j + 32)))
}


/// Division and remainder by eight inside one byte of the stream.
pub proof fn lemma_div8_range(k: int, b: int)
    requires
        8 * b <= k < 8 * b + 8,
    ensures
        k / 8 == b,
        k % 8 == k - 8 * b,
{
    vstd::arithmetic::div_mod::lemma_fundamental_div_mod_converse(k, 8, b, k - 8 * b);
}


/// The least code unit of a non-empty sequence.
pub open spec fn seq_u16_min(s: Seq<u16>) -> u16
    recommends
        s.len() > 0,
    decreases s.len(),
{
    if s.len() <= 1 {
        s[0]
    } else {
        let m = seq_u16_min(s.drop_last());
        if s.last() < m {
            s.last()
        } else {
            m
        }
    }
}

/// The greatest code unit of a non-empty sequence.
pub open spec fn seq_u16_max(s: Seq<u16>) -> u16
    recommends
        s.len() > 0,
    decreases s.len(),
{
    if s.len() <= 1 {
        s[0]
    } else {
        let m = seq_u16_max(s.drop_last());
        if s.last() > m {
            s.last()
        } else {
            m
        }
    }
}

pub proof fn lemma_seq_u16_min_max(s: Seq<u16>, j: int)
    requires
        0 <= j < s.len(),
    ensures
        seq_u16_min(s) <= s[j],
        s[j] <= seq_u16_max(s),
    decreases s.len(),
{
    if s.len() > 1 {
        if j < s.len() - 1 {
            lemma_seq_u16_min_max(s.drop_last(), j);
        } else {
            lemma_seq_u16_min_max(s.drop_last(), 0);
        }
    }
}

/// The stream bits of the per-unit deltas of a string: each unit, less the
/// least unit, in `width` bits.
pub open spec fn delta_bits(units: Seq<u16>, min: u16, width: nat) -> Seq<bool>
    decreases units.len(),
{
    if units.len() == 0 {
        Seq::empty()
    } else {
        unsigned_bits((units[0] - min) as nat, width) + delta_bits(units.drop_first(), min, width)
    }
}

pub proof fn lemma_delta_bits_len(units: Seq<u16>, min: u16, width: nat)
    ensures
        delta_bits(units, min, width).len() == width * units.len(),
    decreases units.len(),
{
    if units.len() > 0 {
        lemma_unsigned_bits_len((units[0] - min) as nat, width);
        lemma_delta_bits_len(units.drop_first(), min, width);
        assert(width * units.len() == width + width * (units.len() - 1)) by (nonlinear_arith);
    }
}

pub proof fn lemma_delta_bits_push(units: Seq<u16>, x: u16, min: u16, width: nat)
    ensures
        delta_bits(units.push(x), min, width) == delta_bits(units, min, width) + unsigned_bits(
            (x - min) as nat,
            width,
        ),
    decreases units.len(),
{
    reveal_with_fuel(delta_bits, 3);
    if units.len() == 0 {
        assert(units.push(x).drop_first() =~= Seq::<u16>::empty());
        assert(units.push(x)[0] == x);
        assert(delta_bits(units.push(x), min, width) =~= delta_bits(units, min, width)
            + unsigned_bits((x - min) as nat, width));
    } else {
        assert(units.push(x).drop_first() =~= units.drop_first().push(x));
        lemma_delta_bits_push(units.drop_first(), x, min, width);
        assert(units.push(x)[0] == units[0]);
        assert(delta_bits(units.push(x), min, width) =~= delta_bits(units, min, width)
            + unsigned_bits((x - min) as nat, width));
    }
}

pub proof fn lemma_delta_bits_index(units: Seq<u16>, min: u16, width: nat, i: int)
    requires
        0 <= i < units.len(),
    ensures
        delta_bits(units, min, width).subrange(width * i, width * i + width as int)
            == unsigned_bits((units[i] - min) as nat, width),
    decreases units.len(),
{
    lemma_delta_bits_len(units, min, width);
    lemma_unsigned_bits_len((units[0] - min) as nat, width);
    lemma_delta_bits_len(units.drop_first(), min, width);
    if i == 0 {
        assert(delta_bits(units, min, width).subrange(0, width as int) =~= unsigned_bits(
            (units[0] - min) as nat,
            width,
        ));
    } else {
        lemma_delta_bits_index(units.drop_first(), min, width, i - 1);
        assert(width * i == width + width * (i - 1)) by (nonlinear_arith);
        assert(width * i + width <= width * units.len()) by (nonlinear_arith)
            requires
                0 < i < units.len(),
        ;
        assert(width * (i - 1) + width <= width * (units.len() - 1)) by (nonlinear_arith)
            requires
                0 < i < units.len(),
        ;
        assert(delta_bits(units, min, width).subrange(width * i, width * i + width as int)
            =~= delta_bits(units.drop_first(), min, width).subrange(
            width * (i - 1),
            width * (i - 1) + width as int,
        ));
    }
}

/// The length marker ahead of a string: the length plus one in a single
/// byte when it is below 254, else an escape byte and a 32-bit length.
pub open spec fn string_marker_bits(len: nat) -> Seq<bool> {
    if len < 254 {
        octet_bits((len + 1) as u8)
    } else {
        octet_bits(255) + i32_bits(len as i32)
    }
}

/// The delta bit width a string is stored with: zero when every unit is
/// the least one.
pub open spec fn string_delta_width(units: Seq<u16>) -> nat {
    if seq_u16_max(units) == seq_u16_min(units) {
        0
    } else {
        required_bits((seq_u16_max(units) - seq_u16_min(units)) as nat)
    }
}

/// What follows the length marker of a non-empty string: the least unit in
/// sixteen bits, the delta width in five, and, when the width is not zero,
/// one delta per unit.
pub open spec fn string_payload_bits(units: Seq<u16>) -> Seq<bool> {
    if units.len() == 0 {
        Seq::empty()
    } else {
        let min = seq_u16_min(units);
        let width = string_delta_width(units);
        u16_bits(min) + unsigned_bits(width, 5) + (if width == 0 {
            Seq::<bool>::empty()
        } else {
            delta_bits(units, min, width)
        })
    }
}

/// The whole encoding of a present string.
pub open spec fn string_bits(units: Seq<u16>) -> Seq<bool> {
    string_marker_bits(units.len()) + string_payload_bits(units)
}

/// The outcome of reading a string back from the stream.
pub enum StringParse {
    /// Too few bits: the read stops `at` this position after asking for
    /// `requested` more bits.
    MissingBits { at: nat, requested: usize },
    /// The escape path declared a negative length.
    NegativeLength { length: i32, at: nat },
    /// The declared length exceeds the bound the caller allowed.
    TooLong { declared: nat, at: nat },
    /// No string was stored.
    Nothing { end: nat },
    /// The stored code units, and the position after them.
    Decoded { units: Seq<u16>, end: nat },
}

/// What follows the length marker: the code units of a string of `length`
/// units read at position `p`, under the caller's `max_length` bound.
pub open spec fn parse_string_body(s: Seq<bool>, p: nat, length: nat, max_length: usize) -> StringParse {
    if length == 0 {
        StringParse::Decoded { units: Seq::empty(), end: p }
    } else if length > max_length {
        StringParse::TooLong { declared: length, at: p }
    } else if p + 21 > s.len() {
        StringParse::MissingBits { at: p, requested: 21 }
    } else {
        let min = u16_of_bits(s.subrange(p as int, p as int + 16));
        let width = bits_value(s.subrange(p as int + 16, p as int + 21));
        if width == 0 {
            StringParse::Decoded { units: Seq::new(length, |i: int| min), end: (p + 21) as nat }
        } else if p + 21 + width * length > s.len() {
            StringParse::MissingBits {
                at: (p + 21) as nat,
                requested: requested_bits_of(length, width),
            }
        } else {
            StringParse::Decoded {
                units: Seq::new(
                    length,
                    |i: int| ((min as nat + bits_value(
                        s.subrange(
                            p as int + 21 + width * i,
                            p as int + 21 + width * i + width as int,
                        ),
                    )) as u16),
                ),
                end: (p + 21 + width * length) as nat,
            }
        }
    }
}

/// The saturated number of bits that `amount` values of `width` bits ask
/// for.
pub open spec fn requested_bits_of(amount: nat, width: nat) -> usize {
    if amount * width <= usize::MAX {
        (amount * width) as usize
    } else {
        usize::MAX
    }
}

/// Reading a string back from position `pos`: the marker byte decides
/// between nothing, a short length and an escaped 32-bit length, and the
/// body follows.
pub open spec fn parse_string(s: Seq<bool>, pos: nat, max_length: usize) -> StringParse {
    if pos + 8 > s.len() {
        StringParse::MissingBits { at: pos, requested: 8 }
    } else {
        let marker = octet_value(s.subrange(pos as int, pos as int + 8));
        if marker == 0 {
            StringParse::Nothing { end: (pos + 8) as nat }
        } else if marker < 255 {
            parse_string_body(s, (pos + 8) as nat, (marker - 1) as nat, max_length)
        } else if pos + 40 > s.len() {
            StringParse::MissingBits { at: (pos + 8) as nat, requested: 32 }
        } else {
            let len32 = i32_of_bits(s.subrange(pos as int + 8, pos as int + 40));
            if len32 < 0 {
                StringParse::NegativeLength { length: len32, at: (pos + 40) as nat }
            } else {
                parse_string_body(s, (pos + 40) as nat, len32 as nat, max_length)
            }
        }
    }
}


/// Round trip, sized unsigned: for any width up to 64 and any value that
/// fits it, decoding the sized encoding gives the value back.
pub proof fn lemma_sized_u64_round_trip(v: u64, bits: nat)
    requires
        bits <= 64,
        (v as nat) < pow2(bits),
    ensures
        unsigned_bits(v as nat, bits).len() == bits,
        bits_value(unsigned_bits(v as nat, bits)) == v,
{
    lemma_unsigned_bits_len(v as nat, bits);
    lemma_bits_value_of_unsigned_bits(v as nat, bits);
    vstd::arithmetic::div_mod::lemma_small_mod(v as nat, pow2(bits));
}

/// Round trip, sized signed: for any width from 1 to 64 and any value
/// whose magnitude fits it, decoding the sized encoding gives the value
/// back.
pub proof fn lemma_sized_i64_round_trip(v: i64, bits: nat)
    requires
        1 <= bits <= 64,
        signed_mag(v) < pow2((bits - 1) as nat),
    ensures
        sized_i64_bits(v, bits).len() == bits,
        sized_i64_value(sized_i64_bits(v, bits)) == v,
{
    let s = sized_i64_bits(v, bits);
    lemma_unsigned_bits_len(signed_mag(v), (bits - 1) as nat);
    assert(s.skip(1) =~= unsigned_bits(signed_mag(v), (bits - 1) as nat));
    lemma_bits_value_of_unsigned_bits(signed_mag(v), (bits - 1) as nat);
    vstd::arithmetic::div_mod::lemma_small_mod(signed_mag(v), pow2((bits - 1) as nat));
    assert(s[0] == (v >= 0));
}

/// Round trip, self-describing: the six-bit width field of a var encoding
/// decodes to one less than the payload width, and the payload decodes to
/// the value.
pub proof fn lemma_var_u64_round_trip(v: u64)
    ensures
        ({
            let e = var_u64_bits(v);
            let width = (bits_value(e.subrange(0, 6)) + 1) as nat;
            &&& e.len() == 6 + width
            &&& bits_value(e.subrange(6, 6 + width as int)) == v
        }),
{
    let e = var_u64_bits(v);
    lemma_required_bits_u64(v);
    lemma_required_bits_bounds(v as nat);
    vstd::arithmetic::power2::lemma2_to64();
    if v == 0 {
        lemma_unsigned_bits_len(0, 6);
        assert(e.subrange(0, 6) =~= unsigned_bits(0, 6));
        lemma_sized_u64_round_trip(0, 6);
        assert(e.subrange(6, 7) =~= seq![false]);
        assert(bits_value(seq![false]) == 0) by {
            assert(seq![false].drop_last() =~= Seq::<bool>::empty());
            assert(bits_value(Seq::<bool>::empty()) == 0);
        }
    } else {
        let k = required_bits(v as nat);
        lemma_unsigned_bits_len((k - 1) as nat, 6);
        lemma_unsigned_bits_len(v as nat, k);
        assert(e.subrange(0, 6) =~= unsigned_bits((k - 1) as nat, 6));
        assert(((k - 1) as nat) < pow2(6)) by {
            vstd::arithmetic::power2::lemma2_to64();
        }
        lemma_sized_u64_round_trip((k - 1) as u64, 6);
        assert(bits_value(e.subrange(0, 6)) == k - 1);
        assert(e.subrange(6, 6 + k as int) =~= unsigned_bits(v as nat, k));
        lemma_bits_value_of_unsigned_bits(v as nat, k);
        vstd::arithmetic::div_mod::lemma_small_mod(v as nat, pow2(k));
    }
}


/// A subrange taken inside the middle part of a concatenation.
pub proof fn lemma_mid_subrange(prefix: Seq<bool>, mid: Seq<bool>, suffix: Seq<bool>, a: int, b: int)
    requires
        0 <= a <= b <= mid.len(),
    ensures
        (prefix + mid + suffix).subrange(prefix.len() + a, prefix.len() + b) == mid.subrange(a, b),
{
    assert((prefix + mid + suffix).subrange(prefix.len() + a, prefix.len() + b) =~= mid.subrange(
        a,
        b,
    ));
}

/// Round trip, strings: parsing the encoding of any sequence of code
/// units, surrounded by any other bits, yields those units back, provided
/// the declared length is allowed by the caller's bound.
#[verifier::rlimit(100)]
pub proof fn lemma_string_round_trip(
    prefix: Seq<bool>,
    units: Seq<u16>,
    suffix: Seq<bool>,
    max_length: usize,
)
    requires
        units.len() <= max_length,
        units.len() <= 2147483647,
    ensures
        parse_string(prefix + string_bits(units) + suffix, prefix.len() as nat, max_length)
            == (StringParse::Decoded {
            units,
            end: (prefix.len() + string_bits(units).len()) as nat,
        }),
{
    let mid = string_bits(units);
    let s = prefix + mid + suffix;
    let p = prefix.len() as int;
    let len = units.len() as nat;
    let mb = string_marker_bits(len);
    let pb = string_payload_bits(units);
    lemma_width_bits_len();
    // marker
    let mblen: int = if len < 254 {
        8
    } else {
        40
    };
    if len < 254 {
        lemma_octet_bits_len((len + 1) as u8);
        assert(mb.len() == 8);
        lemma_mid_subrange(prefix, mid, suffix, 0, 8);
        assert(mid.subrange(0, 8) =~= octet_bits((len + 1) as u8));
        lemma_octet_value_of_octet_bits((len + 1) as u8);
        assert(octet_value(s.subrange(p, p + 8)) == (len + 1) as u8);
    } else {
        lemma_octet_bits_len(255);
        assert(mb.len() == 40);
        lemma_mid_subrange(prefix, mid, suffix, 0, 8);
        assert(mid.subrange(0, 8) =~= octet_bits(255));
        lemma_octet_value_of_octet_bits(255);
        assert(octet_value(s.subrange(p, p + 8)) == 255);
        lemma_mid_subrange(prefix, mid, suffix, 8, 40);
        assert(mid.subrange(8, 40) =~= i32_bits(len as i32));
        lemma_i32_round_trip(len as i32);
        assert(i32_of_bits(s.subrange(p + 8, p + 40)) == len as i32);
    }
    let q = p + mblen;
    // the parse reaches the body with the right length at position q
    if len == 0 {
        assert(pb =~= Seq::<bool>::empty());
        assert(mid =~= mb);
        assert(parse_string(s, p as nat, max_length) == parse_string_body(
            s,
            q as nat,
            0,
            max_length,
        ));
        assert(parse_string_body(s, q as nat, 0, max_length) == (StringParse::Decoded {
            units,
            end: q as nat,
        })) by {
            assert(units =~= Seq::<u16>::empty());
        }
    } else {
        let min = seq_u16_min(units);
        let max = seq_u16_max(units);
        let width = string_delta_width(units);
        lemma_seq_u16_min_max(units, 0);
        lemma_required_bits_u16((max - min) as u16);
        lemma_unsigned_bits_len(width, 5);
        let dlen: int = if width == 0 {
            0
        } else {
            (width * len) as int
        };
        if width > 0 {
            lemma_delta_bits_len(units, min, width);
            assert(width * units.len() >= 0) by (nonlinear_arith);
        }
        assert(pb.len() == 21 + dlen);
        assert(mid.len() == mblen + 21 + dlen);
        // min and width fields
        lemma_mid_subrange(prefix, mid, suffix, mblen, mblen + 16);
        assert(mid.subrange(mblen, mblen + 16) =~= u16_bits(min));
        lemma_u16_round_trip(min);
        assert(u16_of_bits(s.subrange(q, q + 16)) == min);
        lemma_mid_subrange(prefix, mid, suffix, mblen + 16, mblen + 21);
        assert(mid.subrange(mblen + 16, mblen + 21) =~= unsigned_bits(width, 5));
        lemma_bits_value_of_unsigned_bits(width, 5);
        assert(pow2(5) == 32) by {
            vstd::arithmetic::power2::lemma2_to64();
        }
        vstd::arithmetic::div_mod::lemma_small_mod(width, 32);
        assert(bits_value(s.subrange(q + 16, q + 21)) == width);
        if width == 0 {
            assert(max == min);
            let decoded = Seq::new(len, |i: int| min);
            assert(decoded =~= units) by {
                assert forall|i: int| 0 <= i < len implies units[i] == min by {
                    lemma_seq_u16_min_max(units, i);
                }
            }
            assert(parse_string_body(s, q as nat, len, max_length) == (StringParse::Decoded {
                units,
                end: (q + 21) as nat,
            }));
        } else {
            lemma_required_bits_bounds((max - min) as nat);
            let db = delta_bits(units, min, width);
            let decoded = Seq::new(
                len,
                |i: int| ((min as nat + bits_value(
                    s.subrange(q + 21 + width * i, q + 21 + width * i + width as int),
                )) as u16),
            );
            assert forall|i: int| 0 <= i < len implies decoded[i] == units[i] by {
                assert(width * i >= 0 && width * i + width <= width * len) by (nonlinear_arith)
                    requires
                        0 <= i < len,
                        width >= 1,
                ;
                lemma_mid_subrange(
                    prefix,
                    mid,
                    suffix,
                    mblen + 21 + width * i,
                    mblen + 21 + width * i + width as int,
                );
                assert(mid.subrange(mblen + 21 + width * i, mblen + 21 + width * i + width as int)
                    =~= db.subrange(width * i, width * i + width as int));
                lemma_delta_bits_index(units, min, width, i);
                lemma_seq_u16_min_max(units, i);
                lemma_bits_value_of_unsigned_bits((units[i] - min) as nat, width);
                vstd::arithmetic::div_mod::lemma_small_mod((units[i] - min) as nat, pow2(width));
            }
            assert(decoded =~= units);
            assert(q + 21 + width * len == p + mid.len());
            assert(parse_string_body(s, q as nat, len, max_length) == (StringParse::Decoded {
                units,
                end: (q + 21 + width * len) as nat,
            }));
        }
    }
}


pub proof fn lemma_i8_seq_bits_len(s: Seq<i8>)
    ensures
        i8_seq_bits(s).len() == 8 * s.len(),
    decreases s.len(),
{
    lemma_width_bits_len();
    if s.len() > 0 {
        lemma_i8_seq_bits_len(s.drop_first());
        assert(8 * s.len() == 8 + 8 * (s.len() - 1)) by (nonlinear_arith);
    }
}

pub proof fn lemma_i8_seq_bits_index(s: Seq<i8>, i: int)
    requires
        0 <= i < s.len(),
    ensures
        i8_seq_bits(s).subrange(8 * i, 8 * i + 8) == i8_bits(s[i]),
    decreases s.len(),
{
    lemma_width_bits_len();
    lemma_i8_seq_bits_len(s);
    lemma_i8_seq_bits_len(s.drop_first());
    if i == 0 {
        assert(i8_seq_bits(s).subrange(0, 8) =~= i8_bits(s[0]));
    } else {
        lemma_i8_seq_bits_index(s.drop_first(), i - 1);
        assert(8 * i == 8 + 8 * (i - 1)) by (nonlinear_arith);
        assert(8 * i + 8 <= 8 * s.len()) by (nonlinear_arith)
            requires
                0 < i < s.len(),
        ;
        assert(8 * (i - 1) + 8 <= 8 * (s.len() - 1)) by (nonlinear_arith)
            requires
                0 < i < s.len(),
        ;
        assert(i8_seq_bits(s).subrange(8 * i, 8 * i + 8) =~= i8_seq_bits(
            s.drop_first(),
        ).subrange(8 * (i - 1), 8 * (i - 1) + 8));
    }
}

/// Round trip, groups: reading back a written group of `i8` values,
/// wherever it stands in the stream, yields every value unchanged.
pub proof fn lemma_i8_seq_round_trip(prefix: Seq<bool>, values: Seq<i8>, suffix: Seq<bool>)
    ensures
        i8_seq_of_bits(
            prefix + i8_seq_bits(values) + suffix,
            prefix.len() as nat,
            values.len() as nat,
        ) == values,
{
    lemma_i8_seq_bits_len(values);
    let s = prefix + i8_seq_bits(values) + suffix;
    let decoded = i8_seq_of_bits(s, prefix.len() as nat, values.len() as nat);
    assert forall|i: int| 0 <= i < values.len() implies decoded[i] == values[i] by {
        assert(8 * i >= 0 && 8 * i + 8 <= 8 * values.len()) by (nonlinear_arith)
            requires
                0 <= i < values.len(),
        ;
        lemma_mid_subrange(
            prefix,
            i8_seq_bits(values),
            suffix,
            8 * i,
            8 * i + 8,
        );
        lemma_i8_seq_bits_index(values, i);
        lemma_i8_round_trip(values[i]);
        assert(s.subrange(prefix.len() + 8 * i, prefix.len() + 8 * i + 8) == i8_bits(
            values[i],
        ));
    }
    assert(decoded =~= values);
}

pub proof fn lemma_u8_seq_bits_len(s: Seq<u8>)
    ensures
        u8_seq_bits(s).len() == 8 * s.len(),
    decreases s.len(),
{
    lemma_width_bits_len();
    if s.len() > 0 {
        lemma_u8_seq_bits_len(s.drop_first());
        assert(8 * s.len() == 8 + 8 * (s.len() - 1)) by (nonlinear_arith);
    }
}

pub proof fn lemma_u8_seq_bits_index(s: Seq<u8>, i: int)
    requires
        0 <= i < s.len(),
    ensures
        u8_seq_bits(s).subrange(8 * i, 8 * i + 8) == u8_bits(s[i]),
    decreases s.len(),
{
    lemma_width_bits_len();
    lemma_u8_seq_bits_len(s);
    lemma_u8_seq_bits_len(s.drop_first());
    if i == 0 {
        assert(u8_seq_bits(s).subrange(0, 8) =~= u8_bits(s[0]));
    } else {
        lemma_u8_seq_bits_index(s.drop_first(), i - 1);
        assert(8 * i == 8 + 8 * (i - 1)) by (nonlinear_arith);
        assert(8 * i + 8 <= 8 * s.len()) by (nonlinear_arith)
            requires
                0 < i < s.len(),
        ;
        assert(8 * (i - 1) + 8 <= 8 * (s.len() - 1)) by (nonlinear_arith)
            requires
                0 < i < s.len(),
        ;
        assert(u8_seq_bits(s).subrange(8 * i, 8 * i + 8) =~= u8_seq_bits(
            s.drop_first(),
        ).subrange(8 * (i - 1), 8 * (i - 1) + 8));
    }
}

/// Round trip, groups: reading back a written group of `u8` values,
/// wherever it stands in the stream, yields every value unchanged.
pub proof fn lemma_u8_seq_round_trip(prefix: Seq<bool>, values: Seq<u8>, suffix: Seq<bool>)
    ensures
        u8_seq_of_bits(
            prefix + u8_seq_bits(values) + suffix,
            prefix.len() as nat,
            values.len() as nat,
        ) == values,
{
    lemma_u8_seq_bits_len(values);
    let s = prefix + u8_seq_bits(values) + suffix;
    let decoded = u8_seq_of_bits(s, prefix.len() as nat, values.len() as nat);
    assert forall|i: int| 0 <= i < values.len() implies decoded[i] == values[i] by {
        assert(8 * i >= 0 && 8 * i + 8 <= 8 * values.len()) by (nonlinear_arith)
            requires
                0 <= i < values.len(),
        ;
        lemma_mid_subrange(
            prefix,
            u8_seq_bits(values),
            suffix,
            8 * i,
            8 * i + 8,
        );
        lemma_u8_seq_bits_index(values, i);
        lemma_u8_round_trip(values[i]);
        assert(s.subrange(prefix.len() + 8 * i, prefix.len() + 8 * i + 8) == u8_bits(
            values[i],
        ));
    }
    assert(decoded =~= values);
}

pub proof fn lemma_i16_seq_bits_len(s: Seq<i16>)
    ensures
        i16_seq_bits(s).len() == 16 * s.len(),
    decreases s.len(),
{
    lemma_width_bits_len();
    if s.len() > 0 {
        lemma_i16_seq_bits_len(s.drop_first());
        assert(16 * s.len() == 16 + 16 * (s.len() - 1)) by (nonlinear_arith);
    }
}

pub proof fn lemma_i16_seq_bits_index(s: Seq<i16>, i: int)
    requires
        0 <= i < s.len(),
    ensures
        i16_seq_bits(s).subrange(16 * i, 16 * i + 16) == i16_bits(s[i]),
    decreases s.len(),
{
    lemma_width_bits_len();
    lemma_i16_seq_bits_len(s);
    lemma_i16_seq_bits_len(s.drop_first());
    if i == 0 {
        assert(i16_seq_bits(s).subrange(0, 16) =~= i16_bits(s[0]));
    } else {
        lemma_i16_seq_bits_index(s.drop_first(), i - 1);
        assert(16 * i == 16 + 16 * (i - 1)) by (nonlinear_arith);
        assert(16 * i + 16 <= 16 * s.len()) by (nonlinear_arith)
            requires
                0 < i < s.len(),
        ;
        assert(16 * (i - 1) + 16 <= 16 * (s.len() - 1)) by (nonlinear_arith)
            requires
                0 < i < s.len(),
        ;
        assert(i16_seq_bits(s).subrange(16 * i, 16 * i + 16) =~= i16_seq_bits(
            s.drop_first(),
        ).subrange(16 * (i - 1), 16 * (i - 1) + 16));
    }
}

/// Round trip, groups: reading back a written group of `i16` values,
/// wherever it stands in the stream, yields every value unchanged.
pub proof fn lemma_i16_seq_round_trip(prefix: Seq<bool>, values: Seq<i16>, suffix: Seq<bool>)
    ensures
        i16_seq_of_bits(
            prefix + i16_seq_bits(values) + suffix,
            prefix.len() as nat,
            values.len() as nat,
        ) == values,
{
    lemma_i16_seq_bits_len(values);
    let s = prefix + i16_seq_bits(values) + suffix;
    let decoded = i16_seq_of_bits(s, prefix.len() as nat, values.len() as nat);
    assert forall|i: int| 0 <= i < values.len() implies decoded[i] == values[i] by {
        assert(16 * i >= 0 && 16 * i + 16 <= 16 * values.len()) by (nonlinear_arith)
            requires
                0 <= i < values.len(),
        ;
        lemma_mid_subrange(
            prefix,
            i16_seq_bits(values),
            suffix,
            16 * i,
            16 * i + 16,
        );
        lemma_i16_seq_bits_index(values, i);
        lemma_i16_round_trip(values[i]);
        assert(s.subrange(prefix.len() + 16 * i, prefix.len() + 16 * i + 16) == i16_bits(
            values[i],
        ));
    }
    assert(decoded =~= values);
}

pub proof fn lemma_u16_seq_bits_len(s: Seq<u16>)
    ensures
        u16_seq_bits(s).len() == 16 * s.len(),
    decreases s.len(),
{
    lemma_width_bits_len();
    if s.len() > 0 {
        lemma_u16_seq_bits_len(s.drop_first());
        assert(16 * s.len() == 16 + 16 * (s.len() - 1)) by (nonlinear_arith);
    }
}

pub proof fn lemma_u16_seq_bits_index(s: Seq<u16>, i: int)
    requires
        0 <= i < s.len(),
    ensures
        u16_seq_bits(s).subrange(16 * i, 16 * i + 16) == u16_bits(s[i]),
    decreases s.len(),
{
    lemma_width_bits_len();
    lemma_u16_seq_bits_len(s);
    lemma_u16_seq_bits_len(s.drop_first());
    if i == 0 {
        assert(u16_seq_bits(s).subrange(0, 16) =~= u16_bits(s[0]));
    } else {
        lemma_u16_seq_bits_index(s.drop_first(), i - 1);
        assert(16 * i == 16 + 16 * (i - 1)) by (nonlinear_arith);
        assert(16 * i + 16 <= 16 * s.len()) by (nonlinear_arith)
            requires
                0 < i < s.len(),
        ;
        assert(16 * (i - 1) + 16 <= 16 * (s.len() - 1)) by (nonlinear_arith)
            requires
                0 < i < s.len(),
        ;
        assert(u16_seq_bits(s).subrange(16 * i, 16 * i + 16) =~= u16_seq_bits(
            s.drop_first(),
        ).subrange(16 * (i - 1), 16 * (i - 1) + 16));
    }
}

/// Round trip, groups: reading back a written group of `u16` values,
/// wherever it stands in the stream, yields every value unchanged.
pub proof fn lemma_u16_seq_round_trip(prefix: Seq<bool>, values: Seq<u16>, suffix: Seq<bool>)
    ensures
        u16_seq_of_bits(
            prefix + u16_seq_bits(values) + suffix,
            prefix.len() as nat,
            values.len() as nat,
        ) == values,
{
    lemma_u16_seq_bits_len(values);
    let s = prefix + u16_seq_bits(values) + suffix;
    let decoded = u16_seq_of_bits(s, prefix.len() as nat, values.len() as nat);
    assert forall|i: int| 0 <= i < values.len() implies decoded[i] == values[i] by {
        assert(16 * i >= 0 && 16 * i + 16 <= 16 * values.len()) by (nonlinear_arith)
            requires
                0 <= i < values.len(),
        ;
        lemma_mid_subrange(
            prefix,
            u16_seq_bits(values),
            suffix,
            16 * i,
            16 * i + 16,
        );
        lemma_u16_seq_bits_index(values, i);
        lemma_u16_round_trip(values[i]);
        assert(s.subrange(prefix.len() + 16 * i, prefix.len() + 16 * i + 16) == u16_bits(
            values[i],
        ));
    }
    assert(decoded =~= values);
}

pub proof fn lemma_i32_seq_bits_len(s: Seq<i32>)
    ensures
        i32_seq_bits(s).len() == 32 * s.len(),
    decreases s.len(),
{
    lemma_width_bits_len();
    if s.len() > 0 {
        lemma_i32_seq_bits_len(s.drop_first());
        assert(32 * s.len() == 32 + 32 * (s.len() - 1)) by (nonlinear_arith);
    }
}

pub proof fn lemma_i32_seq_bits_index(s: Seq<i32>, i: int)
    requires
        0 <= i < s.len(),
    ensures
        i32_seq_bits(s).subrange(32 * i, 32 * i + 32) == i32_bits(s[i]),
    decreases s.len(),
{
    lemma_width_bits_len();
    lemma_i32_seq_bits_len(s);
    lemma_i32_seq_bits_len(s.drop_first());
    if i == 0 {
        assert(i32_seq_bits(s).subrange(0, 32) =~= i32_bits(s[0]));
    } else {
        lemma_i32_seq_bits_index(s.drop_first(), i - 1);
        assert(32 * i == 32 + 32 * (i - 1)) by (nonlinear_arith);
        assert(32 * i + 32 <= 32 * s.len()) by (nonlinear_arith)
            requires
                0 < i < s.len(),
        ;
        assert(32 * (i - 1) + 32 <= 32 * (s.len() - 1)) by (nonlinear_arith)
            requires
                0 < i < s.len(),
        ;
        assert(i32_seq_bits(s).subrange(32 * i, 32 * i + 32) =~= i32_seq_bits(
            s.drop_first(),
        ).subrange(32 * (i - 1), 32 * (i - 1) + 32));
    }
}

/// Round trip, groups: reading back a written group of `i32` values,
/// wherever it stands in the stream, yields every value unchanged.
pub proof fn lemma_i32_seq_round_trip(prefix: Seq<bool>, values: Seq<i32>, suffix: Seq<bool>)
    ensures
        i32_seq_of_bits(
            prefix + i32_seq_bits(values) + suffix,
            prefix.len() as nat,
            values.len() as nat,
        ) == values,
{
    lemma_i32_seq_bits_len(values);
    let s = prefix + i32_seq_bits(values) + suffix;
    let decoded = i32_seq_of_bits(s, prefix.len() as nat, values.len() as nat);
    assert forall|i: int| 0 <= i < values.len() implies decoded[i] == values[i] by {
        assert(32 * i >= 0 && 32 * i + 32 <= 32 * values.len()) by (nonlinear_arith)
            requires
                0 <= i < values.len(),
        ;
        lemma_mid_subrange(
            prefix,
            i32_seq_bits(values),
            suffix,
            32 * i,
            32 * i + 32,
        );
        lemma_i32_seq_bits_index(values, i);
        lemma_i32_round_trip(values[i]);
        assert(s.subrange(prefix.len() + 32 * i, prefix.len() + 32 * i + 32) == i32_bits(
            values[i],
        ));
    }
    assert(decoded =~= values);
}

pub proof fn lemma_u32_seq_bits_len(s: Seq<u32>)
    ensures
        u32_seq_bits(s).len() == 32 * s.len(),
    decreases s.len(),
{
    lemma_width_bits_len();
    if s.len() > 0 {
        lemma_u32_seq_bits_len(s.drop_first());
        assert(32 * s.len() == 32 + 32 * (s.len() - 1)) by (nonlinear_arith);
    }
}

pub proof fn lemma_u32_seq_bits_index(s: Seq<u32>, i: int)
    requires
        0 <= i < s.len(),
    ensures
        u32_seq_bits(s).subrange(32 * i, 32 * i + 32) == u32_bits(s[i]),
    decreases s.len(),
{
    lemma_width_bits_len();
    lemma_u32_seq_bits_len(s);
    lemma_u32_seq_bits_len(s.drop_first());
    if i == 0 {
        assert(u32_seq_bits(s).subrange(0, 32) =~= u32_bits(s[0]));
    } else {
        lemma_u32_seq_bits_index(s.drop_first(), i - 1);
        assert(32 * i == 32 + 32 * (i - 1)) by (nonlinear_arith);
        assert(32 * i + 32 <= 32 * s.len()) by (nonlinear_arith)
            requires
                0 < i < s.len(),
        ;
        assert(32 * (i - 1) + 32 <= 32 * (s.len() - 1)) by (nonlinear_arith)
            requires
                0 < i < s.len(),
        ;
        assert(u32_seq_bits(s).subrange(32 * i, 32 * i + 32) =~= u32_seq_bits(
            s.drop_first(),
        ).subrange(32 * (i - 1), 32 * (i - 1) + 32));
    }
}

/// Round trip, groups: reading back a written group of `u32` values,
/// wherever it stands in the stream, yields every value unchanged.
pub proof fn lemma_u32_seq_round_trip(prefix: Seq<bool>, values: Seq<u32>, suffix: Seq<bool>)
    ensures
        u32_seq_of_bits(
            prefix + u32_seq_bits(values) + suffix,
            prefix.len() as nat,
            values.len() as nat,
        ) == values,
{
    lemma_u32_seq_bits_len(values);
    let s = prefix + u32_seq_bits(values) + suffix;
    let decoded = u32_seq_of_bits(s, prefix.len() as nat, values.len() as nat);
    assert forall|i: int| 0 <= i < values.len() implies decoded[i] == values[i] by {
        assert(32 * i >= 0 && 32 * i + 32 <= 32 * values.len()) by (nonlinear_arith)
            requires
                0 <= i < values.len(),
        ;
        lemma_mid_subrange(
            prefix,
            u32_seq_bits(values),
            suffix,
            32 * i,
            32 * i + 32,
        );
        lemma_u32_seq_bits_index(values, i);
        lemma_u32_round_trip(values[i]);
        assert(s.subrange(prefix.len() + 32 * i, prefix.len() + 32 * i + 32) == u32_bits(
            values[i],
        ));
    }
    assert(decoded =~= values);
}

} // verus!







