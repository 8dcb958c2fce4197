//! Conversions between integers, bytes and booleans: the stateless helpers
//! that the bit writers and readers are built on. Multi-byte integers are
//! split little-endian; eight booleans and one byte exchange through the
//! sign-and-magnitude octet convention of the stream.
use vstd::prelude::*;
use vstd::arithmetic::power2::pow2;
use crate::model::octet_value;
use crate::model::octet_bits;
use crate::model::octet_mag;
use crate::model::bits_value;
use crate::model::bit_of;
use crate::model::unsigned_bits;
use crate::model::sized_i64_bits;
use crate::model::sized_i64_value;
use crate::model::signed_mag;
use crate::model::lemma_bits_value_7;
use crate::model::lemma_bits_value_8;
use crate::model::lemma_bit_threshold;
use crate::model::lemma_unsigned_bits_index;
use crate::model::lemma_unsigned_bits_len;
use crate::model::lemma_bits_value_bound;
use crate::model::lemma_i8_as_u8;
use crate::model::lemma_cast_u8_identity;
use crate::model::lemma_cast_u16_identity;
use crate::model::lemma_cast_u32_identity;

verus! {

/// Returns `pow2(power)` as a machine integer.
pub fn get_power_of_2(power: usize) -> (r: u64)
    requires
        power < 64,
    ensures
        r as nat == pow2(power as nat),
{
    proof {
        vstd::arithmetic::power2::lemma2_to64_rest();
        if power < 32 {
            vstd::arithmetic::power2::lemma2_to64();
        } else {
            vstd::arithmetic::power2::lemma_pow2_strictly_increases(power as nat, 64);
        }
        vstd::bits::lemma_u64_shl_is_mul(1u64, power as u64);
    }
    1u64 << (power as u64)
}

pub fn i8s_to_i16(byte1: i8, byte2: i8) -> (r: i16)
    ensures
        (r as u16) as nat == (byte1 as u8) as nat + 256 * ((byte2 as u8) as nat),
{
    let b1 = (#[verifier::truncate] (byte1 as u8)) as u16;
    let b2 = (#[verifier::truncate] (byte2 as u8)) as u16;
    let combined: u16 = b1 + b2 * 256;
    proof {
        lemma_cast_u16_identity(combined);
    }
    #[verifier::truncate] (combined as i16)
}

pub fn i8_tuple_to_i16(bytes: (i8, i8)) -> (r: i16)
    ensures
        (r as u16) as nat == (bytes.0 as u8) as nat + 256 * ((bytes.1 as u8) as nat),
{
    i8s_to_i16(bytes.0, bytes.1)
}

pub fn i8_array_to_i16(bytes: [i8; 2]) -> (r: i16)
    ensures
        (r as u16) as nat == (bytes[0] as u8) as nat + 256 * ((bytes[1] as u8) as nat),
{
    i8s_to_i16(bytes[0], bytes[1])
}

pub fn i8_slice_to_i16(bytes: &[i8; 2]) -> (r: i16)
    ensures
        (r as u16) as nat == (bytes[0] as u8) as nat + 256 * ((bytes[1] as u8) as nat),
{
    i8s_to_i16(bytes[0], bytes[1])
}

pub fn i16_to_i8_1(int16: i16) -> (r: i8)
    ensures
        (r as u8) as nat == (int16 as u16) as nat % 256,
{
    let u = #[verifier::truncate] (int16 as u16);
    let b = (u % 256) as u8;
    proof {
        lemma_cast_u8_identity(b);
    }
    #[verifier::truncate] (b as i8)
}

pub fn i16_to_i8_2(int16: i16) -> (r: i8)
    ensures
        (r as u8) as nat == (int16 as u16) as nat / 256,
{
    let u = #[verifier::truncate] (int16 as u16);
    let b = (u / 256) as u8;
    proof {
        lemma_cast_u8_identity(b);
    }
    #[verifier::truncate] (b as i8)
}

pub fn i16_to_i8_tuple(int16: i16) -> (r: (i8, i8))
    ensures
        (r.0 as u8) as nat == (int16 as u16) as nat % 256,
        (r.1 as u8) as nat == (int16 as u16) as nat / 256,
{
    (i16_to_i8_1(int16), i16_to_i8_2(int16))
}

pub fn i16_to_i8_array(int16: i16) -> (r: [i8; 2])
    ensures
        (r[0] as u8) as nat == (int16 as u16) as nat % 256,
        (r[1] as u8) as nat == (int16 as u16) as nat / 256,
{
    [i16_to_i8_1(int16), i16_to_i8_2(int16)]
}

pub fn i8s_to_u16(byte1: i8, byte2: i8) -> (r: u16)
    ensures
        r as nat == (byte1 as u8) as nat + 256 * ((byte2 as u8) as nat),
{
    let b1 = (#[verifier::truncate] (byte1 as u8)) as u16;
    let b2 = (#[verifier::truncate] (byte2 as u8)) as u16;
    let combined: u16 = b1 + b2 * 256;
    combined
}

pub fn i8_tuple_to_u16(bytes: (i8, i8)) -> (r: u16)
    ensures
        r as nat == (bytes.0 as u8) as nat + 256 * ((bytes.1 as u8) as nat),
{
    i8s_to_u16(bytes.0, bytes.1)
}

pub fn i8_array_to_u16(bytes: [i8; 2]) -> (r: u16)
    ensures
        r as nat == (bytes[0] as u8) as nat + 256 * ((bytes[1] as u8) as nat),
{
    i8s_to_u16(bytes[0], bytes[1])
}

pub fn i8_slice_to_u16(bytes: &[i8; 2]) -> (r: u16)
    ensures
        r as nat == (bytes[0] as u8) as nat + 256 * ((bytes[1] as u8) as nat),
{
    i8s_to_u16(bytes[0], bytes[1])
}

pub fn u16_to_i8_1(int16: u16) -> (r: i8)
    ensures
        (r as u8) as nat == int16 as nat % 256,
{
    let u = int16;
    let b = (u % 256) as u8;
    proof {
        lemma_cast_u8_identity(b);
    }
    #[verifier::truncate] (b as i8)
}

pub fn u16_to_i8_2(int16: u16) -> (r: i8)
    ensures
        (r as u8) as nat == int16 as nat / 256,
{
    let u = int16;
    let b = (u / 256) as u8;
    proof {
        lemma_cast_u8_identity(b);
    }
    #[verifier::truncate] (b as i8)
}

pub fn u16_to_i8_tuple(int16: u16) -> (r: (i8, i8))
    ensures
        (r.0 as u8) as nat == int16 as nat % 256,
        (r.1 as u8) as nat == int16 as nat / 256,
{
    (u16_to_i8_1(int16), u16_to_i8_2(int16))
}

pub fn u16_to_i8_array(int16: u16) -> (r: [i8; 2])
    ensures
        (r[0] as u8) as nat == int16 as nat % 256,
        (r[1] as u8) as nat == int16 as nat / 256,
{
    [u16_to_i8_1(int16), u16_to_i8_2(int16)]
}

pub fn i8s_to_i32(byte1: i8, byte2: i8, byte3: i8, byte4: i8) -> (r: i32)
    ensures
        (r as u32) as nat == (byte1 as u8) as nat + 256 * ((byte2 as u8) as nat) + 65536 * ((byte3 as u8) as nat) + 16777216 * ((byte4 as u8) as nat),
{
    let b1 = (#[verifier::truncate] (byte1 as u8)) as u32;
    let b2 = (#[verifier::truncate] (byte2 as u8)) as u32;
    let b3 = (#[verifier::truncate] (byte3 as u8)) as u32;
    let b4 = (#[verifier::truncate] (byte4 as u8)) as u32;
    let combined: u32 = b1 + b2 * 256 + b3 * 65536 + b4 * 16777216;
    proof {
        lemma_cast_u32_identity(combined);
    }
    #[verifier::truncate] (combined as i32)
}

pub fn i8_tuple_to_i32(bytes: (i8, i8, i8, i8)) -> (r: i32)
    ensures
        (r as u32) as nat == (bytes.0 as u8) as nat + 256 * ((bytes.1 as u8) as nat) + 65536 * ((bytes.2 as u8) as nat) + 16777216 * ((bytes.3 as u8) as nat),
{
    i8s_to_i32(bytes.0, bytes.1, bytes.2, bytes.3)
}

pub fn i8_array_to_i32(bytes: [i8; 4]) -> (r: i32)
    ensures
        (r as u32) as nat == (bytes[0] as u8) as nat + 256 * ((bytes[1] as u8) as nat) + 65536 * ((bytes[2] as u8) as nat) + 16777216 * ((bytes[3] as u8) as nat),
{
    i8s_to_i32(bytes[0], bytes[1], bytes[2], bytes[3])
}

pub fn i8_slice_to_i32(bytes: &[i8; 4]) -> (r: i32)
    ensures
        (r as u32) as nat == (bytes[0] as u8) as nat + 256 * ((bytes[1] as u8) as nat) + 65536 * ((bytes[2] as u8) as nat) + 16777216 * ((bytes[3] as u8) as nat),
{
    i8s_to_i32(bytes[0], bytes[1], bytes[2], bytes[3])
}

pub fn i8_vec_to_i32(bytes: &Vec<i8>) -> (r: i32)
    requires
        bytes@.len() >= 4,
    ensures
        (r as u32) as nat == (bytes[0] as u8) as nat + 256 * ((bytes[1] as u8) as nat) + 65536 * ((bytes[2] as u8) as nat) + 16777216 * ((bytes[3] as u8) as nat),
{
    i8s_to_i32(bytes[0], bytes[1], bytes[2], bytes[3])
}

pub fn i32_to_i8_1(int32: i32) -> (r: i8)
    ensures
        (r as u8) as nat == (int32 as u32) as nat % 256,
{
    let u = #[verifier::truncate] (int32 as u32);
    let b = (u % 256) as u8;
    proof {
        lemma_cast_u8_identity(b);
    }
    #[verifier::truncate] (b as i8)
}

pub fn i32_to_i8_2(int32: i32) -> (r: i8)
    ensures
        (r as u8) as nat == (int32 as u32) as nat / 256 % 256,
{
    let u = #[verifier::truncate] (int32 as u32);
    let b = (u / 256 % 256) as u8;
    proof {
        lemma_cast_u8_identity(b);
    }
    #[verifier::truncate] (b as i8)
}

pub fn i32_to_i8_3(int32: i32) -> (r: i8)
    ensures
        (r as u8) as nat == (int32 as u32) as nat / 65536 % 256,
{
    let u = #[verifier::truncate] (int32 as u32);
    let b = (u / 65536 % 256) as u8;
    proof {
        lemma_cast_u8_identity(b);
    }
    #[verifier::truncate] (b as i8)
}

pub fn i32_to_i8_4(int32: i32) -> (r: i8)
    ensures
        (r as u8) as nat == (int32 as u32) as nat / 16777216,
{
    let u = #[verifier::truncate] (int32 as u32);
    let b = (u / 16777216) as u8;
    proof {
        lemma_cast_u8_identity(b);
    }
    #[verifier::truncate] (b as i8)
}

pub fn i32_to_i8_tuple(int32: i32) -> (r: (i8, i8, i8, i8))
    ensures
        (r.0 as u8) as nat == (int32 as u32) as nat % 256,
        (r.1 as u8) as nat == (int32 as u32) as nat / 256 % 256,
        (r.2 as u8) as nat == (int32 as u32) as nat / 65536 % 256,
        (r.3 as u8) as nat == (int32 as u32) as nat / 16777216,
{
    (i32_to_i8_1(int32), i32_to_i8_2(int32), i32_to_i8_3(int32), i32_to_i8_4(int32))
}

pub fn i32_to_i8_array(int32: i32) -> (r: [i8; 4])
    ensures
        (r[0] as u8) as nat == (int32 as u32) as nat % 256,
        (r[1] as u8) as nat == (int32 as u32) as nat / 256 % 256,
        (r[2] as u8) as nat == (int32 as u32) as nat / 65536 % 256,
        (r[3] as u8) as nat == (int32 as u32) as nat / 16777216,
{
    [i32_to_i8_1(int32), i32_to_i8_2(int32), i32_to_i8_3(int32), i32_to_i8_4(int32)]
}

pub fn i8s_to_u32(byte1: i8, byte2: i8, byte3: i8, byte4: i8) -> (r: u32)
    ensures
        r as nat == (byte1 as u8) as nat + 256 * ((byte2 as u8) as nat) + 65536 * ((byte3 as u8) as nat) + 16777216 * ((byte4 as u8) as nat),
{
    let b1 = (#[verifier::truncate] (byte1 as u8)) as u32;
    let b2 = (#[verifier::truncate] (byte2 as u8)) as u32;
    let b3 = (#[verifier::truncate] (byte3 as u8)) as u32;
    let b4 = (#[verifier::truncate] (byte4 as u8)) as u32;
    let combined: u32 = b1 + b2 * 256 + b3 * 65536 + b4 * 16777216;
    combined
}

pub fn i8_tuple_to_u32(bytes: (i8, i8, i8, i8)) -> (r: u32)
    ensures
        r as nat == (bytes.0 as u8) as nat + 256 * ((bytes.1 as u8) as nat) + 65536 * ((bytes.2 as u8) as nat) + 16777216 * ((bytes.3 as u8) as nat),
{
    i8s_to_u32(bytes.0, bytes.1, bytes.2, bytes.3)
}

pub fn i8_array_to_u32(bytes: [i8; 4]) -> (r: u32)
    ensures
        r as nat == (bytes[0] as u8) as nat + 256 * ((bytes[1] as u8) as nat) + 65536 * ((bytes[2] as u8) as nat) + 16777216 * ((bytes[3] as u8) as nat),
{
    i8s_to_u32(bytes[0], bytes[1], bytes[2], bytes[3])
}

pub fn i8_slice_to_u32(bytes: &[i8; 4]) -> (r: u32)
    ensures
        r as nat == (bytes[0] as u8) as nat + 256 * ((bytes[1] as u8) as nat) + 65536 * ((bytes[2] as u8) as nat) + 16777216 * ((bytes[3] as u8) as nat),
{
    i8s_to_u32(bytes[0], bytes[1], bytes[2], bytes[3])
}

pub fn i8_vec_to_u32(bytes: &Vec<i8>) -> (r: u32)
    requires
        bytes@.len() >= 4,
    ensures
        r as nat == (bytes[0] as u8) as nat + 256 * ((bytes[1] as u8) as nat) + 65536 * ((bytes[2] as u8) as nat) + 16777216 * ((bytes[3] as u8) as nat),
{
    i8s_to_u32(bytes[0], bytes[1], bytes[2], bytes[3])
}

pub fn u32_to_i8_1(int32: u32) -> (r: i8)
    ensures
        (r as u8) as nat == int32 as nat % 256,
{
    let u = int32;
    let b = (u % 256) as u8;
    proof {
        lemma_cast_u8_identity(b);
    }
    #[verifier::truncate] (b as i8)
}

pub fn u32_to_i8_2(int32: u32) -> (r: i8)
    ensures
        (r as u8) as nat == int32 as nat / 256 % 256,
{
    let u = int32;
    let b = (u / 256 % 256) as u8;
    proof {
        lemma_cast_u8_identity(b);
    }
    #[verifier::truncate] (b as i8)
}

pub fn u32_to_i8_3(int32: u32) -> (r: i8)
    ensures
        (r as u8) as nat == int32 as nat / 65536 % 256,
{
    let u = int32;
    let b = (u / 65536 % 256) as u8;
    proof {
        lemma_cast_u8_identity(b);
    }
    #[verifier::truncate] (b as i8)
}

pub fn u32_to_i8_4(int32: u32) -> (r: i8)
    ensures
        (r as u8) as nat == int32 as nat / 16777216,
{
    let u = int32;
    let b = (u / 16777216) as u8;
    proof {
        lemma_cast_u8_identity(b);
    }
    #[verifier::truncate] (b as i8)
}

pub fn u32_to_i8_tuple(int32: u32) -> (r: (i8, i8, i8, i8))
    ensures
        (r.0 as u8) as nat == int32 as nat % 256,
        (r.1 as u8) as nat == int32 as nat / 256 % 256,
        (r.2 as u8) as nat == int32 as nat / 65536 % 256,
        (r.3 as u8) as nat == int32 as nat / 16777216,
{
    (u32_to_i8_1(int32), u32_to_i8_2(int32), u32_to_i8_3(int32), u32_to_i8_4(int32))
}

pub fn u32_to_i8_array(int32: u32) -> (r: [i8; 4])
    ensures
        (r[0] as u8) as nat == int32 as nat % 256,
        (r[1] as u8) as nat == int32 as nat / 256 % 256,
        (r[2] as u8) as nat == int32 as nat / 65536 % 256,
        (r[3] as u8) as nat == int32 as nat / 16777216,
{
    [u32_to_i8_1(int32), u32_to_i8_2(int32), u32_to_i8_3(int32), u32_to_i8_4(int32)]
}

pub fn u8s_to_i16(byte1: u8, byte2: u8) -> (r: i16)
    ensures
        (r as u16) as nat == byte1 as nat + 256 * (byte2 as nat),
{
    let b1 = byte1 as u16;
    let b2 = byte2 as u16;
    let combined: u16 = b1 + b2 * 256;
    proof {
        lemma_cast_u16_identity(combined);
    }
    #[verifier::truncate] (combined as i16)
}

pub fn u8_tuple_to_i16(bytes: (u8, u8)) -> (r: i16)
    ensures
        (r as u16) as nat == bytes.0 as nat + 256 * (bytes.1 as nat),
{
    u8s_to_i16(bytes.0, bytes.1)
}

pub fn u8_array_to_i16(bytes: [u8; 2]) -> (r: i16)
    ensures
        (r as u16) as nat == bytes[0] as nat + 256 * (bytes[1] as nat),
{
    u8s_to_i16(bytes[0], bytes[1])
}

pub fn u8_slice_to_i16(bytes: &[u8; 2]) -> (r: i16)
    ensures
        (r as u16) as nat == bytes[0] as nat + 256 * (bytes[1] as nat),
{
    u8s_to_i16(bytes[0], bytes[1])
}

pub fn i16_to_u8_1(int16: i16) -> (r: u8)
    ensures
        r as nat == (int16 as u16) as nat % 256,
{
    let u = #[verifier::truncate] (int16 as u16);
    let b = (u % 256) as u8;
    b
}

pub fn i16_to_u8_2(int16: i16) -> (r: u8)
    ensures
        r as nat == (int16 as u16) as nat / 256,
{
    let u = #[verifier::truncate] (int16 as u16);
    let b = (u / 256) as u8;
    b
}

pub fn i16_to_u8_tuple(int16: i16) -> (r: (u8, u8))
    ensures
        r.0 as nat == (int16 as u16) as nat % 256,
        r.1 as nat == (int16 as u16) as nat / 256,
{
    (i16_to_u8_1(int16), i16_to_u8_2(int16))
}

pub fn i16_to_u8_array(int16: i16) -> (r: [u8; 2])
    ensures
        r[0] as nat == (int16 as u16) as nat % 256,
        r[1] as nat == (int16 as u16) as nat / 256,
{
    [i16_to_u8_1(int16), i16_to_u8_2(int16)]
}

pub fn u8s_to_u16(byte1: u8, byte2: u8) -> (r: u16)
    ensures
        r as nat == byte1 as nat + 256 * (byte2 as nat),
{
    let b1 = byte1 as u16;
    let b2 = byte2 as u16;
    let combined: u16 = b1 + b2 * 256;
    combined
}

pub fn u8_tuple_to_u16(bytes: (u8, u8)) -> (r: u16)
    ensures
        r as nat == bytes.0 as nat + 256 * (bytes.1 as nat),
{
    u8s_to_u16(bytes.0, bytes.1)
}

pub fn u8_array_to_u16(bytes: [u8; 2]) -> (r: u16)
    ensures
        r as nat == bytes[0] as nat + 256 * (bytes[1] as nat),
{
    u8s_to_u16(bytes[0], bytes[1])
}

pub fn u8_slice_to_u16(bytes: &[u8; 2]) -> (r: u16)
    ensures
        r as nat == bytes[0] as nat + 256 * (bytes[1] as nat),
{
    u8s_to_u16(bytes[0], bytes[1])
}

pub fn u16_to_u8_1(int16: u16) -> (r: u8)
    ensures
        r as nat == int16 as nat % 256,
{
    let u = int16;
    let b = (u % 256) as u8;
    b
}

pub fn u16_to_u8_2(int16: u16) -> (r: u8)
    ensures
        r as nat == int16 as nat / 256,
{
    let u = int16;
    let b = (u / 256) as u8;
    b
}

pub fn u16_to_u8_tuple(int16: u16) -> (r: (u8, u8))
    ensures
        r.0 as nat == int16 as nat % 256,
        r.1 as nat == int16 as nat / 256,
{
    (u16_to_u8_1(int16), u16_to_u8_2(int16))
}

pub fn u16_to_u8_array(int16: u16) -> (r: [u8; 2])
    ensures
        r[0] as nat == int16 as nat % 256,
        r[1] as nat == int16 as nat / 256,
{
    [u16_to_u8_1(int16), u16_to_u8_2(int16)]
}

pub fn u8s_to_i32(byte1: u8, byte2: u8, byte3: u8, byte4: u8) -> (r: i32)
    ensures
        (r as u32) as nat == byte1 as nat + 256 * (byte2 as nat) + 65536 * (byte3 as nat) + 16777216 * (byte4 as nat),
{
    let b1 = byte1 as u32;
    let b2 = byte2 as u32;
    let b3 = byte3 as u32;
    let b4 = byte4 as u32;
    let combined: u32 = b1 + b2 * 256 + b3 * 65536 + b4 * 16777216;
    proof {
        lemma_cast_u32_identity(combined);
    }
    #[verifier::truncate] (combined as i32)
}

pub fn u8_tuple_to_i32(bytes: (u8, u8, u8, u8)) -> (r: i32)
    ensures
        (r as u32) as nat == bytes.0 as nat + 256 * (bytes.1 as nat) + 65536 * (bytes.2 as nat) + 16777216 * (bytes.3 as nat),
{
    u8s_to_i32(bytes.0, bytes.1, bytes.2, bytes.3)
}

pub fn u8_array_to_i32(bytes: [u8; 4]) -> (r: i32)
    ensures
        (r as u32) as nat == bytes[0] as nat + 256 * (bytes[1] as nat) + 65536 * (bytes[2] as nat) + 16777216 * (bytes[3] as nat),
{
    u8s_to_i32(bytes[0], bytes[1], bytes[2], bytes[3])
}

pub fn u8_slice_to_i32(bytes: &[u8; 4]) -> (r: i32)
    ensures
        (r as u32) as nat == bytes[0] as nat + 256 * (bytes[1] as nat) + 65536 * (bytes[2] as nat) + 16777216 * (bytes[3] as nat),
{
    u8s_to_i32(bytes[0], bytes[1], bytes[2], bytes[3])
}

pub fn u8_vec_to_i32(bytes: &Vec<u8>) -> (r: i32)
    requires
        bytes@.len() >= 4,
    ensures
        (r as u32) as nat == bytes[0] as nat + 256 * (bytes[1] as nat) + 65536 * (bytes[2] as nat) + 16777216 * (bytes[3] as nat),
{
    u8s_to_i32(bytes[0], bytes[1], bytes[2], bytes[3])
}

pub fn i32_to_u8_1(int32: i32) -> (r: u8)
    ensures
        r as nat == (int32 as u32) as nat % 256,
{
    let u = #[verifier::truncate] (int32 as u32);
    let b = (u % 256) as u8;
    b
}

pub fn i32_to_u8_2(int32: i32) -> (r: u8)
    ensures
        r as nat == (int32 as u32) as nat / 256 % 256,
{
    let u = #[verifier::truncate] (int32 as u32);
    let b = (u / 256 % 256) as u8;
    b
}

pub fn i32_to_u8_3(int32: i32) -> (r: u8)
    ensures
        r as nat == (int32 as u32) as nat / 65536 % 256,
{
    let u = #[verifier::truncate] (int32 as u32);
    let b = (u / 65536 % 256) as u8;
    b
}

pub fn i32_to_u8_4(int32: i32) -> (r: u8)
    ensures
        r as nat == (int32 as u32) as nat / 16777216,
{
    let u = #[verifier::truncate] (int32 as u32);
    let b = (u / 16777216) as u8;
    b
}

pub fn i32_to_u8_tuple(int32: i32) -> (r: (u8, u8, u8, u8))
    ensures
        r.0 as nat == (int32 as u32) as nat % 256,
        r.1 as nat == (int32 as u32) as nat / 256 % 256,
        r.2 as nat == (int32 as u32) as nat / 65536 % 256,
        r.3 as nat == (int32 as u32) as nat / 16777216,
{
    (i32_to_u8_1(int32), i32_to_u8_2(int32), i32_to_u8_3(int32), i32_to_u8_4(int32))
}

pub fn i32_to_u8_array(int32: i32) -> (r: [u8; 4])
    ensures
        r[0] as nat == (int32 as u32) as nat % 256,
        r[1] as nat == (int32 as u32) as nat / 256 % 256,
        r[2] as nat == (int32 as u32) as nat / 65536 % 256,
        r[3] as nat == (int32 as u32) as nat / 16777216,
{
    [i32_to_u8_1(int32), i32_to_u8_2(int32), i32_to_u8_3(int32), i32_to_u8_4(int32)]
}

pub fn u8s_to_u32(byte1: u8, byte2: u8, byte3: u8, byte4: u8) -> (r: u32)
    ensures
        r as nat == byte1 as nat + 256 * (byte2 as nat) + 65536 * (byte3 as nat) + 16777216 * (byte4 as nat),
{
    let b1 = byte1 as u32;
    let b2 = byte2 as u32;
    let b3 = byte3 as u32;
    let b4 = byte4 as u32;
    let combined: u32 = b1 + b2 * 256 + b3 * 65536 + b4 * 16777216;
    combined
}

pub fn u8_tuple_to_u32(bytes: (u8, u8, u8, u8)) -> (r: u32)
    ensures
        r as nat == bytes.0 as nat + 256 * (bytes.1 as nat) + 65536 * (bytes.2 as nat) + 16777216 * (bytes.3 as nat),
{
    u8s_to_u32(bytes.0, bytes.1, bytes.2, bytes.3)
}

pub fn u8_array_to_u32(bytes: [u8; 4]) -> (r: u32)
    ensures
        r as nat == bytes[0] as nat + 256 * (bytes[1] as nat) + 65536 * (bytes[2] as nat) + 16777216 * (bytes[3] as nat),
{
    u8s_to_u32(bytes[0], bytes[1], bytes[2], bytes[3])
}

pub fn u8_slice_to_u32(bytes: &[u8; 4]) -> (r: u32)
    ensures
        r as nat == bytes[0] as nat + 256 * (bytes[1] as nat) + 65536 * (bytes[2] as nat) + 16777216 * (bytes[3] as nat),
{
    u8s_to_u32(bytes[0], bytes[1], bytes[2], bytes[3])
}

pub fn u8_vec_to_u32(bytes: &Vec<u8>) -> (r: u32)
    requires
        bytes@.len() >= 4,
    ensures
        r as nat == bytes[0] as nat + 256 * (bytes[1] as nat) + 65536 * (bytes[2] as nat) + 16777216 * (bytes[3] as nat),
{
    u8s_to_u32(bytes[0], bytes[1], bytes[2], bytes[3])
}

pub fn u32_to_u8_1(int32: u32) -> (r: u8)
    ensures
        r as nat == int32 as nat % 256,
{
    let u = int32;
    let b = (u % 256) as u8;
    b
}

pub fn u32_to_u8_2(int32: u32) -> (r: u8)
    ensures
        r as nat == int32 as nat / 256 % 256,
{
    let u = int32;
    let b = (u / 256 % 256) as u8;
    b
}

pub fn u32_to_u8_3(int32: u32) -> (r: u8)
    ensures
        r as nat == int32 as nat / 65536 % 256,
{
    let u = int32;
    let b = (u / 65536 % 256) as u8;
    b
}

pub fn u32_to_u8_4(int32: u32) -> (r: u8)
    ensures
        r as nat == int32 as nat / 16777216,
{
    let u = int32;
    let b = (u / 16777216) as u8;
    b
}

pub fn u32_to_u8_tuple(int32: u32) -> (r: (u8, u8, u8, u8))
    ensures
        r.0 as nat == int32 as nat % 256,
        r.1 as nat == int32 as nat / 256 % 256,
        r.2 as nat == int32 as nat / 65536 % 256,
        r.3 as nat == int32 as nat / 16777216,
{
    (u32_to_u8_1(int32), u32_to_u8_2(int32), u32_to_u8_3(int32), u32_to_u8_4(int32))
}

pub fn u32_to_u8_array(int32: u32) -> (r: [u8; 4])
    ensures
        r[0] as nat == int32 as nat % 256,
        r[1] as nat == int32 as nat / 256 % 256,
        r[2] as nat == int32 as nat / 65536 % 256,
        r[3] as nat == int32 as nat / 16777216,
{
    [u32_to_u8_1(int32), u32_to_u8_2(int32), u32_to_u8_3(int32), u32_to_u8_4(int32)]
}

pub fn i64_to_i8_1(int64: i64) -> (r: i8)
    ensures
        (r as u8) as nat == (int64 as u64) as nat % 256,
{
    let u = #[verifier::truncate] (int64 as u64);
    let b = (u % 256) as u8;
    proof {
        lemma_cast_u8_identity(b);
    }
    #[verifier::truncate] (b as i8)
}

pub fn i64_to_i8_2(int64: i64) -> (r: i8)
    ensures
        (r as u8) as nat == (int64 as u64) as nat / 256 % 256,
{
    let u = #[verifier::truncate] (int64 as u64);
    let b = (u / 256 % 256) as u8;
    proof {
        lemma_cast_u8_identity(b);
    }
    #[verifier::truncate] (b as i8)
}

pub fn i64_to_i8_3(int64: i64) -> (r: i8)
    ensures
        (r as u8) as nat == (int64 as u64) as nat / 65536 % 256,
{
    let u = #[verifier::truncate] (int64 as u64);
    let b = (u / 65536 % 256) as u8;
    proof {
        lemma_cast_u8_identity(b);
    }
    #[verifier::truncate] (b as i8)
}

pub fn i64_to_i8_4(int64: i64) -> (r: i8)
    ensures
        (r as u8) as nat == (int64 as u64) as nat / 16777216 % 256,
{
    let u = #[verifier::truncate] (int64 as u64);
    let b = (u / 16777216 % 256) as u8;
    proof {
        lemma_cast_u8_identity(b);
    }
    #[verifier::truncate] (b as i8)
}

pub fn i64_to_i8_5(int64: i64) -> (r: i8)
    ensures
        (r as u8) as nat == (int64 as u64) as nat / 4294967296 % 256,
{
    let u = #[verifier::truncate] (int64 as u64);
    let b = (u / 4294967296 % 256) as u8;
    proof {
        lemma_cast_u8_identity(b);
    }
    #[verifier::truncate] (b as i8)
}

pub fn i64_to_i8_6(int64: i64) -> (r: i8)
    ensures
        (r as u8) as nat == (int64 as u64) as nat / 1099511627776 % 256,
{
    let u = #[verifier::truncate] (int64 as u64);
    let b = (u / 1099511627776 % 256) as u8;
    proof {
        lemma_cast_u8_identity(b);
    }
    #[verifier::truncate] (b as i8)
}

pub fn i64_to_i8_7(int64: i64) -> (r: i8)
    ensures
        (r as u8) as nat == (int64 as u64) as nat / 281474976710656 % 256,
{
    let u = #[verifier::truncate] (int64 as u64);
    let b = (u / 281474976710656 % 256) as u8;
    proof {
        lemma_cast_u8_identity(b);
    }
    #[verifier::truncate] (b as i8)
}

pub fn i64_to_i8_8(int64: i64) -> (r: i8)
    ensures
        (r as u8) as nat == (int64 as u64) as nat / 72057594037927936,
{
    let u = #[verifier::truncate] (int64 as u64);
    let b = (u / 72057594037927936) as u8;
    proof {
        lemma_cast_u8_identity(b);
    }
    #[verifier::truncate] (b as i8)
}

pub fn u64_to_i8_1(int64: u64) -> (r: i8)
    ensures
        (r as u8) as nat == int64 as nat % 256,
{
    let u = int64;
    let b = (u % 256) as u8;
    proof {
        lemma_cast_u8_identity(b);
    }
    #[verifier::truncate] (b as i8)
}

pub fn u64_to_i8_2(int64: u64) -> (r: i8)
    ensures
        (r as u8) as nat == int64 as nat / 256 % 256,
{
    let u = int64;
    let b = (u / 256 % 256) as u8;
    proof {
        lemma_cast_u8_identity(b);
    }
    #[verifier::truncate] (b as i8)
}

pub fn u64_to_i8_3(int64: u64) -> (r: i8)
    ensures
        (r as u8) as nat == int64 as nat / 65536 % 256,
{
    let u = int64;
    let b = (u / 65536 % 256) as u8;
    proof {
        lemma_cast_u8_identity(b);
    }
    #[verifier::truncate] (b as i8)
}

pub fn u64_to_i8_4(int64: u64) -> (r: i8)
    ensures
        (r as u8) as nat == int64 as nat / 16777216 % 256,
{
    let u = int64;
    let b = (u / 16777216 % 256) as u8;
    proof {
        lemma_cast_u8_identity(b);
    }
    #[verifier::truncate] (b as i8)
}

pub fn u64_to_i8_5(int64: u64) -> (r: i8)
    ensures
        (r as u8) as nat == int64 as nat / 4294967296 % 256,
{
    let u = int64;
    let b = (u / 4294967296 % 256) as u8;
    proof {
        lemma_cast_u8_identity(b);
    }
    #[verifier::truncate] (b as i8)
}

pub fn u64_to_i8_6(int64: u64) -> (r: i8)
    ensures
        (r as u8) as nat == int64 as nat / 1099511627776 % 256,
{
    let u = int64;
    let b = (u / 1099511627776 % 256) as u8;
    proof {
        lemma_cast_u8_identity(b);
    }
    #[verifier::truncate] (b as i8)
}

pub fn u64_to_i8_7(int64: u64) -> (r: i8)
    ensures
        (r as u8) as nat == int64 as nat / 281474976710656 % 256,
{
    let u = int64;
    let b = (u / 281474976710656 % 256) as u8;
    proof {
        lemma_cast_u8_identity(b);
    }
    #[verifier::truncate] (b as i8)
}

pub fn u64_to_i8_8(int64: u64) -> (r: i8)
    ensures
        (r as u8) as nat == int64 as nat / 72057594037927936,
{
    let u = int64;
    let b = (u / 72057594037927936) as u8;
    proof {
        lemma_cast_u8_identity(b);
    }
    #[verifier::truncate] (b as i8)
}


/// Packs eight booleans into a signed byte: the first seven carry a
/// magnitude with weights 64 down to 1, the last is the sign, and a clear
/// sign stores `-magnitude - 1`.
pub fn bools_to_i8(b1: bool, b2: bool, b3: bool, b4: bool, b5: bool, b6: bool, b7: bool, b8: bool) -> (r: i8)
    ensures
        (r as u8) == octet_value(seq![b1, b2, b3, b4, b5, b6, b7, b8]),
{
    let mut result: i8 = 0;
    if b1 {
        result += 64;
    }
    if b2 {
        result += 32;
    }
    if b3 {
        result += 16;
    }
    if b4 {
        result += 8;
    }
    if b5 {
        result += 4;
    }
    if b6 {
        result += 2;
    }
    if b7 {
        result += 1;
    }
    if !b8 {
        result = -result - 1;
    }
    proof {
        let s = seq![b1, b2, b3, b4, b5, b6, b7, b8];
        assert(s.take(7) =~= seq![b1, b2, b3, b4, b5, b6, b7]);
        lemma_bits_value_7(s.take(7));
        lemma_bits_value_bound(s.take(7));
        vstd::arithmetic::power2::lemma2_to64();
        lemma_i8_as_u8(result);
    }
    result
}

pub fn bool_tuple_to_i8(bools: (bool, bool, bool, bool, bool, bool, bool, bool)) -> (r: i8)
    ensures
        (r as u8) == octet_value(seq![bools.0, bools.1, bools.2, bools.3, bools.4, bools.5, bools.6, bools.7]),
{
    bools_to_i8(bools.0, bools.1, bools.2, bools.3, bools.4, bools.5, bools.6, bools.7)
}

pub fn bool_array_to_i8(source: [bool; 8]) -> (r: i8)
    ensures
        (r as u8) == octet_value(source@),
{
    let r = bools_to_i8(source[0], source[1], source[2], source[3], source[4], source[5], source[6], source[7]);
    proof {
        assert(seq![source[0], source[1], source[2], source[3], source[4], source[5], source[6], source[7]] =~= source@);
    }
    r
}

pub fn bool_slice_to_i8(source: &[bool]) -> (r: i8)
    requires
        source@.len() >= 8,
    ensures
        (r as u8) == octet_value(source@.take(8)),
{
    let r = bools_to_i8(source[0], source[1], source[2], source[3], source[4], source[5], source[6], source[7]);
    proof {
        assert(seq![source@[0], source@[1], source@[2], source@[3], source@[4], source@[5], source@[6], source@[7]] =~= source@.take(8));
    }
    r
}

/// Unpacks a signed byte into the eight booleans it encodes; inverse of
/// `bools_to_i8` and its variants.
#[verifier::rlimit(40)]
pub fn i8_to_bool_array(byte: i8) -> (result: [bool; 8])
    ensures
        result@ == octet_bits(byte as u8),
{
    let sign = byte >= 0;
    let mag: i8 = if byte >= 0 {
        byte
    } else {
        -(byte + 1)
    };
    let c0 = mag >= 64;
    let m0: i8 = if c0 {
        mag - 64
    } else {
        mag
    };
    let c1 = m0 >= 32;
    let m1: i8 = if c1 {
        m0 - 32
    } else {
        m0
    };
    let c2 = m1 >= 16;
    let m2: i8 = if c2 {
        m1 - 16
    } else {
        m1
    };
    let c3 = m2 >= 8;
    let m3: i8 = if c3 {
        m2 - 8
    } else {
        m2
    };
    let c4 = m3 >= 4;
    let m4: i8 = if c4 {
        m3 - 4
    } else {
        m3
    };
    let c5 = m4 >= 2;
    let m5: i8 = if c5 {
        m4 - 2
    } else {
        m4
    };
    let c6 = m5 == 1;
    let result = [c0, c1, c2, c3, c4, c5, c6, sign];
    proof {
        let u = byte as u8;
        let g = octet_mag(u);
        vstd::arithmetic::power2::lemma2_to64();
        lemma_i8_as_u8(byte);
        assert(mag as nat == g);
        assert(sign == (u < 128));
        lemma_bit_threshold(g, 6);
        assert(c0 == bit_of(g, 6));
        assert(m0 as nat == g % 64);
        lemma_bit_threshold(g, 5);
        assert(c1 == bit_of(g, 5));
        assert(m1 as nat == g % 32);
        lemma_bit_threshold(g, 4);
        assert(c2 == bit_of(g, 4));
        assert(m2 as nat == g % 16);
        lemma_bit_threshold(g, 3);
        assert(c3 == bit_of(g, 3));
        assert(m3 as nat == g % 8);
        lemma_bit_threshold(g, 2);
        assert(c4 == bit_of(g, 2));
        assert(m4 as nat == g % 4);
        lemma_bit_threshold(g, 1);
        assert(c5 == bit_of(g, 1));
        assert(m5 as nat == g % 2);
        lemma_bit_threshold(g, 0);
        assert(c6 == bit_of(g, 0));
        lemma_unsigned_bits_len(g, 7);
        assert forall|j: int| 0 <= j < 7 implies octet_bits(u)[j] == bit_of(
            g,
            (6 - j) as nat,
        ) by {
            lemma_unsigned_bits_index(g, 7, j);
        }
        assert(result@ =~= octet_bits(u));
    }
    result
}

pub fn i8_to_bool_tuple(byte: i8) -> (r: (bool, bool, bool, bool, bool, bool, bool, bool))
    ensures
        seq![r.0, r.1, r.2, r.3, r.4, r.5, r.6, r.7] == octet_bits(byte as u8),
{
    let a = i8_to_bool_array(byte);
    let r = (a[0], a[1], a[2], a[3], a[4], a[5], a[6], a[7]);
    proof {
        assert(seq![r.0, r.1, r.2, r.3, r.4, r.5, r.6, r.7] =~= a@);
    }
    r
}

/// Packs eight booleans into an unsigned byte, plain binary with the first
/// boolean as the most significant bit.
pub fn booleans_to_u8(b1: bool, b2: bool, b3: bool, b4: bool, b5: bool, b6: bool, b7: bool, b8: bool) -> (r: u8)
    ensures
        r as nat == bits_value(seq![b1, b2, b3, b4, b5, b6, b7, b8]),
{
    let mut result: u8 = 0;
    if b1 {
        result += 128;
    }
    if b2 {
        result += 64;
    }
    if b3 {
        result += 32;
    }
    if b4 {
        result += 16;
    }
    if b5 {
        result += 8;
    }
    if b6 {
        result += 4;
    }
    if b7 {
        result += 2;
    }
    if b8 {
        result += 1;
    }
    proof {
        lemma_bits_value_8(seq![b1, b2, b3, b4, b5, b6, b7, b8]);
    }
    result
}

pub fn boolean_tuple_to_u8(bools: (bool, bool, bool, bool, bool, bool, bool, bool)) -> (r: u8)
    ensures
        r as nat == bits_value(seq![bools.0, bools.1, bools.2, bools.3, bools.4, bools.5, bools.6, bools.7]),
{
    booleans_to_u8(bools.0, bools.1, bools.2, bools.3, bools.4, bools.5, bools.6, bools.7)
}

pub fn boolean_array_to_u8(bools: [bool; 8]) -> (r: u8)
    ensures
        r as nat == bits_value(bools@),
{
    let r = booleans_to_u8(bools[0], bools[1], bools[2], bools[3], bools[4], bools[5], bools[6], bools[7]);
    proof {
        assert(seq![bools[0], bools[1], bools[2], bools[3], bools[4], bools[5], bools[6], bools[7]] =~= bools@);
    }
    r
}

pub fn boolean_slice_to_u8(bools: &[bool; 8]) -> (r: u8)
    ensures
        r as nat == bits_value(bools@),
{
    let r = booleans_to_u8(bools[0], bools[1], bools[2], bools[3], bools[4], bools[5], bools[6], bools[7]);
    proof {
        assert(seq![bools[0], bools[1], bools[2], bools[3], bools[4], bools[5], bools[6], bools[7]] =~= bools@);
    }
    r
}

/// Unpacks an unsigned byte into eight booleans, most significant first;
/// inverse of `booleans_to_u8` and its variants.
pub fn u8_to_boolean_array(byte: u8) -> (result: [bool; 8])
    ensures
        result@ == unsigned_bits(byte as nat, 8),
{
    let c0 = byte >= 128;
    let m0: u8 = if c0 {
        byte - 128
    } else {
        byte
    };
    let c1 = m0 >= 64;
    let m1: u8 = if c1 {
        m0 - 64
    } else {
        m0
    };
    let c2 = m1 >= 32;
    let m2: u8 = if c2 {
        m1 - 32
    } else {
        m1
    };
    let c3 = m2 >= 16;
    let m3: u8 = if c3 {
        m2 - 16
    } else {
        m2
    };
    let c4 = m3 >= 8;
    let m4: u8 = if c4 {
        m3 - 8
    } else {
        m3
    };
    let c5 = m4 >= 4;
    let m5: u8 = if c5 {
        m4 - 4
    } else {
        m4
    };
    let c6 = m5 >= 2;
    let m6: u8 = if c6 {
        m5 - 2
    } else {
        m5
    };
    let c7 = m6 == 1;
    let result = [c0, c1, c2, c3, c4, c5, c6, c7];
    proof {
        let g = byte as nat;
        vstd::arithmetic::power2::lemma2_to64();
        lemma_bit_threshold(g, 7);
        assert(c0 == bit_of(g, 7));
        assert(m0 as nat == g % 128);
        lemma_bit_threshold(g, 6);
        assert(c1 == bit_of(g, 6));
        assert(m1 as nat == g % 64);
        lemma_bit_threshold(g, 5);
        assert(c2 == bit_of(g, 5));
        assert(m2 as nat == g % 32);
        lemma_bit_threshold(g, 4);
        assert(c3 == bit_of(g, 4));
        assert(m3 as nat == g % 16);
        lemma_bit_threshold(g, 3);
        assert(c4 == bit_of(g, 3));
        assert(m4 as nat == g % 8);
        lemma_bit_threshold(g, 2);
        assert(c5 == bit_of(g, 2));
        assert(m5 as nat == g % 4);
        lemma_bit_threshold(g, 1);
        assert(c6 == bit_of(g, 1));
        assert(m6 as nat == g % 2);
        lemma_bit_threshold(g, 0);
        assert(c7 == bit_of(g, 0));
        lemma_unsigned_bits_len(g, 8);
        assert forall|j: int| 0 <= j < 8 implies unsigned_bits(g, 8)[j] == bit_of(
            g,
            (7 - j) as nat,
        ) by {
            lemma_unsigned_bits_index(g, 8, j);
        }
        assert(result@ =~= unsigned_bits(g, 8));
    }
    result
}

pub fn u8_to_boolean_tuple(byte: u8) -> (r: (bool, bool, bool, bool, bool, bool, bool, bool))
    ensures
        seq![r.0, r.1, r.2, r.3, r.4, r.5, r.6, r.7] == unsigned_bits(byte as nat, 8),
{
    let a = u8_to_boolean_array(byte);
    let r = (a[0], a[1], a[2], a[3], a[4], a[5], a[6], a[7]);
    proof {
        assert(seq![r.0, r.1, r.2, r.3, r.4, r.5, r.6, r.7] =~= a@);
    }
    r
}

/// Writes `bits` bits of `value` into `dest`, most significant first,
/// starting at `dest[start_index]`; the rest of `dest` is untouched.
pub fn sized_u64_to_bools(value: u64, bits: usize, dest: &mut Vec<bool>, start_index: usize)
    requires
        bits <= 64,
        (value as nat) < pow2(bits as nat),
        start_index + bits <= old(dest)@.len(),
    ensures
        final(dest)@.len() == old(dest)@.len(),
        final(dest)@.subrange(start_index as int, start_index + bits) == unsigned_bits(
            value as nat,
            bits as nat,
        ),
        forall|j: int|
            0 <= j < old(dest)@.len() && !(start_index <= j < start_index + bits)
                ==> final(dest)@[j] == old(dest)@[j],
{
    let total = dest.len();
    let mut index: usize = 0;
    while index < bits
        invariant
            bits <= 64,
            (value as nat) < pow2(bits as nat),
            total == dest@.len(),
            start_index + bits <= dest@.len(),
            dest@.len() == old(dest)@.len(),
            index <= bits,
            forall|j: int|
                0 <= j < dest@.len() && !(start_index <= j < start_index + index) ==> dest@[j]
                    == old(dest)@[j],
            forall|j: int|
                0 <= j < index ==> dest@[start_index + j] == unsigned_bits(
                    value as nat,
                    bits as nat,
                )[j],
        decreases bits - index,
    {
        let p = get_power_of_2(bits - 1 - index);
        proof {
            vstd::arithmetic::power2::lemma_pow2_pos((bits - 1 - index) as nat);
        }
        let bit = (value / p) % 2 == 1;
        proof {
            lemma_unsigned_bits_index(value as nat, bits as nat, index as int);
            assert(bit == bit_of(value as nat, (bits - 1 - index) as nat));
        }
        dest[start_index + index] = bit;
        index += 1;
    }
    proof {
        lemma_unsigned_bits_len(value as nat, bits as nat);
        assert(dest@.subrange(start_index as int, start_index + bits) =~= unsigned_bits(
            value as nat,
            bits as nat,
        ));
    }
}

/// Reads back the `bits` bits written by `sized_u64_to_bools`.
pub fn bools_to_sized_u64(bits: usize, bools: &[bool], start_index: usize) -> (r: u64)
    requires
        bits <= 64,
        start_index + bits <= bools@.len(),
    ensures
        r as nat == bits_value(bools@.subrange(start_index as int, start_index + bits)),
{
    let total = bools.len();
    let mut result: u64 = 0;
    let mut index: usize = 0;
    proof {
        vstd::arithmetic::power2::lemma2_to64();
        assert(bools@.subrange(start_index as int, start_index as int) =~= Seq::<bool>::empty());
    }
    while index < bits
        invariant
            bits <= 64,
            total == bools@.len(),
            start_index + bits <= bools@.len(),
            index <= bits,
            result as nat == bits_value(bools@.subrange(start_index as int, start_index + index)),
            (result as nat) < pow2(index as nat),
        decreases bits - index,
    {
        proof {
            vstd::arithmetic::power2::lemma_pow2_unfold((index + 1) as nat);
            if index + 1 < 64 {
                vstd::arithmetic::power2::lemma_pow2_strictly_increases(
                    (index + 1) as nat,
                    64,
                );
            }
            vstd::arithmetic::power2::lemma2_to64_rest();
            assert(bools@.subrange(start_index as int, start_index + index + 1).drop_last()
                =~= bools@.subrange(start_index as int, start_index + index));
        }
        result = result * 2 + (if bools[start_index + index] {
            1
        } else {
            0
        });
        index += 1;
    }
    result
}

/// Writes `bits` bits for a signed value: a sign bit, set exactly when the
/// value is not negative, then `bits - 1` magnitude bits, where a negative
/// value stores `-value - 1`.
pub fn signed_int_to_bools(integer: i64, bits: usize, dest: &mut Vec<bool>, start_index: usize)
    requires
        1 <= bits <= 64,
        signed_mag(integer) < pow2((bits - 1) as nat),
        start_index + bits <= old(dest)@.len(),
    ensures
        final(dest)@.len() == old(dest)@.len(),
        final(dest)@.subrange(start_index as int, start_index + bits) == sized_i64_bits(
            integer,
            bits as nat,
        ),
        forall|j: int|
            0 <= j < old(dest)@.len() && !(start_index <= j < start_index + bits)
                ==> final(dest)@[j] == old(dest)@[j],
{
    let total = dest.len();
    let sign = integer >= 0;
    let mag: u64 = if integer >= 0 {
        integer as u64
    } else {
        (-(integer + 1)) as u64
    };
    proof {
        assert(start_index + bits <= total);
    }
    dest[start_index] = sign;
    sized_u64_to_bools(mag, bits - 1, dest, start_index + 1);
    proof {
        assert(mag as nat == signed_mag(integer));
        lemma_unsigned_bits_len(mag as nat, (bits - 1) as nat);
        assert(dest@.subrange(start_index as int, start_index + bits) =~= sized_i64_bits(
            integer,
            bits as nat,
        ));
    }
}

/// Reads back the signed value written by `signed_int_to_bools`.
pub fn bools_to_signed_int(bits: usize, bools: &[bool], start_index: usize) -> (r: i64)
    requires
        1 <= bits <= 64,
        start_index + bits <= bools@.len(),
    ensures
        r == sized_i64_value(bools@.subrange(start_index as int, start_index + bits)),
{
    let total = bools.len();
    proof {
        assert(start_index + bits <= total);
    }
    let mag = bools_to_sized_u64(bits - 1, bools, start_index + 1);
    proof {
        let s = bools@.subrange(start_index as int, start_index + bits);
        assert(s.skip(1) =~= bools@.subrange(start_index + 1, start_index + bits));
        lemma_bits_value_bound(s.skip(1));
        if bits < 64 {
            vstd::arithmetic::power2::lemma_pow2_strictly_increases((bits - 1) as nat, 63);
        }
        vstd::arithmetic::power2::lemma2_to64_rest();
    }
    if bools[start_index] {
        mag as i64
    } else {
        -(mag as i64) - 1
    }
}

/// Same bit layout as `signed_int_to_bools`.
pub fn sized_i64_to_bools(value: i64, bits: usize, dest: &mut Vec<bool>, start_index: usize)
    requires
        1 <= bits <= 64,
        signed_mag(value) < pow2((bits - 1) as nat),
        start_index + bits <= old(dest)@.len(),
    ensures
        final(dest)@.len() == old(dest)@.len(),
        final(dest)@.subrange(start_index as int, start_index + bits) == sized_i64_bits(
            value,
            bits as nat,
        ),
        forall|j: int|
            0 <= j < old(dest)@.len() && !(start_index <= j < start_index + bits)
                ==> final(dest)@[j] == old(dest)@[j],
{
    signed_int_to_bools(value, bits, dest, start_index);
}

/// Same bit layout as `bools_to_signed_int`.
pub fn bools_to_sized_i64(bits: usize, bools: &[bool], start_index: usize) -> (r: i64)
    requires
        1 <= bits <= 64,
        start_index + bits <= bools@.len(),
    ensures
        r == sized_i64_value(bools@.subrange(start_index as int, start_index + bits)),
{
    bools_to_signed_int(bits, bools, start_index)
}

} // verus!

