//! Writers: sequential sinks that append values to a stream of bits.
use vstd::prelude::*;
use vstd::arithmetic::power2::pow2;
use crate::converter::i8_to_bool_array;
use crate::converter::bool_array_to_i8;
use crate::converter::i16_to_i8_1;
use crate::converter::i16_to_i8_2;
use crate::converter::u16_to_i8_1;
use crate::converter::u16_to_i8_2;
use crate::converter::i32_to_i8_1;
use crate::converter::i32_to_i8_2;
use crate::converter::i32_to_i8_3;
use crate::converter::i32_to_i8_4;
use crate::converter::u32_to_i8_1;
use crate::converter::u32_to_i8_2;
use crate::converter::u32_to_i8_3;
use crate::converter::u32_to_i8_4;
use crate::converter::i64_to_i8_1;
use crate::converter::i64_to_i8_2;
use crate::converter::i64_to_i8_3;
use crate::converter::i64_to_i8_4;
use crate::converter::i64_to_i8_5;
use crate::converter::i64_to_i8_6;
use crate::converter::i64_to_i8_7;
use crate::converter::i64_to_i8_8;
use crate::converter::u64_to_i8_1;
use crate::converter::u64_to_i8_2;
use crate::converter::u64_to_i8_3;
use crate::converter::u64_to_i8_4;
use crate::converter::u64_to_i8_5;
use crate::converter::u64_to_i8_6;
use crate::converter::u64_to_i8_7;
use crate::converter::u64_to_i8_8;
use crate::converter::sized_i64_to_bools;
use crate::converter::sized_u64_to_bools;
use crate::model::octet_bits;
use crate::model::unsigned_bits;
use crate::model::required_bits;
use crate::model::signed_mag;
use crate::model::sized_i64_bits;
use crate::model::var_u64_bits;
use crate::model::i8_bits;
use crate::model::u8_bits;
use crate::model::i16_bits;
use crate::model::u16_bits;
use crate::model::i32_bits;
use crate::model::u32_bits;
use crate::model::i64_bits;
use crate::model::u64_bits;
use crate::model::i8_seq_bits;
use crate::model::u8_seq_bits;
use crate::model::i16_seq_bits;
use crate::model::u16_seq_bits;
use crate::model::i32_seq_bits;
use crate::model::u32_seq_bits;
use crate::model::lemma_i8_seq_bits_push;
use crate::model::lemma_u8_seq_bits_push;
use crate::model::lemma_i16_seq_bits_push;
use crate::model::lemma_u16_seq_bits_push;
use crate::model::lemma_i32_seq_bits_push;
use crate::model::lemma_u32_seq_bits_push;
use crate::model::lemma_u16_bits_bytes;
use crate::model::lemma_u32_bits_bytes;
use crate::model::lemma_u64_bits_bytes;
use crate::model::lemma_cast_u8_identity;
use crate::model::lemma_octet_bits_of_octet_value;
use crate::model::lemma_octet_value_of_octet_bits;
use crate::model::lemma_octet_bits_len;
use crate::model::lemma_required_bits_bounds;
use crate::model::lemma_required_bits_is;
use crate::model::lemma_required_bits_u64;
use crate::model::lemma_div8_range;
use crate::model::string_bits;
use crate::model::string_marker_bits;
use crate::model::string_payload_bits;
use crate::model::string_delta_width;
use crate::model::delta_bits;
use crate::model::seq_u16_min;
use crate::model::seq_u16_max;
use crate::model::lemma_seq_u16_min_max;
use crate::model::lemma_delta_bits_push;
use crate::model::lemma_required_bits_u16;
use crate::text::utf16_of;
use crate::text::encode_utf16_units;

verus! {

/// Releases spare capacity after a writer or reader is done.
///
/// Relies on `Vec::shrink_to_fit`: it may shrink the allocation but keeps
/// the length and the contents.
#[verifier::external_body]
pub(crate) fn shrink_vec<T>(v: &mut Vec<T>)
    ensures
        final(v)@ == old(v)@,
{
    v.shrink_to_fit();
}

/// The number of bits that `ensure_extra_capacity` is asked for when a
/// group of values is written: saturates instead of overflowing, which at
/// worst asks for too much room.
fn capacity_for(amount: usize, width: usize, extra: usize) -> (r: usize)
    ensures
        amount * width + extra <= usize::MAX ==> r == amount * width + extra,
{
    let product = match amount.checked_mul(width) {
        Some(p) => p,
        None => usize::MAX,
    };
    match product.checked_add(extra) {
        Some(t) => t,
        None => usize::MAX,
    }
}

/// Instances of BitOutput accept a sequence of values and store them as a
/// stream of bits. The order of the calls alone determines the layout: a
/// reader must mirror it call for call. The `direct` variants skip the
/// capacity check and rely on an earlier `ensure_extra_capacity`; checked
/// and direct variants write identical bits.
pub trait BitOutput: Sized {
    /// The stream of bits written so far.
    spec fn bits(&self) -> Seq<bool>;

    /// Internal consistency of this writer.
    spec fn inv(&self) -> bool;

    /// Appends a single bit without checking capacity.
    fn add_direct_bool(&mut self, value: bool)
        requires
            old(self).inv(),
        ensures
            final(self).inv(),
            final(self).bits() == old(self).bits().push(value),
    ;

    /// Appends the eight bits of a signed byte without checking capacity.
    fn add_direct_i8(&mut self, value: i8)
        requires
            old(self).inv(),
        ensures
            final(self).inv(),
            final(self).bits() == old(self).bits() + i8_bits(value),
    ;

    /// Makes room for at least `extra_bools` more bits, so that the direct
    /// variants can be called for that many bits without reallocation
    /// failing. Never changes what has been written.
    fn ensure_extra_capacity(&mut self, extra_bools: usize)
        requires
            old(self).inv(),
        ensures
            final(self).inv(),
            final(self).bits() == old(self).bits(),
    ;

    /// Marks this writer as finished and releases spare resources. The
    /// stream itself is kept.
    fn terminate(&mut self)
        requires
            old(self).inv(),
        ensures
            final(self).inv(),
            final(self).bits() == old(self).bits(),
    ;

    /// Appends the bits of an unsigned byte without checking capacity.
    fn add_direct_u8(&mut self, integer: u8)
        requires
            old(self).inv(),
        ensures
            final(self).inv(),
            final(self).bits() == old(self).bits() + u8_bits(integer),
    {
        proof {
            lemma_cast_u8_identity(integer);
        }
        self.add_direct_i8(#[verifier::truncate] (integer as i8));
    }

    /// Appends the 2 bytes of the value, least significant first, without
    /// checking capacity.
    fn add_direct_i16(&mut self, integer: i16)
        requires
            old(self).inv(),
        ensures
            final(self).inv(),
            final(self).bits() == old(self).bits() + i16_bits(integer),
    {
        self.add_direct_i8(i16_to_i8_1(integer));
        self.add_direct_i8(i16_to_i8_2(integer));
        proof {
            lemma_u16_bits_bytes(integer as u16);
            assert(final(self).bits() =~= old(self).bits() + i16_bits(integer));
        }
    }

    /// Appends the 2 bytes of the value, least significant first, without
    /// checking capacity.
    fn add_direct_u16(&mut self, integer: u16)
        requires
            old(self).inv(),
        ensures
            final(self).inv(),
            final(self).bits() == old(self).bits() + u16_bits(integer),
    {
        self.add_direct_i8(u16_to_i8_1(integer));
        self.add_direct_i8(u16_to_i8_2(integer));
        proof {
            lemma_u16_bits_bytes(integer);
            assert(final(self).bits() =~= old(self).bits() + u16_bits(integer));
        }
    }

    /// Appends the 4 bytes of the value, least significant first, without
    /// checking capacity.
    fn add_direct_i32(&mut self, integer: i32)
        requires
            old(self).inv(),
        ensures
            final(self).inv(),
            final(self).bits() == old(self).bits() + i32_bits(integer),
    {
        self.add_direct_i8(i32_to_i8_1(integer));
        self.add_direct_i8(i32_to_i8_2(integer));
        self.add_direct_i8(i32_to_i8_3(integer));
        self.add_direct_i8(i32_to_i8_4(integer));
        proof {
            lemma_u32_bits_bytes(integer as u32);
            assert(final(self).bits() =~= old(self).bits() + i32_bits(integer));
        }
    }

    /// Appends the 4 bytes of the value, least significant first, without
    /// checking capacity.
    fn add_direct_u32(&mut self, integer: u32)
        requires
            old(self).inv(),
        ensures
            final(self).inv(),
            final(self).bits() == old(self).bits() + u32_bits(integer),
    {
        self.add_direct_i8(u32_to_i8_1(integer));
        self.add_direct_i8(u32_to_i8_2(integer));
        self.add_direct_i8(u32_to_i8_3(integer));
        self.add_direct_i8(u32_to_i8_4(integer));
        proof {
            lemma_u32_bits_bytes(integer);
            assert(final(self).bits() =~= old(self).bits() + u32_bits(integer));
        }
    }

    /// Appends the 8 bytes of the value, least significant first, without
    /// checking capacity.
    #[verifier::rlimit(60)]
    fn add_direct_i64(&mut self, integer: i64)
        requires
            old(self).inv(),
        ensures
            final(self).inv(),
            final(self).bits() == old(self).bits() + i64_bits(integer),
    {
        self.add_direct_i8(i64_to_i8_1(integer));
        self.add_direct_i8(i64_to_i8_2(integer));
        self.add_direct_i8(i64_to_i8_3(integer));
        self.add_direct_i8(i64_to_i8_4(integer));
        self.add_direct_i8(i64_to_i8_5(integer));
        self.add_direct_i8(i64_to_i8_6(integer));
        self.add_direct_i8(i64_to_i8_7(integer));
        self.add_direct_i8(i64_to_i8_8(integer));
        proof {
            lemma_u64_bits_bytes(integer as u64);
            assert(final(self).bits() =~= old(self).bits() + i64_bits(integer));
        }
    }

    /// Appends the 8 bytes of the value, least significant first, without
    /// checking capacity.
    #[verifier::rlimit(60)]
    fn add_direct_u64(&mut self, integer: u64)
        requires
            old(self).inv(),
        ensures
            final(self).inv(),
            final(self).bits() == old(self).bits() + u64_bits(integer),
    {
        self.add_direct_i8(u64_to_i8_1(integer));
        self.add_direct_i8(u64_to_i8_2(integer));
        self.add_direct_i8(u64_to_i8_3(integer));
        self.add_direct_i8(u64_to_i8_4(integer));
        self.add_direct_i8(u64_to_i8_5(integer));
        self.add_direct_i8(u64_to_i8_6(integer));
        self.add_direct_i8(u64_to_i8_7(integer));
        self.add_direct_i8(u64_to_i8_8(integer));
        proof {
            lemma_u64_bits_bytes(integer);
            assert(final(self).bits() =~= old(self).bits() + u64_bits(integer));
        }
    }

    /// Appends one `bool` value, making room first.
    fn add_bool(&mut self, value: bool)
        requires
            old(self).inv(),
        ensures
            final(self).inv(),
            final(self).bits() == old(self).bits().push(value),
    {
        self.ensure_extra_capacity(1);
        self.add_direct_bool(value);
    }

    /// Appends one `i8` value, making room first.
    fn add_i8(&mut self, value: i8)
        requires
            old(self).inv(),
        ensures
            final(self).inv(),
            final(self).bits() == old(self).bits() + i8_bits(value),
    {
        self.ensure_extra_capacity(8);
        self.add_direct_i8(value);
    }

    /// Appends one `u8` value, making room first.
    fn add_u8(&mut self, value: u8)
        requires
            old(self).inv(),
        ensures
            final(self).inv(),
            final(self).bits() == old(self).bits() + u8_bits(value),
    {
        self.ensure_extra_capacity(8);
        self.add_direct_u8(value);
    }

    /// Appends one `i16` value, making room first.
    fn add_i16(&mut self, value: i16)
        requires
            old(self).inv(),
        ensures
            final(self).inv(),
            final(self).bits() == old(self).bits() + i16_bits(value),
    {
        self.ensure_extra_capacity(16);
        self.add_direct_i16(value);
    }

    /// Appends one `u16` value, making room first.
    fn add_u16(&mut self, value: u16)
        requires
            old(self).inv(),
        ensures
            final(self).inv(),
            final(self).bits() == old(self).bits() + u16_bits(value),
    {
        self.ensure_extra_capacity(16);
        self.add_direct_u16(value);
    }

    /// Appends one `i32` value, making room first.
    fn add_i32(&mut self, value: i32)
        requires
            old(self).inv(),
        ensures
            final(self).inv(),
            final(self).bits() == old(self).bits() + i32_bits(value),
    {
        self.ensure_extra_capacity(32);
        self.add_direct_i32(value);
    }

    /// Appends one `u32` value, making room first.
    fn add_u32(&mut self, value: u32)
        requires
            old(self).inv(),
        ensures
            final(self).inv(),
            final(self).bits() == old(self).bits() + u32_bits(value),
    {
        self.ensure_extra_capacity(32);
        self.add_direct_u32(value);
    }

    /// Appends one `i64` value, making room first.
    fn add_i64(&mut self, value: i64)
        requires
            old(self).inv(),
        ensures
            final(self).inv(),
            final(self).bits() == old(self).bits() + i64_bits(value),
    {
        self.ensure_extra_capacity(64);
        self.add_direct_i64(value);
    }

    /// Appends one `u64` value, making room first.
    fn add_u64(&mut self, value: u64)
        requires
            old(self).inv(),
        ensures
            final(self).inv(),
            final(self).bits() == old(self).bits() + u64_bits(value),
    {
        self.ensure_extra_capacity(64);
        self.add_direct_u64(value);
    }

    /// Appends a signed value in exactly `bits` bits, without checking
    /// capacity: a sign bit, then the magnitude, most significant bit
    /// first; a negative value stores `-value - 1`.
    fn add_direct_sized_i64(&mut self, value: i64, bits: usize)
        requires
            old(self).inv(),
            1 <= bits <= 64,
            signed_mag(value) < pow2((bits - 1) as nat),
        ensures
            final(self).inv(),
            final(self).bits() == old(self).bits() + sized_i64_bits(value, bits as nat),
    {
        let mut buffer: Vec<bool> = vec![false; 64];
        sized_i64_to_bools(value, bits, &mut buffer, 0);
        let prefix = vstd::slice::slice_subrange(buffer.as_slice(), 0, bits);
        self.add_direct_bools_from_slice(prefix);
    }

    /// Appends a signed value in exactly `bits` bits, making room first.
    fn add_sized_i64(&mut self, value: i64, bits: usize)
        requires
            old(self).inv(),
            1 <= bits <= 64,
            signed_mag(value) < pow2((bits - 1) as nat),
        ensures
            final(self).inv(),
            final(self).bits() == old(self).bits() + sized_i64_bits(value, bits as nat),
    {
        self.ensure_extra_capacity(bits);
        self.add_direct_sized_i64(value, bits);
    }

    /// Appends an unsigned value in exactly `bits` bits, most significant
    /// bit first, without checking capacity.
    fn add_direct_sized_u64(&mut self, value: u64, bits: usize)
        requires
            old(self).inv(),
            bits <= 64,
            (value as nat) < pow2(bits as nat),
        ensures
            final(self).inv(),
            final(self).bits() == old(self).bits() + unsigned_bits(value as nat, bits as nat),
    {
        let mut buffer: Vec<bool> = vec![false; 64];
        sized_u64_to_bools(value, bits, &mut buffer, 0);
        let prefix = vstd::slice::slice_subrange(buffer.as_slice(), 0, bits);
        self.add_direct_bools_from_slice(prefix);
    }

    /// Appends an unsigned value in exactly `bits` bits, making room first.
    fn add_sized_u64(&mut self, value: u64, bits: usize)
        requires
            old(self).inv(),
            bits <= 64,
            (value as nat) < pow2(bits as nat),
        ensures
            final(self).inv(),
            final(self).bits() == old(self).bits() + unsigned_bits(value as nat, bits as nat),
    {
        self.ensure_extra_capacity(bits);
        self.add_direct_sized_u64(value, bits);
    }

    /// Appends a self-describing unsigned value, without checking capacity:
    /// six bits hold one less than the payload width, then the payload
    /// follows; zero is stored with a single clear payload bit.
    fn add_direct_var_u64(&mut self, value: u64)
        requires
            old(self).inv(),
        ensures
            final(self).inv(),
            final(self).bits() == old(self).bits() + var_u64_bits(value),
    {
        let bits = get_required_bits(value);
        proof {
            lemma_required_bits_u64(value);
            lemma_required_bits_bounds(value as nat);
            vstd::arithmetic::power2::lemma2_to64();
        }
        if bits > 0 {
            self.add_direct_sized_u64((bits - 1) as u64, 6);
            self.add_direct_sized_u64(value, bits as usize);
            proof {
                assert(final(self).bits() =~= old(self).bits() + var_u64_bits(value));
            }
        } else {
            self.add_direct_sized_u64(0, 6);
            self.add_direct_bool(false);
            proof {
                assert(final(self).bits() =~= old(self).bits() + var_u64_bits(value));
            }
        }
    }

    /// Appends a self-describing unsigned value, making room first.
    fn add_var_u64(&mut self, value: u64)
        requires
            old(self).inv(),
        ensures
            final(self).inv(),
            final(self).bits() == old(self).bits() + var_u64_bits(value),
    {
        let bits = get_required_bits(value);
        proof {
            lemma_required_bits_u64(value);
            lemma_required_bits_bounds(value as nat);
            vstd::arithmetic::power2::lemma2_to64();
        }
        if bits > 0 {
            self.ensure_extra_capacity(6 + bits as usize);
            self.add_direct_sized_u64((bits - 1) as u64, 6);
            self.add_direct_sized_u64(value, bits as usize);
            proof {
                assert(final(self).bits() =~= old(self).bits() + var_u64_bits(value));
            }
        } else {
            self.ensure_extra_capacity(7);
            self.add_direct_sized_u64(0, 6);
            self.add_direct_bool(false);
            proof {
                assert(final(self).bits() =~= old(self).bits() + var_u64_bits(value));
            }
        }
    }

    /// Appends every value of the group, in order, without storing how many
    /// there are and without checking capacity.
    fn add_direct_bools_from_slice(&mut self, values: &[bool])
        requires
            old(self).inv(),
        ensures
            final(self).inv(),
            final(self).bits() == old(self).bits() + values@,
    {
        let n = values.len();
        let mut index: usize = 0;
        proof {
            assert(values@.subrange(0, 0) =~= Seq::<bool>::empty());
        }
        while index < n
            invariant
                self.inv(),
                n == values@.len(),
                index <= n,
                self.bits() == old(self).bits() + values@.subrange(0, index as int),
            decreases n - index,
        {
            self.add_direct_bool(values[index]);
            index += 1;
            proof {
                assert(values@.subrange(0, index as int) =~= values@.subrange(0, index - 1).push(
                    values@[index - 1],
                ));
            }
        }
        proof {
            assert(values@.subrange(0, n as int) =~= values@);
        }
    }

    /// Appends every value of the group, in order, without storing how many
    /// there are and without checking capacity.
    fn add_direct_bools_from_vec(&mut self, values: &Vec<bool>)
        requires
            old(self).inv(),
        ensures
            final(self).inv(),
            final(self).bits() == old(self).bits() + values@,
    {
        let n = values.len();
        let mut index: usize = 0;
        proof {
            assert(values@.subrange(0, 0) =~= Seq::<bool>::empty());
        }
        while index < n
            invariant
                self.inv(),
                n == values@.len(),
                index <= n,
                self.bits() == old(self).bits() + values@.subrange(0, index as int),
            decreases n - index,
        {
            self.add_direct_bool(values[index]);
            index += 1;
            proof {
                assert(values@.subrange(0, index as int) =~= values@.subrange(0, index - 1).push(
                    values@[index - 1],
                ));
            }
        }
        proof {
            assert(values@.subrange(0, n as int) =~= values@);
        }
    }

    /// Appends the values at `start_index` up to `start_index + amount`,
    /// in order, without checking capacity.
    fn add_direct_some_bools_from_slice(&mut self, values: &[bool], start_index: usize, amount: usize)
        requires
            old(self).inv(),
            start_index + amount <= values@.len(),
        ensures
            final(self).inv(),
            final(self).bits() == old(self).bits() + values@.subrange(start_index as int, start_index + amount),
    {
        let total = values.len();
        let bound_index = start_index + amount;
        let mut index: usize = start_index;
        proof {
            assert(values@.subrange(start_index as int, start_index as int) =~= Seq::<bool>::empty());
        }
        while index < bound_index
            invariant
                self.inv(),
                start_index <= index <= bound_index,
                bound_index == start_index + amount,
                total == values@.len(),
                bound_index <= values@.len(),
                self.bits() == old(self).bits() + values@.subrange(start_index as int, index as int),
            decreases bound_index - index,
        {
            self.add_direct_bool(values[index]);
            index += 1;
            proof {
                assert(values@.subrange(start_index as int, index as int) =~= values@.subrange(
                    start_index as int,
                    index - 1,
                ).push(values@[index - 1]));
            }
        }
    }

    /// Appends the values at `start_index` up to `start_index + amount`,
    /// in order, without checking capacity.
    fn add_direct_some_bools_from_vec(&mut self, values: &Vec<bool>, start_index: usize, amount: usize)
        requires
            old(self).inv(),
            start_index + amount <= values@.len(),
        ensures
            final(self).inv(),
            final(self).bits() == old(self).bits() + values@.subrange(start_index as int, start_index + amount),
    {
        let total = values.len();
        let bound_index = start_index + amount;
        let mut index: usize = start_index;
        proof {
            assert(values@.subrange(start_index as int, start_index as int) =~= Seq::<bool>::empty());
        }
        while index < bound_index
            invariant
                self.inv(),
                start_index <= index <= bound_index,
                bound_index == start_index + amount,
                total == values@.len(),
                bound_index <= values@.len(),
                self.bits() == old(self).bits() + values@.subrange(start_index as int, index as int),
            decreases bound_index - index,
        {
            self.add_direct_bool(values[index]);
            index += 1;
            proof {
                assert(values@.subrange(start_index as int, index as int) =~= values@.subrange(
                    start_index as int,
                    index - 1,
                ).push(values@[index - 1]));
            }
        }
    }

    /// Appends the number of values as a 32-bit integer, then every value,
    /// without checking capacity.
    fn add_direct_bool_slice(&mut self, values: &[bool])
        requires
            old(self).inv(),
            values@.len() <= 2147483647,
        ensures
            final(self).inv(),
            final(self).bits() == old(self).bits() + i32_bits(values@.len() as i32) + values@,
    {
        self.add_direct_i32(values.len() as i32);
        self.add_direct_bools_from_slice(values);
    }

    /// Appends the number of values as a 32-bit integer, then every value,
    /// without checking capacity.
    fn add_direct_bool_vec(&mut self, values: &Vec<bool>)
        requires
            old(self).inv(),
            values@.len() <= 2147483647,
        ensures
            final(self).inv(),
            final(self).bits() == old(self).bits() + i32_bits(values@.len() as i32) + values@,
    {
        self.add_direct_i32(values.len() as i32);
        self.add_direct_bools_from_vec(values);
    }

    /// Appends every value of the group, in order, making room once first.
    fn add_bools_from_slice(&mut self, values: &[bool])
        requires
            old(self).inv(),
        ensures
            final(self).inv(),
            final(self).bits() == old(self).bits() + values@,
    {
        self.ensure_extra_capacity(values.len());
        self.add_direct_bools_from_slice(values);
    }

    /// Appends every value of the group, in order, making room once first.
    fn add_bools_from_vec(&mut self, values: &Vec<bool>)
        requires
            old(self).inv(),
        ensures
            final(self).inv(),
            final(self).bits() == old(self).bits() + values@,
    {
        self.ensure_extra_capacity(values.len());
        self.add_direct_bools_from_vec(values);
    }

    /// Appends the values at `start_index` up to `start_index + amount`,
    /// making room once first.
    fn add_some_bools_from_slice(&mut self, values: &[bool], start_index: usize, amount: usize)
        requires
            old(self).inv(),
            start_index + amount <= values@.len(),
        ensures
            final(self).inv(),
            final(self).bits() == old(self).bits() + values@.subrange(start_index as int, start_index + amount),
    {
        self.ensure_extra_capacity(amount);
        self.add_direct_some_bools_from_slice(values, start_index, amount);
    }

    /// Appends the values at `start_index` up to `start_index + amount`,
    /// making room once first.
    fn add_some_bools_from_vec(&mut self, values: &Vec<bool>, start_index: usize, amount: usize)
        requires
            old(self).inv(),
            start_index + amount <= values@.len(),
        ensures
            final(self).inv(),
            final(self).bits() == old(self).bits() + values@.subrange(start_index as int, start_index + amount),
    {
        self.ensure_extra_capacity(amount);
        self.add_direct_some_bools_from_vec(values, start_index, amount);
    }

    /// Appends the number of values as a 32-bit integer, then every value,
    /// making room once first.
    fn add_bool_slice(&mut self, values: &[bool])
        requires
            old(self).inv(),
            values@.len() <= 2147483647,
        ensures
            final(self).inv(),
            final(self).bits() == old(self).bits() + i32_bits(values@.len() as i32) + values@,
    {
        self.ensure_extra_capacity(capacity_for(values.len(), 1, 32));
        self.add_direct_bool_slice(values);
    }

    /// Appends the number of values as a 32-bit integer, then every value,
    /// making room once first.
    fn add_bool_vec(&mut self, values: &Vec<bool>)
        requires
            old(self).inv(),
            values@.len() <= 2147483647,
        ensures
            final(self).inv(),
            final(self).bits() == old(self).bits() + i32_bits(values@.len() as i32) + values@,
    {
        self.ensure_extra_capacity(capacity_for(values.len(), 1, 32));
        self.add_direct_bool_vec(values);
    }

    /// Appends every value of the group, in order, without storing how many
    /// there are and without checking capacity.
    fn add_direct_i8s_from_slice(&mut self, values: &[i8])
        requires
            old(self).inv(),
        ensures
            final(self).inv(),
            final(self).bits() == old(self).bits() + i8_seq_bits(values@),
    {
        let n = values.len();
        let mut index: usize = 0;
        proof {
            assert(values@.subrange(0, 0) =~= Seq::<i8>::empty());
        }
        while index < n
            invariant
                self.inv(),
                n == values@.len(),
                index <= n,
                self.bits() == old(self).bits() + i8_seq_bits(values@.subrange(0, index as int)),
            decreases n - index,
        {
            self.add_direct_i8(values[index]);
            index += 1;
            proof {
                assert(values@.subrange(0, index as int) =~= values@.subrange(0, index - 1).push(
                    values@[index - 1],
                ));
                lemma_i8_seq_bits_push(values@.subrange(0, index - 1), values@[index - 1]);
            }
        }
        proof {
            assert(values@.subrange(0, n as int) =~= values@);
        }
    }

    /// Appends every value of the group, in order, without storing how many
    /// there are and without checking capacity.
    fn add_direct_i8s_from_vec(&mut self, values: &Vec<i8>)
        requires
            old(self).inv(),
        ensures
            final(self).inv(),
            final(self).bits() == old(self).bits() + i8_seq_bits(values@),
    {
        let n = values.len();
        let mut index: usize = 0;
        proof {
            assert(values@.subrange(0, 0) =~= Seq::<i8>::empty());
        }
        while index < n
            invariant
                self.inv(),
                n == values@.len(),
                index <= n,
                self.bits() == old(self).bits() + i8_seq_bits(values@.subrange(0, index as int)),
            decreases n - index,
        {
            self.add_direct_i8(values[index]);
            index += 1;
            proof {
                assert(values@.subrange(0, index as int) =~= values@.subrange(0, index - 1).push(
                    values@[index - 1],
                ));
                lemma_i8_seq_bits_push(values@.subrange(0, index - 1), values@[index - 1]);
            }
        }
        proof {
            assert(values@.subrange(0, n as int) =~= values@);
        }
    }

    /// Appends the values at `start_index` up to `start_index + amount`,
    /// in order, without checking capacity.
    fn add_direct_some_i8s_from_slice(&mut self, values: &[i8], start_index: usize, amount: usize)
        requires
            old(self).inv(),
            start_index + amount <= values@.len(),
        ensures
            final(self).inv(),
            final(self).bits() == old(self).bits() + i8_seq_bits(values@.subrange(start_index as int, start_index + amount)),
    {
        let total = values.len();
        let bound_index = start_index + amount;
        let mut index: usize = start_index;
        proof {
            assert(values@.subrange(start_index as int, start_index as int) =~= Seq::<i8>::empty());
        }
        while index < bound_index
            invariant
                self.inv(),
                start_index <= index <= bound_index,
                bound_index == start_index + amount,
                total == values@.len(),
                bound_index <= values@.len(),
                self.bits() == old(self).bits() + i8_seq_bits(values@.subrange(start_index as int, index as int)),
            decreases bound_index - index,
        {
            self.add_direct_i8(values[index]);
            index += 1;
            proof {
                assert(values@.subrange(start_index as int, index as int) =~= values@.subrange(
                    start_index as int,
                    index - 1,
                ).push(values@[index - 1]));
                lemma_i8_seq_bits_push(values@.subrange(start_index as int, index - 1), values@[index - 1]);
            }
        }
    }

    /// Appends the values at `start_index` up to `start_index + amount`,
    /// in order, without checking capacity.
    fn add_direct_some_i8s_from_vec(&mut self, values: &Vec<i8>, start_index: usize, amount: usize)
        requires
            old(self).inv(),
            start_index + amount <= values@.len(),
        ensures
            final(self).inv(),
            final(self).bits() == old(self).bits() + i8_seq_bits(values@.subrange(start_index as int, start_index + amount)),
    {
        let total = values.len();
        let bound_index = start_index + amount;
        let mut index: usize = start_index;
        proof {
            assert(values@.subrange(start_index as int, start_index as int) =~= Seq::<i8>::empty());
        }
        while index < bound_index
            invariant
                self.inv(),
                start_index <= index <= bound_index,
                bound_index == start_index + amount,
                total == values@.len(),
                bound_index <= values@.len(),
                self.bits() == old(self).bits() + i8_seq_bits(values@.subrange(start_index as int, index as int)),
            decreases bound_index - index,
        {
            self.add_direct_i8(values[index]);
            index += 1;
            proof {
                assert(values@.subrange(start_index as int, index as int) =~= values@.subrange(
                    start_index as int,
                    index - 1,
                ).push(values@[index - 1]));
                lemma_i8_seq_bits_push(values@.subrange(start_index as int, index - 1), values@[index - 1]);
            }
        }
    }

    /// Appends the number of values as a 32-bit integer, then every value,
    /// without checking capacity.
    fn add_direct_i8_slice(&mut self, values: &[i8])
        requires
            old(self).inv(),
            values@.len() <= 2147483647,
        ensures
            final(self).inv(),
            final(self).bits() == old(self).bits() + i32_bits(values@.len() as i32) + i8_seq_bits(values@),
    {
        self.add_direct_i32(values.len() as i32);
        self.add_direct_i8s_from_slice(values);
    }

    /// Appends the number of values as a 32-bit integer, then every value,
    /// without checking capacity.
    fn add_direct_i8_vec(&mut self, values: &Vec<i8>)
        requires
            old(self).inv(),
            values@.len() <= 2147483647,
        ensures
            final(self).inv(),
            final(self).bits() == old(self).bits() + i32_bits(values@.len() as i32) + i8_seq_bits(values@),
    {
        self.add_direct_i32(values.len() as i32);
        self.add_direct_i8s_from_vec(values);
    }

    /// Appends every value of the group, in order, making room once first.
    fn add_i8s_from_slice(&mut self, values: &[i8])
        requires
            old(self).inv(),
        ensures
            final(self).inv(),
            final(self).bits() == old(self).bits() + i8_seq_bits(values@),
    {
        self.ensure_extra_capacity(capacity_for(values.len(), 8, 0));
        self.add_direct_i8s_from_slice(values);
    }

    /// Appends every value of the group, in order, making room once first.
    fn add_i8s_from_vec(&mut self, values: &Vec<i8>)
        requires
            old(self).inv(),
        ensures
            final(self).inv(),
            final(self).bits() == old(self).bits() + i8_seq_bits(values@),
    {
        self.ensure_extra_capacity(capacity_for(values.len(), 8, 0));
        self.add_direct_i8s_from_vec(values);
    }

    /// Appends the values at `start_index` up to `start_index + amount`,
    /// making room once first.
    fn add_some_i8s_from_slice(&mut self, values: &[i8], start_index: usize, amount: usize)
        requires
            old(self).inv(),
            start_index + amount <= values@.len(),
        ensures
            final(self).inv(),
            final(self).bits() == old(self).bits() + i8_seq_bits(values@.subrange(start_index as int, start_index + amount)),
    {
        self.ensure_extra_capacity(capacity_for(amount, 8, 0));
        self.add_direct_some_i8s_from_slice(values, start_index, amount);
    }

    /// Appends the values at `start_index` up to `start_index + amount`,
    /// making room once first.
    fn add_some_i8s_from_vec(&mut self, values: &Vec<i8>, start_index: usize, amount: usize)
        requires
            old(self).inv(),
            start_index + amount <= values@.len(),
        ensures
            final(self).inv(),
            final(self).bits() == old(self).bits() + i8_seq_bits(values@.subrange(start_index as int, start_index + amount)),
    {
        self.ensure_extra_capacity(capacity_for(amount, 8, 0));
        self.add_direct_some_i8s_from_vec(values, start_index, amount);
    }

    /// Appends the number of values as a 32-bit integer, then every value,
    /// making room once first.
    fn add_i8_slice(&mut self, values: &[i8])
        requires
            old(self).inv(),
            values@.len() <= 2147483647,
        ensures
            final(self).inv(),
            final(self).bits() == old(self).bits() + i32_bits(values@.len() as i32) + i8_seq_bits(values@),
    {
        self.ensure_extra_capacity(capacity_for(values.len(), 8, 32));
        self.add_direct_i8_slice(values);
    }

    /// Appends the number of values as a 32-bit integer, then every value,
    /// making room once first.
    fn add_i8_vec(&mut self, values: &Vec<i8>)
        requires
            old(self).inv(),
            values@.len() <= 2147483647,
        ensures
            final(self).inv(),
            final(self).bits() == old(self).bits() + i32_bits(values@.len() as i32) + i8_seq_bits(values@),
    {
        self.ensure_extra_capacity(capacity_for(values.len(), 8, 32));
        self.add_direct_i8_vec(values);
    }

    /// Appends every value of the group, in order, without storing how many
    /// there are and without checking capacity.
    fn add_direct_i16s_from_slice(&mut self, values: &[i16])
        requires
            old(self).inv(),
        ensures
            final(self).inv(),
            final(self).bits() == old(self).bits() + i16_seq_bits(values@),
    {
        let n = values.len();
        let mut index: usize = 0;
        proof {
            assert(values@.subrange(0, 0) =~= Seq::<i16>::empty());
        }
        while index < n
            invariant
                self.inv(),
                n == values@.len(),
                index <= n,
                self.bits() == old(self).bits() + i16_seq_bits(values@.subrange(0, index as int)),
            decreases n - index,
        {
            self.add_direct_i16(values[index]);
            index += 1;
            proof {
                assert(values@.subrange(0, index as int) =~= values@.subrange(0, index - 1).push(
                    values@[index - 1],
                ));
                lemma_i16_seq_bits_push(values@.subrange(0, index - 1), values@[index - 1]);
            }
        }
        proof {
            assert(values@.subrange(0, n as int) =~= values@);
        }
    }

    /// Appends every value of the group, in order, without storing how many
    /// there are and without checking capacity.
    fn add_direct_i16s_from_vec(&mut self, values: &Vec<i16>)
        requires
            old(self).inv(),
        ensures
            final(self).inv(),
            final(self).bits() == old(self).bits() + i16_seq_bits(values@),
    {
        let n = values.len();
        let mut index: usize = 0;
        proof {
            assert(values@.subrange(0, 0) =~= Seq::<i16>::empty());
        }
        while index < n
            invariant
                self.inv(),
                n == values@.len(),
                index <= n,
                self.bits() == old(self).bits() + i16_seq_bits(values@.subrange(0, index as int)),
            decreases n - index,
        {
            self.add_direct_i16(values[index]);
            index += 1;
            proof {
                assert(values@.subrange(0, index as int) =~= values@.subrange(0, index - 1).push(
                    values@[index - 1],
                ));
                lemma_i16_seq_bits_push(values@.subrange(0, index - 1), values@[index - 1]);
            }
        }
        proof {
            assert(values@.subrange(0, n as int) =~= values@);
        }
    }

    /// Appends the values at `start_index` up to `start_index + amount`,
    /// in order, without checking capacity.
    fn add_direct_some_i16s_from_slice(&mut self, values: &[i16], start_index: usize, amount: usize)
        requires
            old(self).inv(),
            start_index + amount <= values@.len(),
        ensures
            final(self).inv(),
            final(self).bits() == old(self).bits() + i16_seq_bits(values@.subrange(start_index as int, start_index + amount)),
    {
        let total = values.len();
        let bound_index = start_index + amount;
        let mut index: usize = start_index;
        proof {
            assert(values@.subrange(start_index as int, start_index as int) =~= Seq::<i16>::empty());
        }
        while index < bound_index
            invariant
                self.inv(),
                start_index <= index <= bound_index,
                bound_index == start_index + amount,
                total == values@.len(),
                bound_index <= values@.len(),
                self.bits() == old(self).bits() + i16_seq_bits(values@.subrange(start_index as int, index as int)),
            decreases bound_index - index,
        {
            self.add_direct_i16(values[index]);
            index += 1;
            proof {
                assert(values@.subrange(start_index as int, index as int) =~= values@.subrange(
                    start_index as int,
                    index - 1,
                ).push(values@[index - 1]));
                lemma_i16_seq_bits_push(values@.subrange(start_index as int, index - 1), values@[index - 1]);
            }
        }
    }

    /// Appends the values at `start_index` up to `start_index + amount`,
    /// in order, without checking capacity.
    fn add_direct_some_i16s_from_vec(&mut self, values: &Vec<i16>, start_index: usize, amount: usize)
        requires
            old(self).inv(),
            start_index + amount <= values@.len(),
        ensures
            final(self).inv(),
            final(self).bits() == old(self).bits() + i16_seq_bits(values@.subrange(start_index as int, start_index + amount)),
    {
        let total = values.len();
        let bound_index = start_index + amount;
        let mut index: usize = start_index;
        proof {
            assert(values@.subrange(start_index as int, start_index as int) =~= Seq::<i16>::empty());
        }
        while index < bound_index
            invariant
                self.inv(),
                start_index <= index <= bound_index,
                bound_index == start_index + amount,
                total == values@.len(),
                bound_index <= values@.len(),
                self.bits() == old(self).bits() + i16_seq_bits(values@.subrange(start_index as int, index as int)),
            decreases bound_index - index,
        {
            self.add_direct_i16(values[index]);
            index += 1;
            proof {
                assert(values@.subrange(start_index as int, index as int) =~= values@.subrange(
                    start_index as int,
                    index - 1,
                ).push(values@[index - 1]));
                lemma_i16_seq_bits_push(values@.subrange(start_index as int, index - 1), values@[index - 1]);
            }
        }
    }

    /// Appends the number of values as a 32-bit integer, then every value,
    /// without checking capacity.
    fn add_direct_i16_slice(&mut self, values: &[i16])
        requires
            old(self).inv(),
            values@.len() <= 2147483647,
        ensures
            final(self).inv(),
            final(self).bits() == old(self).bits() + i32_bits(values@.len() as i32) + i16_seq_bits(values@),
    {
        self.add_direct_i32(values.len() as i32);
        self.add_direct_i16s_from_slice(values);
    }

    /// Appends the number of values as a 32-bit integer, then every value,
    /// without checking capacity.
    fn add_direct_i16_vec(&mut self, values: &Vec<i16>)
        requires
            old(self).inv(),
            values@.len() <= 2147483647,
        ensures
            final(self).inv(),
            final(self).bits() == old(self).bits() + i32_bits(values@.len() as i32) + i16_seq_bits(values@),
    {
        self.add_direct_i32(values.len() as i32);
        self.add_direct_i16s_from_vec(values);
    }

    /// Appends every value of the group, in order, making room once first.
    fn add_i16s_from_slice(&mut self, values: &[i16])
        requires
            old(self).inv(),
        ensures
            final(self).inv(),
            final(self).bits() == old(self).bits() + i16_seq_bits(values@),
    {
        self.ensure_extra_capacity(capacity_for(values.len(), 16, 0));
        self.add_direct_i16s_from_slice(values);
    }

    /// Appends every value of the group, in order, making room once first.
    fn add_i16s_from_vec(&mut self, values: &Vec<i16>)
        requires
            old(self).inv(),
        ensures
            final(self).inv(),
            final(self).bits() == old(self).bits() + i16_seq_bits(values@),
    {
        self.ensure_extra_capacity(capacity_for(values.len(), 16, 0));
        self.add_direct_i16s_from_vec(values);
    }

    /// Appends the values at `start_index` up to `start_index + amount`,
    /// making room once first.
    fn add_some_i16s_from_slice(&mut self, values: &[i16], start_index: usize, amount: usize)
        requires
            old(self).inv(),
            start_index + amount <= values@.len(),
        ensures
            final(self).inv(),
            final(self).bits() == old(self).bits() + i16_seq_bits(values@.subrange(start_index as int, start_index + amount)),
    {
        self.ensure_extra_capacity(capacity_for(amount, 16, 0));
        self.add_direct_some_i16s_from_slice(values, start_index, amount);
    }

    /// Appends the values at `start_index` up to `start_index + amount`,
    /// making room once first.
    fn add_some_i16s_from_vec(&mut self, values: &Vec<i16>, start_index: usize, amount: usize)
        requires
            old(self).inv(),
            start_index + amount <= values@.len(),
        ensures
            final(self).inv(),
            final(self).bits() == old(self).bits() + i16_seq_bits(values@.subrange(start_index as int, start_index + amount)),
    {
        self.ensure_extra_capacity(capacity_for(amount, 16, 0));
        self.add_direct_some_i16s_from_vec(values, start_index, amount);
    }

    /// Appends the number of values as a 32-bit integer, then every value,
    /// making room once first.
    fn add_i16_slice(&mut self, values: &[i16])
        requires
            old(self).inv(),
            values@.len() <= 2147483647,
        ensures
            final(self).inv(),
            final(self).bits() == old(self).bits() + i32_bits(values@.len() as i32) + i16_seq_bits(values@),
    {
        self.ensure_extra_capacity(capacity_for(values.len(), 16, 32));
        self.add_direct_i16_slice(values);
    }

    /// Appends the number of values as a 32-bit integer, then every value,
    /// making room once first.
    fn add_i16_vec(&mut self, values: &Vec<i16>)
        requires
            old(self).inv(),
            values@.len() <= 2147483647,
        ensures
            final(self).inv(),
            final(self).bits() == old(self).bits() + i32_bits(values@.len() as i32) + i16_seq_bits(values@),
    {
        self.ensure_extra_capacity(capacity_for(values.len(), 16, 32));
        self.add_direct_i16_vec(values);
    }

    /// Appends every value of the group, in order, without storing how many
    /// there are and without checking capacity.
    fn add_direct_i32s_from_slice(&mut self, values: &[i32])
        requires
            old(self).inv(),
        ensures
            final(self).inv(),
            final(self).bits() == old(self).bits() + i32_seq_bits(values@),
    {
        let n = values.len();
        let mut index: usize = 0;
        proof {
            assert(values@.subrange(0, 0) =~= Seq::<i32>::empty());
        }
        while index < n
            invariant
                self.inv(),
                n == values@.len(),
                index <= n,
                self.bits() == old(self).bits() + i32_seq_bits(values@.subrange(0, index as int)),
            decreases n - index,
        {
            self.add_direct_i32(values[index]);
            index += 1;
            proof {
                assert(values@.subrange(0, index as int) =~= values@.subrange(0, index - 1).push(
                    values@[index - 1],
                ));
                lemma_i32_seq_bits_push(values@.subrange(0, index - 1), values@[index - 1]);
            }
        }
        proof {
            assert(values@.subrange(0, n as int) =~= values@);
        }
    }

    /// Appends every value of the group, in order, without storing how many
    /// there are and without checking capacity.
    fn add_direct_i32s_from_vec(&mut self, values: &Vec<i32>)
        requires
            old(self).inv(),
        ensures
            final(self).inv(),
            final(self).bits() == old(self).bits() + i32_seq_bits(values@),
    {
        let n = values.len();
        let mut index: usize = 0;
        proof {
            assert(values@.subrange(0, 0) =~= Seq::<i32>::empty());
        }
        while index < n
            invariant
                self.inv(),
                n == values@.len(),
                index <= n,
                self.bits() == old(self).bits() + i32_seq_bits(values@.subrange(0, index as int)),
            decreases n - index,
        {
            self.add_direct_i32(values[index]);
            index += 1;
            proof {
                assert(values@.subrange(0, index as int) =~= values@.subrange(0, index - 1).push(
                    values@[index - 1],
                ));
                lemma_i32_seq_bits_push(values@.subrange(0, index - 1), values@[index - 1]);
            }
        }
        proof {
            assert(values@.subrange(0, n as int) =~= values@);
        }
    }

    /// Appends the values at `start_index` up to `start_index + amount`,
    /// in order, without checking capacity.
    fn add_direct_some_i32s_from_slice(&mut self, values: &[i32], start_index: usize, amount: usize)
        requires
            old(self).inv(),
            start_index + amount <= values@.len(),
        ensures
            final(self).inv(),
            final(self).bits() == old(self).bits() + i32_seq_bits(values@.subrange(start_index as int, start_index + amount)),
    {
        let total = values.len();
        let bound_index = start_index + amount;
        let mut index: usize = start_index;
        proof {
            assert(values@.subrange(start_index as int, start_index as int) =~= Seq::<i32>::empty());
        }
        while index < bound_index
            invariant
                self.inv(),
                start_index <= index <= bound_index,
                bound_index == start_index + amount,
                total == values@.len(),
                bound_index <= values@.len(),
                self.bits() == old(self).bits() + i32_seq_bits(values@.subrange(start_index as int, index as int)),
            decreases bound_index - index,
        {
            self.add_direct_i32(values[index]);
            index += 1;
            proof {
                assert(values@.subrange(start_index as int, index as int) =~= values@.subrange(
                    start_index as int,
                    index - 1,
                ).push(values@[index - 1]));
                lemma_i32_seq_bits_push(values@.subrange(start_index as int, index - 1), values@[index - 1]);
            }
        }
    }

    /// Appends the values at `start_index` up to `start_index + amount`,
    /// in order, without checking capacity.
    fn add_direct_some_i32s_from_vec(&mut self, values: &Vec<i32>, start_index: usize, amount: usize)
        requires
            old(self).inv(),
            start_index + amount <= values@.len(),
        ensures
            final(self).inv(),
            final(self).bits() == old(self).bits() + i32_seq_bits(values@.subrange(start_index as int, start_index + amount)),
    {
        let total = values.len();
        let bound_index = start_index + amount;
        let mut index: usize = start_index;
        proof {
            assert(values@.subrange(start_index as int, start_index as int) =~= Seq::<i32>::empty());
        }
        while index < bound_index
            invariant
                self.inv(),
                start_index <= index <= bound_index,
                bound_index == start_index + amount,
                total == values@.len(),
                bound_index <= values@.len(),
                self.bits() == old(self).bits() + i32_seq_bits(values@.subrange(start_index as int, index as int)),
            decreases bound_index - index,
        {
            self.add_direct_i32(values[index]);
            index += 1;
            proof {
                assert(values@.subrange(start_index as int, index as int) =~= values@.subrange(
                    start_index as int,
                    index - 1,
                ).push(values@[index - 1]));
                lemma_i32_seq_bits_push(values@.subrange(start_index as int, index - 1), values@[index - 1]);
            }
        }
    }

    /// Appends the number of values as a 32-bit integer, then every value,
    /// without checking capacity.
    fn add_direct_i32_slice(&mut self, values: &[i32])
        requires
            old(self).inv(),
            values@.len() <= 2147483647,
        ensures
            final(self).inv(),
            final(self).bits() == old(self).bits() + i32_bits(values@.len() as i32) + i32_seq_bits(values@),
    {
        self.add_direct_i32(values.len() as i32);
        self.add_direct_i32s_from_slice(values);
    }

    /// Appends the number of values as a 32-bit integer, then every value,
    /// without checking capacity.
    fn add_direct_i32_vec(&mut self, values: &Vec<i32>)
        requires
            old(self).inv(),
            values@.len() <= 2147483647,
        ensures
            final(self).inv(),
            final(self).bits() == old(self).bits() + i32_bits(values@.len() as i32) + i32_seq_bits(values@),
    {
        self.add_direct_i32(values.len() as i32);
        self.add_direct_i32s_from_vec(values);
    }

    /// Appends every value of the group, in order, making room once first.
    fn add_i32s_from_slice(&mut self, values: &[i32])
        requires
            old(self).inv(),
        ensures
            final(self).inv(),
            final(self).bits() == old(self).bits() + i32_seq_bits(values@),
    {
        self.ensure_extra_capacity(capacity_for(values.len(), 32, 0));
        self.add_direct_i32s_from_slice(values);
    }

    /// Appends every value of the group, in order, making room once first.
    fn add_i32s_from_vec(&mut self, values: &Vec<i32>)
        requires
            old(self).inv(),
        ensures
            final(self).inv(),
            final(self).bits() == old(self).bits() + i32_seq_bits(values@),
    {
        self.ensure_extra_capacity(capacity_for(values.len(), 32, 0));
        self.add_direct_i32s_from_vec(values);
    }

    /// Appends the values at `start_index` up to `start_index + amount`,
    /// making room once first.
    fn add_some_i32s_from_slice(&mut self, values: &[i32], start_index: usize, amount: usize)
        requires
            old(self).inv(),
            start_index + amount <= values@.len(),
        ensures
            final(self).inv(),
            final(self).bits() == old(self).bits() + i32_seq_bits(values@.subrange(start_index as int, start_index + amount)),
    {
        self.ensure_extra_capacity(capacity_for(amount, 32, 0));
        self.add_direct_some_i32s_from_slice(values, start_index, amount);
    }

    /// Appends the values at `start_index` up to `start_index + amount`,
    /// making room once first.
    fn add_some_i32s_from_vec(&mut self, values: &Vec<i32>, start_index: usize, amount: usize)
        requires
            old(self).inv(),
            start_index + amount <= values@.len(),
        ensures
            final(self).inv(),
            final(self).bits() == old(self).bits() + i32_seq_bits(values@.subrange(start_index as int, start_index + amount)),
    {
        self.ensure_extra_capacity(capacity_for(amount, 32, 0));
        self.add_direct_some_i32s_from_vec(values, start_index, amount);
    }

    /// Appends the number of values as a 32-bit integer, then every value,
    /// making room once first.
    fn add_i32_slice(&mut self, values: &[i32])
        requires
            old(self).inv(),
            values@.len() <= 2147483647,
        ensures
            final(self).inv(),
            final(self).bits() == old(self).bits() + i32_bits(values@.len() as i32) + i32_seq_bits(values@),
    {
        self.ensure_extra_capacity(capacity_for(values.len(), 32, 32));
        self.add_direct_i32_slice(values);
    }

    /// Appends the number of values as a 32-bit integer, then every value,
    /// making room once first.
    fn add_i32_vec(&mut self, values: &Vec<i32>)
        requires
            old(self).inv(),
            values@.len() <= 2147483647,
        ensures
            final(self).inv(),
            final(self).bits() == old(self).bits() + i32_bits(values@.len() as i32) + i32_seq_bits(values@),
    {
        self.ensure_extra_capacity(capacity_for(values.len(), 32, 32));
        self.add_direct_i32_vec(values);
    }

    /// Appends every value of the group, in order, without storing how many
    /// there are and without checking capacity.
    fn add_direct_u8s_from_slice(&mut self, values: &[u8])
        requires
            old(self).inv(),
        ensures
            final(self).inv(),
            final(self).bits() == old(self).bits() + u8_seq_bits(values@),
    {
        let n = values.len();
        let mut index: usize = 0;
        proof {
            assert(values@.subrange(0, 0) =~= Seq::<u8>::empty());
        }
        while index < n
            invariant
                self.inv(),
                n == values@.len(),
                index <= n,
                self.bits() == old(self).bits() + u8_seq_bits(values@.subrange(0, index as int)),
            decreases n - index,
        {
            self.add_direct_u8(values[index]);
            index += 1;
            proof {
                assert(values@.subrange(0, index as int) =~= values@.subrange(0, index - 1).push(
                    values@[index - 1],
                ));
                lemma_u8_seq_bits_push(values@.subrange(0, index - 1), values@[index - 1]);
            }
        }
        proof {
            assert(values@.subrange(0, n as int) =~= values@);
        }
    }

    /// Appends every value of the group, in order, without storing how many
    /// there are and without checking capacity.
    fn add_direct_u8s_from_vec(&mut self, values: &Vec<u8>)
        requires
            old(self).inv(),
        ensures
            final(self).inv(),
            final(self).bits() == old(self).bits() + u8_seq_bits(values@),
    {
        let n = values.len();
        let mut index: usize = 0;
        proof {
            assert(values@.subrange(0, 0) =~= Seq::<u8>::empty());
        }
        while index < n
            invariant
                self.inv(),
                n == values@.len(),
                index <= n,
                self.bits() == old(self).bits() + u8_seq_bits(values@.subrange(0, index as int)),
            decreases n - index,
        {
            self.add_direct_u8(values[index]);
            index += 1;
            proof {
                assert(values@.subrange(0, index as int) =~= values@.subrange(0, index - 1).push(
                    values@[index - 1],
                ));
                lemma_u8_seq_bits_push(values@.subrange(0, index - 1), values@[index - 1]);
            }
        }
        proof {
            assert(values@.subrange(0, n as int) =~= values@);
        }
    }

    /// Appends the values at `start_index` up to `start_index + amount`,
    /// in order, without checking capacity.
    fn add_direct_some_u8s_from_slice(&mut self, values: &[u8], start_index: usize, amount: usize)
        requires
            old(self).inv(),
            start_index + amount <= values@.len(),
        ensures
            final(self).inv(),
            final(self).bits() == old(self).bits() + u8_seq_bits(values@.subrange(start_index as int, start_index + amount)),
    {
        let total = values.len();
        let bound_index = start_index + amount;
        let mut index: usize = start_index;
        proof {
            assert(values@.subrange(start_index as int, start_index as int) =~= Seq::<u8>::empty());
        }
        while index < bound_index
            invariant
                self.inv(),
                start_index <= index <= bound_index,
                bound_index == start_index + amount,
                total == values@.len(),
                bound_index <= values@.len(),
                self.bits() == old(self).bits() + u8_seq_bits(values@.subrange(start_index as int, index as int)),
            decreases bound_index - index,
        {
            self.add_direct_u8(values[index]);
            index += 1;
            proof {
                assert(values@.subrange(start_index as int, index as int) =~= values@.subrange(
                    start_index as int,
                    index - 1,
                ).push(values@[index - 1]));
                lemma_u8_seq_bits_push(values@.subrange(start_index as int, index - 1), values@[index - 1]);
            }
        }
    }

    /// Appends the values at `start_index` up to `start_index + amount`,
    /// in order, without checking capacity.
    fn add_direct_some_u8s_from_vec(&mut self, values: &Vec<u8>, start_index: usize, amount: usize)
        requires
            old(self).inv(),
            start_index + amount <= values@.len(),
        ensures
            final(self).inv(),
            final(self).bits() == old(self).bits() + u8_seq_bits(values@.subrange(start_index as int, start_index + amount)),
    {
        let total = values.len();
        let bound_index = start_index + amount;
        let mut index: usize = start_index;
        proof {
            assert(values@.subrange(start_index as int, start_index as int) =~= Seq::<u8>::empty());
        }
        while index < bound_index
            invariant
                self.inv(),
                start_index <= index <= bound_index,
                bound_index == start_index + amount,
                total == values@.len(),
                bound_index <= values@.len(),
                self.bits() == old(self).bits() + u8_seq_bits(values@.subrange(start_index as int, index as int)),
            decreases bound_index - index,
        {
            self.add_direct_u8(values[index]);
            index += 1;
            proof {
                assert(values@.subrange(start_index as int, index as int) =~= values@.subrange(
                    start_index as int,
                    index - 1,
                ).push(values@[index - 1]));
                lemma_u8_seq_bits_push(values@.subrange(start_index as int, index - 1), values@[index - 1]);
            }
        }
    }

    /// Appends the number of values as a 32-bit integer, then every value,
    /// without checking capacity.
    fn add_direct_u8_slice(&mut self, values: &[u8])
        requires
            old(self).inv(),
            values@.len() <= 2147483647,
        ensures
            final(self).inv(),
            final(self).bits() == old(self).bits() + i32_bits(values@.len() as i32) + u8_seq_bits(values@),
    {
        self.add_direct_i32(values.len() as i32);
        self.add_direct_u8s_from_slice(values);
    }

    /// Appends the number of values as a 32-bit integer, then every value,
    /// without checking capacity.
    fn add_direct_u8_vec(&mut self, values: &Vec<u8>)
        requires
            old(self).inv(),
            values@.len() <= 2147483647,
        ensures
            final(self).inv(),
            final(self).bits() == old(self).bits() + i32_bits(values@.len() as i32) + u8_seq_bits(values@),
    {
        self.add_direct_i32(values.len() as i32);
        self.add_direct_u8s_from_vec(values);
    }

    /// Appends every value of the group, in order, making room once first.
    fn add_u8s_from_slice(&mut self, values: &[u8])
        requires
            old(self).inv(),
        ensures
            final(self).inv(),
            final(self).bits() == old(self).bits() + u8_seq_bits(values@),
    {
        self.ensure_extra_capacity(capacity_for(values.len(), 8, 0));
        self.add_direct_u8s_from_slice(values);
    }

    /// Appends every value of the group, in order, making room once first.
    fn add_u8s_from_vec(&mut self, values: &Vec<u8>)
        requires
            old(self).inv(),
        ensures
            final(self).inv(),
            final(self).bits() == old(self).bits() + u8_seq_bits(values@),
    {
        self.ensure_extra_capacity(capacity_for(values.len(), 8, 0));
        self.add_direct_u8s_from_vec(values);
    }

    /// Appends the values at `start_index` up to `start_index + amount`,
    /// making room once first.
    fn add_some_u8s_from_slice(&mut self, values: &[u8], start_index: usize, amount: usize)
        requires
            old(self).inv(),
            start_index + amount <= values@.len(),
        ensures
            final(self).inv(),
            final(self).bits() == old(self).bits() + u8_seq_bits(values@.subrange(start_index as int, start_index + amount)),
    {
        self.ensure_extra_capacity(capacity_for(amount, 8, 0));
        self.add_direct_some_u8s_from_slice(values, start_index, amount);
    }

    /// Appends the values at `start_index` up to `start_index + amount`,
    /// making room once first.
    fn add_some_u8s_from_vec(&mut self, values: &Vec<u8>, start_index: usize, amount: usize)
        requires
            old(self).inv(),
            start_index + amount <= values@.len(),
        ensures
            final(self).inv(),
            final(self).bits() == old(self).bits() + u8_seq_bits(values@.subrange(start_index as int, start_index + amount)),
    {
        self.ensure_extra_capacity(capacity_for(amount, 8, 0));
        self.add_direct_some_u8s_from_vec(values, start_index, amount);
    }

    /// Appends the number of values as a 32-bit integer, then every value,
    /// making room once first.
    fn add_u8_slice(&mut self, values: &[u8])
        requires
            old(self).inv(),
            values@.len() <= 2147483647,
        ensures
            final(self).inv(),
            final(self).bits() == old(self).bits() + i32_bits(values@.len() as i32) + u8_seq_bits(values@),
    {
        self.ensure_extra_capacity(capacity_for(values.len(), 8, 32));
        self.add_direct_u8_slice(values);
    }

    /// Appends the number of values as a 32-bit integer, then every value,
    /// making room once first.
    fn add_u8_vec(&mut self, values: &Vec<u8>)
        requires
            old(self).inv(),
            values@.len() <= 2147483647,
        ensures
            final(self).inv(),
            final(self).bits() == old(self).bits() + i32_bits(values@.len() as i32) + u8_seq_bits(values@),
    {
        self.ensure_extra_capacity(capacity_for(values.len(), 8, 32));
        self.add_direct_u8_vec(values);
    }

    /// Appends every value of the group, in order, without storing how many
    /// there are and without checking capacity.
    fn add_direct_u16s_from_slice(&mut self, values: &[u16])
        requires
            old(self).inv(),
        ensures
            final(self).inv(),
            final(self).bits() == old(self).bits() + u16_seq_bits(values@),
    {
        let n = values.len();
        let mut index: usize = 0;
        proof {
            assert(values@.subrange(0, 0) =~= Seq::<u16>::empty());
        }
        while index < n
            invariant
                self.inv(),
                n == values@.len(),
                index <= n,
                self.bits() == old(self).bits() + u16_seq_bits(values@.subrange(0, index as int)),
            decreases n - index,
        {
            self.add_direct_u16(values[index]);
            index += 1;
            proof {
                assert(values@.subrange(0, index as int) =~= values@.subrange(0, index - 1).push(
                    values@[index - 1],
                ));
                lemma_u16_seq_bits_push(values@.subrange(0, index - 1), values@[index - 1]);
            }
        }
        proof {
            assert(values@.subrange(0, n as int) =~= values@);
        }
    }

    /// Appends every value of the group, in order, without storing how many
    /// there are and without checking capacity.
    fn add_direct_u16s_from_vec(&mut self, values: &Vec<u16>)
        requires
            old(self).inv(),
        ensures
            final(self).inv(),
            final(self).bits() == old(self).bits() + u16_seq_bits(values@),
    {
        let n = values.len();
        let mut index: usize = 0;
        proof {
            assert(values@.subrange(0, 0) =~= Seq::<u16>::empty());
        }
        while index < n
            invariant
                self.inv(),
                n == values@.len(),
                index <= n,
                self.bits() == old(self).bits() + u16_seq_bits(values@.subrange(0, index as int)),
            decreases n - index,
        {
            self.add_direct_u16(values[index]);
            index += 1;
            proof {
                assert(values@.subrange(0, index as int) =~= values@.subrange(0, index - 1).push(
                    values@[index - 1],
                ));
                lemma_u16_seq_bits_push(values@.subrange(0, index - 1), values@[index - 1]);
            }
        }
        proof {
            assert(values@.subrange(0, n as int) =~= values@);
        }
    }

    /// Appends the values at `start_index` up to `start_index + amount`,
    /// in order, without checking capacity.
    fn add_direct_some_u16s_from_slice(&mut self, values: &[u16], start_index: usize, amount: usize)
        requires
            old(self).inv(),
            start_index + amount <= values@.len(),
        ensures
            final(self).inv(),
            final(self).bits() == old(self).bits() + u16_seq_bits(values@.subrange(start_index as int, start_index + amount)),
    {
        let total = values.len();
        let bound_index = start_index + amount;
        let mut index: usize = start_index;
        proof {
            assert(values@.subrange(start_index as int, start_index as int) =~= Seq::<u16>::empty());
        }
        while index < bound_index
            invariant
                self.inv(),
                start_index <= index <= bound_index,
                bound_index == start_index + amount,
                total == values@.len(),
                bound_index <= values@.len(),
                self.bits() == old(self).bits() + u16_seq_bits(values@.subrange(start_index as int, index as int)),
            decreases bound_index - index,
        {
            self.add_direct_u16(values[index]);
            index += 1;
            proof {
                assert(values@.subrange(start_index as int, index as int) =~= values@.subrange(
                    start_index as int,
                    index - 1,
                ).push(values@[index - 1]));
                lemma_u16_seq_bits_push(values@.subrange(start_index as int, index - 1), values@[index - 1]);
            }
        }
    }

    /// Appends the values at `start_index` up to `start_index + amount`,
    /// in order, without checking capacity.
    fn add_direct_some_u16s_from_vec(&mut self, values: &Vec<u16>, start_index: usize, amount: usize)
        requires
            old(self).inv(),
            start_index + amount <= values@.len(),
        ensures
            final(self).inv(),
            final(self).bits() == old(self).bits() + u16_seq_bits(values@.subrange(start_index as int, start_index + amount)),
    {
        let total = values.len();
        let bound_index = start_index + amount;
        let mut index: usize = start_index;
        proof {
            assert(values@.subrange(start_index as int, start_index as int) =~= Seq::<u16>::empty());
        }
        while index < bound_index
            invariant
                self.inv(),
                start_index <= index <= bound_index,
                bound_index == start_index + amount,
                total == values@.len(),
                bound_index <= values@.len(),
                self.bits() == old(self).bits() + u16_seq_bits(values@.subrange(start_index as int, index as int)),
            decreases bound_index - index,
        {
            self.add_direct_u16(values[index]);
            index += 1;
            proof {
                assert(values@.subrange(start_index as int, index as int) =~= values@.subrange(
                    start_index as int,
                    index - 1,
                ).push(values@[index - 1]));
                lemma_u16_seq_bits_push(values@.subrange(start_index as int, index - 1), values@[index - 1]);
            }
        }
    }

    /// Appends the number of values as a 32-bit integer, then every value,
    /// without checking capacity.
    fn add_direct_u16_slice(&mut self, values: &[u16])
        requires
            old(self).inv(),
            values@.len() <= 2147483647,
        ensures
            final(self).inv(),
            final(self).bits() == old(self).bits() + i32_bits(values@.len() as i32) + u16_seq_bits(values@),
    {
        self.add_direct_i32(values.len() as i32);
        self.add_direct_u16s_from_slice(values);
    }

    /// Appends the number of values as a 32-bit integer, then every value,
    /// without checking capacity.
    fn add_direct_u16_vec(&mut self, values: &Vec<u16>)
        requires
            old(self).inv(),
            values@.len() <= 2147483647,
        ensures
            final(self).inv(),
            final(self).bits() == old(self).bits() + i32_bits(values@.len() as i32) + u16_seq_bits(values@),
    {
        self.add_direct_i32(values.len() as i32);
        self.add_direct_u16s_from_vec(values);
    }

    /// Appends every value of the group, in order, making room once first.
    fn add_u16s_from_slice(&mut self, values: &[u16])
        requires
            old(self).inv(),
        ensures
            final(self).inv(),
            final(self).bits() == old(self).bits() + u16_seq_bits(values@),
    {
        self.ensure_extra_capacity(capacity_for(values.len(), 16, 0));
        self.add_direct_u16s_from_slice(values);
    }

    /// Appends every value of the group, in order, making room once first.
    fn add_u16s_from_vec(&mut self, values: &Vec<u16>)
        requires
            old(self).inv(),
        ensures
            final(self).inv(),
            final(self).bits() == old(self).bits() + u16_seq_bits(values@),
    {
        self.ensure_extra_capacity(capacity_for(values.len(), 16, 0));
        self.add_direct_u16s_from_vec(values);
    }

    /// Appends the values at `start_index` up to `start_index + amount`,
    /// making room once first.
    fn add_some_u16s_from_slice(&mut self, values: &[u16], start_index: usize, amount: usize)
        requires
            old(self).inv(),
            start_index + amount <= values@.len(),
        ensures
            final(self).inv(),
            final(self).bits() == old(self).bits() + u16_seq_bits(values@.subrange(start_index as int, start_index + amount)),
    {
        self.ensure_extra_capacity(capacity_for(amount, 16, 0));
        self.add_direct_some_u16s_from_slice(values, start_index, amount);
    }

    /// Appends the values at `start_index` up to `start_index + amount`,
    /// making room once first.
    fn add_some_u16s_from_vec(&mut self, values: &Vec<u16>, start_index: usize, amount: usize)
        requires
            old(self).inv(),
            start_index + amount <= values@.len(),
        ensures
            final(self).inv(),
            final(self).bits() == old(self).bits() + u16_seq_bits(values@.subrange(start_index as int, start_index + amount)),
    {
        self.ensure_extra_capacity(capacity_for(amount, 16, 0));
        self.add_direct_some_u16s_from_vec(values, start_index, amount);
    }

    /// Appends the number of values as a 32-bit integer, then every value,
    /// making room once first.
    fn add_u16_slice(&mut self, values: &[u16])
        requires
            old(self).inv(),
            values@.len() <= 2147483647,
        ensures
            final(self).inv(),
            final(self).bits() == old(self).bits() + i32_bits(values@.len() as i32) + u16_seq_bits(values@),
    {
        self.ensure_extra_capacity(capacity_for(values.len(), 16, 32));
        self.add_direct_u16_slice(values);
    }

    /// Appends the number of values as a 32-bit integer, then every value,
    /// making room once first.
    fn add_u16_vec(&mut self, values: &Vec<u16>)
        requires
            old(self).inv(),
            values@.len() <= 2147483647,
        ensures
            final(self).inv(),
            final(self).bits() == old(self).bits() + i32_bits(values@.len() as i32) + u16_seq_bits(values@),
    {
        self.ensure_extra_capacity(capacity_for(values.len(), 16, 32));
        self.add_direct_u16_vec(values);
    }

    /// Appends every value of the group, in order, without storing how many
    /// there are and without checking capacity.
    fn add_direct_u32s_from_slice(&mut self, values: &[u32])
        requires
            old(self).inv(),
        ensures
            final(self).inv(),
            final(self).bits() == old(self).bits() + u32_seq_bits(values@),
    {
        let n = values.len();
        let mut index: usize = 0;
        proof {
            assert(values@.subrange(0, 0) =~= Seq::<u32>::empty());
        }
        while index < n
            invariant
                self.inv(),
                n == values@.len(),
                index <= n,
                self.bits() == old(self).bits() + u32_seq_bits(values@.subrange(0, index as int)),
            decreases n - index,
        {
            self.add_direct_u32(values[index]);
            index += 1;
            proof {
                assert(values@.subrange(0, index as int) =~= values@.subrange(0, index - 1).push(
                    values@[index - 1],
                ));
                lemma_u32_seq_bits_push(values@.subrange(0, index - 1), values@[index - 1]);
            }
        }
        proof {
            assert(values@.subrange(0, n as int) =~= values@);
        }
    }

    /// Appends every value of the group, in order, without storing how many
    /// there are and without checking capacity.
    fn add_direct_u32s_from_vec(&mut self, values: &Vec<u32>)
        requires
            old(self).inv(),
        ensures
            final(self).inv(),
            final(self).bits() == old(self).bits() + u32_seq_bits(values@),
    {
        let n = values.len();
        let mut index: usize = 0;
        proof {
            assert(values@.subrange(0, 0) =~= Seq::<u32>::empty());
        }
        while index < n
            invariant
                self.inv(),
                n == values@.len(),
                index <= n,
                self.bits() == old(self).bits() + u32_seq_bits(values@.subrange(0, index as int)),
            decreases n - index,
        {
            self.add_direct_u32(values[index]);
            index += 1;
            proof {
                assert(values@.subrange(0, index as int) =~= values@.subrange(0, index - 1).push(
                    values@[index - 1],
                ));
                lemma_u32_seq_bits_push(values@.subrange(0, index - 1), values@[index - 1]);
            }
        }
        proof {
            assert(values@.subrange(0, n as int) =~= values@);
        }
    }

    /// Appends the values at `start_index` up to `start_index + amount`,
    /// in order, without checking capacity.
    fn add_direct_some_u32s_from_slice(&mut self, values: &[u32], start_index: usize, amount: usize)
        requires
            old(self).inv(),
            start_index + amount <= values@.len(),
        ensures
            final(self).inv(),
            final(self).bits() == old(self).bits() + u32_seq_bits(values@.subrange(start_index as int, start_index + amount)),
    {
        let total = values.len();
        let bound_index = start_index + amount;
        let mut index: usize = start_index;
        proof {
            assert(values@.subrange(start_index as int, start_index as int) =~= Seq::<u32>::empty());
        }
        while index < bound_index
            invariant
                self.inv(),
                start_index <= index <= bound_index,
                bound_index == start_index + amount,
                total == values@.len(),
                bound_index <= values@.len(),
                self.bits() == old(self).bits() + u32_seq_bits(values@.subrange(start_index as int, index as int)),
            decreases bound_index - index,
        {
            self.add_direct_u32(values[index]);
            index += 1;
            proof {
                assert(values@.subrange(start_index as int, index as int) =~= values@.subrange(
                    start_index as int,
                    index - 1,
                ).push(values@[index - 1]));
                lemma_u32_seq_bits_push(values@.subrange(start_index as int, index - 1), values@[index - 1]);
            }
        }
    }

    /// Appends the values at `start_index` up to `start_index + amount`,
    /// in order, without checking capacity.
    fn add_direct_some_u32s_from_vec(&mut self, values: &Vec<u32>, start_index: usize, amount: usize)
        requires
            old(self).inv(),
            start_index + amount <= values@.len(),
        ensures
            final(self).inv(),
            final(self).bits() == old(self).bits() + u32_seq_bits(values@.subrange(start_index as int, start_index + amount)),
    {
        let total = values.len();
        let bound_index = start_index + amount;
        let mut index: usize = start_index;
        proof {
            assert(values@.subrange(start_index as int, start_index as int) =~= Seq::<u32>::empty());
        }
        while index < bound_index
            invariant
                self.inv(),
                start_index <= index <= bound_index,
                bound_index == start_index + amount,
                total == values@.len(),
                bound_index <= values@.len(),
                self.bits() == old(self).bits() + u32_seq_bits(values@.subrange(start_index as int, index as int)),
            decreases bound_index - index,
        {
            self.add_direct_u32(values[index]);
            index += 1;
            proof {
                assert(values@.subrange(start_index as int, index as int) =~= values@.subrange(
                    start_index as int,
                    index - 1,
                ).push(values@[index - 1]));
                lemma_u32_seq_bits_push(values@.subrange(start_index as int, index - 1), values@[index - 1]);
            }
        }
    }

    /// Appends the number of values as a 32-bit integer, then every value,
    /// without checking capacity.
    fn add_direct_u32_slice(&mut self, values: &[u32])
        requires
            old(self).inv(),
            values@.len() <= 2147483647,
        ensures
            final(self).inv(),
            final(self).bits() == old(self).bits() + i32_bits(values@.len() as i32) + u32_seq_bits(values@),
    {
        self.add_direct_i32(values.len() as i32);
        self.add_direct_u32s_from_slice(values);
    }

    /// Appends the number of values as a 32-bit integer, then every value,
    /// without checking capacity.
    fn add_direct_u32_vec(&mut self, values: &Vec<u32>)
        requires
            old(self).inv(),
            values@.len() <= 2147483647,
        ensures
            final(self).inv(),
            final(self).bits() == old(self).bits() + i32_bits(values@.len() as i32) + u32_seq_bits(values@),
    {
        self.add_direct_i32(values.len() as i32);
        self.add_direct_u32s_from_vec(values);
    }

    /// Appends every value of the group, in order, making room once first.
    fn add_u32s_from_slice(&mut self, values: &[u32])
        requires
            old(self).inv(),
        ensures
            final(self).inv(),
            final(self).bits() == old(self).bits() + u32_seq_bits(values@),
    {
        self.ensure_extra_capacity(capacity_for(values.len(), 32, 0));
        self.add_direct_u32s_from_slice(values);
    }

    /// Appends every value of the group, in order, making room once first.
    fn add_u32s_from_vec(&mut self, values: &Vec<u32>)
        requires
            old(self).inv(),
        ensures
            final(self).inv(),
            final(self).bits() == old(self).bits() + u32_seq_bits(values@),
    {
        self.ensure_extra_capacity(capacity_for(values.len(), 32, 0));
        self.add_direct_u32s_from_vec(values);
    }

    /// Appends the values at `start_index` up to `start_index + amount`,
    /// making room once first.
    fn add_some_u32s_from_slice(&mut self, values: &[u32], start_index: usize, amount: usize)
        requires
            old(self).inv(),
            start_index + amount <= values@.len(),
        ensures
            final(self).inv(),
            final(self).bits() == old(self).bits() + u32_seq_bits(values@.subrange(start_index as int, start_index + amount)),
    {
        self.ensure_extra_capacity(capacity_for(amount, 32, 0));
        self.add_direct_some_u32s_from_slice(values, start_index, amount);
    }

    /// Appends the values at `start_index` up to `start_index + amount`,
    /// making room once first.
    fn add_some_u32s_from_vec(&mut self, values: &Vec<u32>, start_index: usize, amount: usize)
        requires
            old(self).inv(),
            start_index + amount <= values@.len(),
        ensures
            final(self).inv(),
            final(self).bits() == old(self).bits() + u32_seq_bits(values@.subrange(start_index as int, start_index + amount)),
    {
        self.ensure_extra_capacity(capacity_for(amount, 32, 0));
        self.add_direct_some_u32s_from_vec(values, start_index, amount);
    }

    /// Appends the number of values as a 32-bit integer, then every value,
    /// making room once first.
    fn add_u32_slice(&mut self, values: &[u32])
        requires
            old(self).inv(),
            values@.len() <= 2147483647,
        ensures
            final(self).inv(),
            final(self).bits() == old(self).bits() + i32_bits(values@.len() as i32) + u32_seq_bits(values@),
    {
        self.ensure_extra_capacity(capacity_for(values.len(), 32, 32));
        self.add_direct_u32_slice(values);
    }

    /// Appends the number of values as a 32-bit integer, then every value,
    /// making room once first.
    fn add_u32_vec(&mut self, values: &Vec<u32>)
        requires
            old(self).inv(),
            values@.len() <= 2147483647,
        ensures
            final(self).inv(),
            final(self).bits() == old(self).bits() + i32_bits(values@.len() as i32) + u32_seq_bits(values@),
    {
        self.ensure_extra_capacity(capacity_for(values.len(), 32, 32));
        self.add_direct_u32_vec(values);
    }

    /// Appends an optional string: a single zero byte for nothing;
    /// otherwise a length marker, and, for a non-empty string, its least
    /// UTF-16 code unit, the width of the per-unit deltas, and the deltas
    /// themselves.
    #[verifier::rlimit(60)]
    fn add_string(&mut self, value: Option<&str>)
        requires
            old(self).inv(),
            value matches Some(text) ==> utf16_of(text@).len() <= 2147483647,
        ensures
            final(self).inv(),
            value is None ==> final(self).bits() == old(self).bits() + i8_bits(0),
            value matches Some(text) ==> final(self).bits() == old(self).bits() + string_bits(
                utf16_of(text@),
            ),
    {
        match value {
            None => {
                self.add_i8(0);
            },
            Some(text) => {
                self.ensure_extra_capacity(29);
                let units = encode_utf16_units(text);
                let ghost us = units@;
                let length = units.len();
                if length < 254 {
                    let marker = (length + 1) as u8;
                    proof {
                        lemma_cast_u8_identity(marker);
                    }
                    self.add_direct_i8(#[verifier::truncate] (marker as i8));
                } else {
                    self.ensure_extra_capacity(32);
                    self.add_direct_i8(-1);
                    self.add_direct_i32(length as i32);
                }
                proof {
                    if us.len() >= 254 {
                        assert((-1i8) as u8 == 255) by {
                            crate::model::lemma_i8_as_u8(-1i8);
                        }
                    }
                    assert(self.bits() =~= old(self).bits() + string_marker_bits(us.len()));
                }
                if length > 0 {
                    let ghost after_marker = self.bits();
                    let mut min = units[0];
                    let mut max = units[0];
                    let mut index: usize = 1;
                    proof {
                        assert(units@.subrange(0, 1) =~= seq![units@[0]]);
                    }
                    while index < length
                        invariant
                            1 <= index <= length,
                            length == units@.len(),
                            min == seq_u16_min(units@.subrange(0, index as int)),
                            max == seq_u16_max(units@.subrange(0, index as int)),
                        decreases length - index,
                    {
                        let u = units[index];
                        proof {
                            assert(units@.subrange(0, index + 1).drop_last() =~= units@.subrange(
                                0,
                                index as int,
                            ));
                            assert(units@.subrange(0, index + 1).last() == units@[index as int]);
                        }
                        if u < min {
                            min = u;
                        }
                        if u > max {
                            max = u;
                        }
                        index += 1;
                    }
                    proof {
                        assert(units@.subrange(0, length as int) =~= units@);
                        lemma_seq_u16_min_max(us, 0);
                    }
                    let difference = max - min;
                    let bit_count: u8 = if difference == 0 {
                        0
                    } else {
                        get_required_bits(difference as u64)
                    };
                    proof {
                        lemma_required_bits_u16(difference);
                        vstd::arithmetic::power2::lemma2_to64();
                        assert(bit_count as nat == string_delta_width(us));
                        assert(bit_count <= 16);
                    }
                    self.add_direct_u16(min);
                    self.add_direct_sized_u64(bit_count as u64, 5);
                    if difference > 0 {
                        match length.checked_mul(bit_count as usize) {
                            Some(needed) => self.ensure_extra_capacity(needed),
                            None => self.ensure_extra_capacity(usize::MAX),
                        }
                        let ghost before_deltas = self.bits();
                        let width = bit_count as usize;
                        let mut index2: usize = 0;
                        proof {
                            assert(us.subrange(0, 0) =~= Seq::<u16>::empty());
                        }
                        while index2 < length
                            invariant
                                self.inv(),
                                index2 <= length,
                                length == units@.len(),
                                width == bit_count as usize,
                                1 <= width <= 16,
                                min == seq_u16_min(us),
                                max == seq_u16_max(us),
                                us == units@,
                                difference == max - min,
                                difference > 0,
                                bit_count as nat == required_bits(difference as nat),
                                self.bits() == before_deltas + delta_bits(
                                    us.subrange(0, index2 as int),
                                    min,
                                    width as nat,
                                ),
                            decreases length - index2,
                        {
                            proof {
                                lemma_seq_u16_min_max(us, index2 as int);
                                lemma_required_bits_bounds(difference as nat);
                            }
                            let delta = units[index2] - min;
                            self.add_direct_sized_u64(delta as u64, width);
                            index2 += 1;
                            proof {
                                assert(us.subrange(0, index2 as int) =~= us.subrange(
                                    0,
                                    index2 - 1,
                                ).push(us[index2 - 1]));
                                lemma_delta_bits_push(
                                    us.subrange(0, index2 - 1),
                                    us[index2 - 1],
                                    min,
                                    width as nat,
                                );
                                assert(self.bits() =~= before_deltas + delta_bits(
                                    us.subrange(0, index2 as int),
                                    min,
                                    width as nat,
                                ));
                            }
                        }
                        proof {
                            assert(us.subrange(0, length as int) =~= us);
                            assert(string_payload_bits(us) == u16_bits(min) + unsigned_bits(
                                bit_count as nat,
                                5,
                            ) + delta_bits(us, min, bit_count as nat));
                            assert(final(self).bits() =~= old(self).bits() + string_bits(us));
                        }
                    } else {
                        proof {
                            assert(string_payload_bits(us) == u16_bits(min) + unsigned_bits(0, 5)
                                + Seq::<bool>::empty());
                            assert(u16_bits(min) + unsigned_bits(0nat, 5) + Seq::<bool>::empty()
                                =~= u16_bits(min) + unsigned_bits(0nat, 5));
                            assert(final(self).bits() =~= old(self).bits() + string_bits(us));
                        }
                    }
                } else {
                    proof {
                        assert(string_payload_bits(us) == Seq::<bool>::empty());
                        assert(final(self).bits() =~= old(self).bits() + string_bits(us));
                    }
                }
            },
        }
    }
}

/// The least number of bits that can store `number`: zero for zero, and
/// otherwise the position of the highest set bit plus one.
pub fn get_required_bits(number: u64) -> (r: u8)
    ensures
        r as nat == required_bits(number as nat),
        r <= 64,
{
    proof {
        vstd::arithmetic::power2::lemma2_to64();
        vstd::arithmetic::power2::lemma2_to64_rest();
    }
    if number >= 0x8000000000000000 {
        proof {
            lemma_required_bits_is(number as nat, 64);
        }
        return 64;
    }
    let mut current: u64 = 1;
    let mut power: u8 = 0;
    while current <= number
        invariant
            number < 0x8000000000000000,
            power <= 63,
            current as nat == pow2(power as nat),
            power > 0 ==> pow2((power - 1) as nat) <= number as nat,
        decreases 64 - power,
    {
        proof {
            vstd::arithmetic::power2::lemma_pow2_unfold((power + 1) as nat);
            if (power as nat) < 63 {
                vstd::arithmetic::power2::lemma_pow2_strictly_increases(power as nat, 63);
            }
            vstd::arithmetic::power2::lemma2_to64_rest();
        }
        current = current * 2;
        power = power + 1;
    }
    proof {
        lemma_required_bits_is(number as nat, power as nat);
    }
    power
}

/// The most direct writer: every bit of the stream is one boolean of a
/// vector.
#[derive(Debug)]
pub struct BoolVecBitOutput {
    vector: Vec<bool>,
}

impl BitOutput for BoolVecBitOutput {
    closed spec fn bits(&self) -> Seq<bool> {
        self.vector@
    }

    closed spec fn inv(&self) -> bool {
        true
    }

    fn add_direct_bool(&mut self, value: bool) {
        self.vector.push(value);
    }

    fn add_direct_i8(&mut self, value: i8) {
        let arr = i8_to_bool_array(value);
        self.vector.push(arr[0]);
        self.vector.push(arr[1]);
        self.vector.push(arr[2]);
        self.vector.push(arr[3]);
        self.vector.push(arr[4]);
        self.vector.push(arr[5]);
        self.vector.push(arr[6]);
        self.vector.push(arr[7]);
        proof {
            lemma_octet_bits_len(value as u8);
            assert(self.vector@ =~= old(self).vector@ + i8_bits(value));
        }
    }

    fn ensure_extra_capacity(&mut self, extra_bools: usize) {
        self.vector.reserve(extra_bools);
    }

    fn terminate(&mut self) {
        shrink_vec(&mut self.vector);
    }
}

impl BoolVecBitOutput {
    /// A new empty writer with room for `initial_capacity` bits.
    pub fn new(initial_capacity: usize) -> (result: BoolVecBitOutput)
        ensures
            result.inv(),
            result.bits() == Seq::<bool>::empty(),
    {
        BoolVecBitOutput { vector: Vec::with_capacity(initial_capacity) }
    }

    /// The bits written so far, one boolean each.
    pub fn get_slice(&self) -> (result: &[bool])
        ensures
            result@ == self.bits(),
    {
        self.vector.as_slice()
    }

    /// The bits written so far, one boolean each.
    pub fn get_vec(&self) -> (result: &Vec<bool>)
        ensures
            result@ == self.bits(),
    {
        &self.vector
    }
}

/// A writer that packs the stream into a vector of signed bytes. The byte
/// at the cursor is filled bit by bit; its unwritten low-weight bit slots
/// stay clear until they are written.
#[derive(Debug)]
pub struct I8VecBitOutput {
    /// The backing vector. It can be read directly once writing is done;
    /// `terminate` releases its spare capacity.
    pub vector: Vec<i8>,
    byte_index: usize,
    bool_index: usize,
}

impl BitOutput for I8VecBitOutput {
    closed spec fn bits(&self) -> Seq<bool> {
        Seq::new(
            (8 * self.byte_index + self.bool_index) as nat,
            |k: int| octet_bits(self.vector@[k / 8] as u8)[k % 8],
        )
    }

    closed spec fn inv(&self) -> bool {
        &&& self.bool_index < 8
        &&& self.vector@.len() == self.byte_index + (if self.bool_index == 0 {
            0int
        } else {
            1int
        })
        &&& (self.bool_index > 0 ==> forall|j: int|
            self.bool_index <= j < 8 ==> (#[trigger] octet_bits(
                self.vector@[self.byte_index as int] as u8,
            )[j]) == false)
    }

    fn add_direct_bool(&mut self, value: bool) {
        if self.bool_index == 0 {
            let nb = bool_array_to_i8([value, false, false, false, false, false, false, false]);
            self.vector.push(nb);
            self.bool_index = 1;
            proof {
                let s = seq![value, false, false, false, false, false, false, false];
                assert([value, false, false, false, false, false, false, false]@ =~= s);
                lemma_octet_bits_of_octet_value(s);
                                let bi = self.byte_index as int;
                assert forall|k: int| 0 <= k < 8 * bi + 1 implies self.bits()[k]
                    == old(self).bits().push(value)[k] by {
                    vstd::arithmetic::div_mod::lemma_fundamental_div_mod(k, 8);
                    if k == 8 * bi {
                        lemma_div8_range(k, bi);
                    }
                }
                assert(self.bits() =~= old(self).bits().push(value));
            }
        } else {
            let offset = self.bool_index;
            let cur = i8_to_bool_array(self.vector[self.byte_index]);
            let upd = [
                if offset == 0 {
                    value
                } else {
                    cur[0]
                },
                if offset == 1 {
                    value
                } else {
                    cur[1]
                },
                if offset == 2 {
                    value
                } else {
                    cur[2]
                },
                if offset == 3 {
                    value
                } else {
                    cur[3]
                },
                if offset == 4 {
                    value
                } else {
                    cur[4]
                },
                if offset == 5 {
                    value
                } else {
                    cur[5]
                },
                if offset == 6 {
                    value
                } else {
                    cur[6]
                },
                if offset == 7 {
                    value
                } else {
                    cur[7]
                },
            ];
            let nb = bool_array_to_i8(upd);
            self.vector[self.byte_index] = nb;
            self.bool_index += 1;
            if self.bool_index == 8 {
                let filled = self.vector.len();
                proof {
                    assert(self.byte_index < filled);
                }
                self.bool_index = 0;
                self.byte_index += 1;
            }
            proof {
                let bi = old(self).byte_index as int;
                let bo = old(self).bool_index as int;
                assert(upd@ =~= octet_bits(old(self).vector@[bi] as u8).update(bo, value));
                lemma_octet_bits_of_octet_value(upd@);
                                assert(octet_bits(self.vector@[bi] as u8) =~= octet_bits(
                    old(self).vector@[bi] as u8,
                ).update(bo, value));
                assert forall|k: int| 0 <= k < 8 * bi + bo + 1 implies self.bits()[k]
                    == old(self).bits().push(value)[k] by {
                    vstd::arithmetic::div_mod::lemma_fundamental_div_mod(k, 8);
                    if 8 * bi <= k {
                        lemma_div8_range(k, bi);
                    }
                }
                assert(self.bits() =~= old(self).bits().push(value));
            }
        }
    }

    #[verifier::rlimit(100)]
    fn add_direct_i8(&mut self, value: i8) {
        if self.bool_index == 0 {
            self.vector.push(value);
            let filled = self.vector.len();
            proof {
                assert(self.byte_index < filled);
            }
            self.byte_index += 1;
            proof {
                lemma_octet_bits_len(value as u8);
                let bi = old(self).byte_index as int;
                assert(octet_bits(self.vector@[bi] as u8) == i8_bits(value)) by {
                    assert(self.vector@[bi] == value);
                }
                assert forall|k: int| 0 <= k < 8 * bi + 8 implies self.bits()[k] == (old(
                    self,
                ).bits() + i8_bits(value))[k] by {
                    vstd::arithmetic::div_mod::lemma_fundamental_div_mod(k, 8);
                    if 8 * bi <= k {
                        lemma_div8_range(k, bi);
                    }
                }
                assert(self.bits() =~= old(self).bits() + i8_bits(value));
            }
        } else {
            let offset = self.bool_index;
            let vb = i8_to_bool_array(value);
            let cur = i8_to_bool_array(self.vector[self.byte_index]);
            let first = [
                if 0 < offset {
                    cur[0]
                } else {
                    vb[0 - offset]
                },
                if 1 < offset {
                    cur[1]
                } else {
                    vb[1 - offset]
                },
                if 2 < offset {
                    cur[2]
                } else {
                    vb[2 - offset]
                },
                if 3 < offset {
                    cur[3]
                } else {
                    vb[3 - offset]
                },
                if 4 < offset {
                    cur[4]
                } else {
                    vb[4 - offset]
                },
                if 5 < offset {
                    cur[5]
                } else {
                    vb[5 - offset]
                },
                if 6 < offset {
                    cur[6]
                } else {
                    vb[6 - offset]
                },
                if 7 < offset {
                    cur[7]
                } else {
                    vb[7 - offset]
                },
            ];
            let second = [
                if 0 < offset {
                    vb[8 - offset]
                } else {
                    false
                },
                if 1 < offset {
                    vb[9 - offset]
                } else {
                    false
                },
                if 2 < offset {
                    vb[10 - offset]
                } else {
                    false
                },
                if 3 < offset {
                    vb[11 - offset]
                } else {
                    false
                },
                if 4 < offset {
                    vb[12 - offset]
                } else {
                    false
                },
                if 5 < offset {
                    vb[13 - offset]
                } else {
                    false
                },
                if 6 < offset {
                    vb[14 - offset]
                } else {
                    false
                },
                if 7 < offset {
                    vb[15 - offset]
                } else {
                    false
                },
            ];
            let nb1 = bool_array_to_i8(first);
            let nb2 = bool_array_to_i8(second);
            self.vector[self.byte_index] = nb1;
            self.vector.push(nb2);
            let filled = self.vector.len();
            proof {
                assert(self.byte_index < filled);
            }
            self.byte_index += 1;
            proof {
                let bi = old(self).byte_index as int;
                let bo = old(self).bool_index as int;
                lemma_octet_bits_of_octet_value(first@);
                lemma_octet_bits_of_octet_value(second@);
                                                assert(octet_bits(self.vector@[bi] as u8) =~= first@);
                assert(octet_bits(self.vector@[bi + 1] as u8) =~= second@);
                lemma_octet_bits_len(value as u8);
                assert forall|k: int| 0 <= k < 8 * bi + bo + 8 implies self.bits()[k] == (old(
                    self,
                ).bits() + i8_bits(value))[k] by {
                    vstd::arithmetic::div_mod::lemma_fundamental_div_mod(k, 8);
                    if 8 * bi <= k < 8 * bi + 8 {
                        lemma_div8_range(k, bi);
                    }
                    if 8 * bi + 8 <= k {
                        lemma_div8_range(k, bi + 1);
                    }
                }
                assert(self.bits() =~= old(self).bits() + i8_bits(value));
            }
        }
    }

    fn ensure_extra_capacity(&mut self, bool_amount: usize) {
        proof {
            vstd::arithmetic::div_mod::lemma_fundamental_div_mod(bool_amount as int, 8);
            vstd::arithmetic::div_mod::lemma_mod_bound(bool_amount as int, 8);
        }
        let mut extra = bool_amount / 8;
        if bool_amount - extra * 8 + self.bool_index >= 8 {
            extra += 1;
        }
        self.vector.reserve(extra);
    }

    fn terminate(&mut self) {
        shrink_vec(&mut self.vector);
    }
}

impl I8VecBitOutput {
    /// A new empty writer whose vector starts with room for `capacity`
    /// bytes.
    pub fn with_capacity(capacity: usize) -> (result: I8VecBitOutput)
        ensures
            result.inv(),
            result.bits() == Seq::<bool>::empty(),
    {
        let result = I8VecBitOutput { vector: Vec::with_capacity(capacity), byte_index: 0, bool_index: 0 };
        proof {
            assert(result.bits() =~= Seq::<bool>::empty());
        }
        result
    }

    /// A copy of the bytes written so far: every stream bit lives in the
    /// byte at its position divided by eight, and the tail of the last
    /// byte is padding.
    pub fn to_i8_vector(&self) -> (r: Vec<i8>)
        requires
            self.inv(),
        ensures
            8 * r@.len() < self.bits().len() + 8,
            self.bits().len() <= 8 * r@.len(),
            forall|k: int|
                0 <= k < self.bits().len() ==> self.bits()[k] == octet_bits(r@[k / 8] as u8)[k
                    % 8],
            forall|j: int|
                self.bits().len() <= j < 8 * r@.len() ==> (#[trigger] octet_bits(
                    r@[j / 8] as u8,
                )[j % 8]) == false,
    {
        proof {
            assert forall|j: int|
                self.bits().len() <= j < 8 * self.vector@.len() implies (#[trigger] octet_bits(
                self.vector@[j / 8] as u8,
            )[j % 8]) == false by {
                lemma_div8_range(j, self.byte_index as int);
            }
        }
        let n = self.vector.len();
        let mut r: Vec<i8> = Vec::with_capacity(n);
        let mut index: usize = 0;
        while index < n
            invariant
                n == self.vector@.len(),
                index <= n,
                r@ == self.vector@.subrange(0, index as int),
            decreases n - index,
        {
            r.push(self.vector[index]);
            proof {
                assert(r@ =~= self.vector@.subrange(0, index + 1));
            }
            index += 1;
        }
        proof {
            assert(r@ =~= self.vector@);
        }
        r
    }
}

/// A writer that packs the stream into a vector of unsigned bytes. The byte
/// at the cursor is filled bit by bit; its unwritten low-weight bit slots
/// stay clear until they are written.
#[derive(Debug)]
pub struct U8VecBitOutput {
    /// The backing vector. It can be read directly once writing is done;
    /// `terminate` releases its spare capacity.
    pub vector: Vec<u8>,
    byte_index: usize,
    bool_index: usize,
}

impl BitOutput for U8VecBitOutput {
    closed spec fn bits(&self) -> Seq<bool> {
        Seq::new(
            (8 * self.byte_index + self.bool_index) as nat,
            |k: int| octet_bits(self.vector@[k / 8])[k % 8],
        )
    }

    closed spec fn inv(&self) -> bool {
        &&& self.bool_index < 8
        &&& self.vector@.len() == self.byte_index + (if self.bool_index == 0 {
            0int
        } else {
            1int
        })
        &&& (self.bool_index > 0 ==> forall|j: int|
            self.bool_index <= j < 8 ==> (#[trigger] octet_bits(
                self.vector@[self.byte_index as int],
            )[j]) == false)
    }

    fn add_direct_bool(&mut self, value: bool) {
        if self.bool_index == 0 {
            let nb = bool_array_to_i8([value, false, false, false, false, false, false, false]);
            self.vector.push(nb as u8);
            self.bool_index = 1;
            proof {
                let s = seq![value, false, false, false, false, false, false, false];
                assert([value, false, false, false, false, false, false, false]@ =~= s);
                lemma_octet_bits_of_octet_value(s);
                lemma_cast_u8_identity(nb as u8);
                let bi = self.byte_index as int;
                assert forall|k: int| 0 <= k < 8 * bi + 1 implies self.bits()[k]
                    == old(self).bits().push(value)[k] by {
                    vstd::arithmetic::div_mod::lemma_fundamental_div_mod(k, 8);
                    if k == 8 * bi {
                        lemma_div8_range(k, bi);
                    }
                }
                assert(self.bits() =~= old(self).bits().push(value));
            }
        } else {
            let offset = self.bool_index;
            let cur = i8_to_bool_array(self.vector[self.byte_index] as i8);
            let upd = [
                if offset == 0 {
                    value
                } else {
                    cur[0]
                },
                if offset == 1 {
                    value
                } else {
                    cur[1]
                },
                if offset == 2 {
                    value
                } else {
                    cur[2]
                },
                if offset == 3 {
                    value
                } else {
                    cur[3]
                },
                if offset == 4 {
                    value
                } else {
                    cur[4]
                },
                if offset == 5 {
                    value
                } else {
                    cur[5]
                },
                if offset == 6 {
                    value
                } else {
                    cur[6]
                },
                if offset == 7 {
                    value
                } else {
                    cur[7]
                },
            ];
            let nb = bool_array_to_i8(upd);
            self.vector[self.byte_index] = nb as u8;
            self.bool_index += 1;
            if self.bool_index == 8 {
                let filled = self.vector.len();
                proof {
                    assert(self.byte_index < filled);
                }
                self.bool_index = 0;
                self.byte_index += 1;
            }
            proof {
                let bi = old(self).byte_index as int;
                let bo = old(self).bool_index as int;
                lemma_cast_u8_identity(old(self).vector@[bi]);
                assert(upd@ =~= octet_bits(old(self).vector@[bi]).update(bo, value));
                lemma_octet_bits_of_octet_value(upd@);
                lemma_cast_u8_identity(nb as u8);
                assert(octet_bits(self.vector@[bi]) =~= octet_bits(
                    old(self).vector@[bi],
                ).update(bo, value));
                assert forall|k: int| 0 <= k < 8 * bi + bo + 1 implies self.bits()[k]
                    == old(self).bits().push(value)[k] by {
                    vstd::arithmetic::div_mod::lemma_fundamental_div_mod(k, 8);
                    if 8 * bi <= k {
                        lemma_div8_range(k, bi);
                    }
                }
                assert(self.bits() =~= old(self).bits().push(value));
            }
        }
    }

    #[verifier::rlimit(100)]
    fn add_direct_i8(&mut self, value: i8) {
        if self.bool_index == 0 {
            self.vector.push(value as u8);
            let filled = self.vector.len();
            proof {
                assert(self.byte_index < filled);
            }
            self.byte_index += 1;
            proof {
                lemma_octet_bits_len(value as u8);
                let bi = old(self).byte_index as int;
                assert(octet_bits(self.vector@[bi]) == i8_bits(value)) by {
                    assert(self.vector@[bi] == value as u8);
                }
                assert forall|k: int| 0 <= k < 8 * bi + 8 implies self.bits()[k] == (old(
                    self,
                ).bits() + i8_bits(value))[k] by {
                    vstd::arithmetic::div_mod::lemma_fundamental_div_mod(k, 8);
                    if 8 * bi <= k {
                        lemma_div8_range(k, bi);
                    }
                }
                assert(self.bits() =~= old(self).bits() + i8_bits(value));
            }
        } else {
            let offset = self.bool_index;
            let vb = i8_to_bool_array(value);
            let cur = i8_to_bool_array(self.vector[self.byte_index] as i8);
            let first = [
                if 0 < offset {
                    cur[0]
                } else {
                    vb[0 - offset]
                },
                if 1 < offset {
                    cur[1]
                } else {
                    vb[1 - offset]
                },
                if 2 < offset {
                    cur[2]
                } else {
                    vb[2 - offset]
                },
                if 3 < offset {
                    cur[3]
                } else {
                    vb[3 - offset]
                },
                if 4 < offset {
                    cur[4]
                } else {
                    vb[4 - offset]
                },
                if 5 < offset {
                    cur[5]
                } else {
                    vb[5 - offset]
                },
                if 6 < offset {
                    cur[6]
                } else {
                    vb[6 - offset]
                },
                if 7 < offset {
                    cur[7]
                } else {
                    vb[7 - offset]
                },
            ];
            let second = [
                if 0 < offset {
                    vb[8 - offset]
                } else {
                    false
                },
                if 1 < offset {
                    vb[9 - offset]
                } else {
                    false
                },
                if 2 < offset {
                    vb[10 - offset]
                } else {
                    false
                },
                if 3 < offset {
                    vb[11 - offset]
                } else {
                    false
                },
                if 4 < offset {
                    vb[12 - offset]
                } else {
                    false
                },
                if 5 < offset {
                    vb[13 - offset]
                } else {
                    false
                },
                if 6 < offset {
                    vb[14 - offset]
                } else {
                    false
                },
                if 7 < offset {
                    vb[15 - offset]
                } else {
                    false
                },
            ];
            let nb1 = bool_array_to_i8(first);
            let nb2 = bool_array_to_i8(second);
            self.vector[self.byte_index] = nb1 as u8;
            self.vector.push(nb2 as u8);
            let filled = self.vector.len();
            proof {
                assert(self.byte_index < filled);
            }
            self.byte_index += 1;
            proof {
                let bi = old(self).byte_index as int;
                let bo = old(self).bool_index as int;
                lemma_octet_bits_of_octet_value(first@);
                lemma_octet_bits_of_octet_value(second@);
                lemma_cast_u8_identity(old(self).vector@[bi]);
                lemma_cast_u8_identity(nb1 as u8);
                lemma_cast_u8_identity(nb2 as u8);
                                assert(octet_bits(self.vector@[bi]) =~= first@);
                assert(octet_bits(self.vector@[bi + 1]) =~= second@);
                lemma_octet_bits_len(value as u8);
                assert forall|k: int| 0 <= k < 8 * bi + bo + 8 implies self.bits()[k] == (old(
                    self,
                ).bits() + i8_bits(value))[k] by {
                    vstd::arithmetic::div_mod::lemma_fundamental_div_mod(k, 8);
                    if 8 * bi <= k < 8 * bi + 8 {
                        lemma_div8_range(k, bi);
                    }
                    if 8 * bi + 8 <= k {
                        lemma_div8_range(k, bi + 1);
                    }
                }
                assert(self.bits() =~= old(self).bits() + i8_bits(value));
            }
        }
    }

    fn ensure_extra_capacity(&mut self, bool_amount: usize) {
        proof {
            vstd::arithmetic::div_mod::lemma_fundamental_div_mod(bool_amount as int, 8);
            vstd::arithmetic::div_mod::lemma_mod_bound(bool_amount as int, 8);
        }
        let mut extra = bool_amount / 8;
        if bool_amount - extra * 8 + self.bool_index >= 8 {
            extra += 1;
        }
        self.vector.reserve(extra);
    }

    fn terminate(&mut self) {
        shrink_vec(&mut self.vector);
    }
}

impl U8VecBitOutput {
    /// A new empty writer whose vector starts with room for `capacity`
    /// bytes.
    pub fn with_capacity(capacity: usize) -> (result: U8VecBitOutput)
        ensures
            result.inv(),
            result.bits() == Seq::<bool>::empty(),
    {
        let result = U8VecBitOutput { vector: Vec::with_capacity(capacity), byte_index: 0, bool_index: 0 };
        proof {
            assert(result.bits() =~= Seq::<bool>::empty());
        }
        result
    }

    /// A copy of the bytes written so far: every stream bit lives in the
    /// byte at its position divided by eight, and the tail of the last
    /// byte is padding.
    pub fn to_u8_vector(&self) -> (r: Vec<u8>)
        requires
            self.inv(),
        ensures
            8 * r@.len() < self.bits().len() + 8,
            self.bits().len() <= 8 * r@.len(),
            forall|k: int|
                0 <= k < self.bits().len() ==> self.bits()[k] == octet_bits(r@[k / 8])[k
                    % 8],
            forall|j: int|
                self.bits().len() <= j < 8 * r@.len() ==> (#[trigger] octet_bits(r@[j / 8])[j
                    % 8]) == false,
    {
        proof {
            assert forall|j: int|
                self.bits().len() <= j < 8 * self.vector@.len() implies (#[trigger] octet_bits(
                self.vector@[j / 8],
            )[j % 8]) == false by {
                lemma_div8_range(j, self.byte_index as int);
            }
        }
        let n = self.vector.len();
        let mut r: Vec<u8> = Vec::with_capacity(n);
        let mut index: usize = 0;
        while index < n
            invariant
                n == self.vector@.len(),
                index <= n,
                r@ == self.vector@.subrange(0, index as int),
            decreases n - index,
        {
            r.push(self.vector[index]);
            proof {
                assert(r@ =~= self.vector@.subrange(0, index + 1));
            }
            index += 1;
        }
        proof {
            assert(r@ =~= self.vector@);
        }
        r
    }
}

/// Cross-backing parity: two byte buffers that carry the same stream of
/// bits, with clear padding after it, hold identical bytes, whether they
/// are kept signed or unsigned.
pub proof fn lemma_cross_backing_parity(bits: Seq<bool>, a: Seq<i8>, b: Seq<u8>)
    requires
        8 * a.len() < bits.len() + 8,
        bits.len() <= 8 * a.len(),
        8 * b.len() < bits.len() + 8,
        bits.len() <= 8 * b.len(),
        forall|k: int| 0 <= k < bits.len() ==> bits[k] == octet_bits(a[k / 8] as u8)[k % 8],
        forall|j: int|
            bits.len() <= j < 8 * a.len() ==> (#[trigger] octet_bits(a[j / 8] as u8)[j % 8])
                == false,
        forall|k: int| 0 <= k < bits.len() ==> bits[k] == octet_bits(b[k / 8])[k % 8],
        forall|j: int|
            bits.len() <= j < 8 * b.len() ==> (#[trigger] octet_bits(b[j / 8])[j % 8]) == false,
    ensures
        a.len() == b.len(),
        forall|i: int| 0 <= i < a.len() ==> a[i] as u8 == b[i],
{
    assert(a.len() == b.len());
    assert forall|i: int| 0 <= i < a.len() implies a[i] as u8 == b[i] by {
        lemma_octet_bits_len(a[i] as u8);
        lemma_octet_bits_len(b[i]);
        assert forall|j: int| 0 <= j < 8 implies octet_bits(a[i] as u8)[j] == octet_bits(
            b[i],
        )[j] by {
            lemma_div8_range(8 * i + j, i);
            assert(octet_bits(a[i] as u8)[j] == (if 8 * i + j < bits.len() {
                bits[8 * i + j]
            } else {
                false
            }));
            assert(octet_bits(b[i])[j] == (if 8 * i + j < bits.len() {
                bits[8 * i + j]
            } else {
                false
            }));
        }
        assert(octet_bits(a[i] as u8) =~= octet_bits(b[i]));
        lemma_octet_value_of_octet_bits(a[i] as u8);
        lemma_octet_value_of_octet_bits(b[i]);
    }
}

} // verus!
