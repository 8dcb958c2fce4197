//! Readers: sequential sources that yield back the values a writer stored,
//! when read in the order the writer wrote.
use vstd::prelude::*;
use crate::converter::bool_slice_to_i8;
use crate::converter::bool_array_to_i8;
use crate::converter::i8_to_bool_array;
use crate::converter::i8s_to_i16;
use crate::converter::i8s_to_u16;
use crate::converter::i8s_to_i32;
use crate::converter::i8s_to_u32;
use crate::converter::bools_to_sized_i64;
use crate::converter::bools_to_sized_u64;
use crate::model::octet_bits;
use crate::model::octet_value;
use crate::model::bits_value;
use crate::model::sized_i64_value;
use crate::model::i8_of_bits;
use crate::model::u8_of_bits;
use crate::model::i16_of_bits;
use crate::model::u16_of_bits;
use crate::model::i32_of_bits;
use crate::model::u32_of_bits;
use crate::model::i8_seq_of_bits;
use crate::model::u8_seq_of_bits;
use crate::model::i16_seq_of_bits;
use crate::model::u16_seq_of_bits;
use crate::model::i32_seq_of_bits;
use crate::model::u32_seq_of_bits;
use crate::model::lemma_le_value_2;
use crate::model::lemma_le_value_4;
use crate::model::lemma_octet_value_of_octet_bits;
use crate::model::lemma_octet_bits_len;
use crate::model::lemma_cast_u8_identity;
use crate::model::lemma_cast_i8_identity;
use crate::model::lemma_cast_i16_identity;
use crate::model::lemma_cast_i32_identity;
use crate::model::lemma_i8_as_u8;
use crate::model::lemma_bits_value_bound;
use crate::model::lemma_octet_bits_of_octet_value;
use crate::model::lemma_unsigned_bits_len;
use crate::model::lemma_div8_range;
use crate::model::requested_bits_of;
use crate::model::parse_string;
use crate::model::parse_string_body;
use crate::model::StringParse;
use crate::text::utf16_of;
use crate::text::valid_utf16;
use crate::text::string_from_utf16;

verus! {


/// Returned when more bits are asked for than the input still holds. All
/// three fields count bits: how many were consumed so far, how many the
/// input holds in all, and how many more were asked for.
#[derive(Debug, PartialEq, Eq, Structural)]
pub struct InputCapacityError {
    pub current_capacity: usize,
    pub max_capacity: usize,
    pub requested_extra_capacity: usize,
}

/// The capacity error a reader at bit `pos` of `len` bits reports for a
/// request of `requested` more.
pub open spec fn capacity_error(pos: nat, len: nat, requested: usize) -> InputCapacityError {
    InputCapacityError {
        current_capacity: pos as usize,
        max_capacity: len as usize,
        requested_extra_capacity: requested,
    }
}

impl InputCapacityError {
    /// How many bits had been consumed when the request failed.
    pub fn current_capacity(&self) -> (r: usize)
        ensures
            r == self.current_capacity,
    {
        self.current_capacity
    }

    /// How many bits the input holds in all.
    pub fn max_capacity(&self) -> (r: usize)
        ensures
            r == self.max_capacity,
    {
        self.max_capacity
    }

    /// How many more bits were asked for.
    pub fn requested_extra_capacity(&self) -> (r: usize)
        ensures
            r == self.requested_extra_capacity,
    {
        self.requested_extra_capacity
    }
}

/// Returned when the length read ahead of a string is negative or larger
/// than the bound the caller allowed.
#[derive(Debug, PartialEq, Eq, Structural)]
pub struct StringLengthError {
    pub read_length: i32,
    pub max_length: usize,
}

impl StringLengthError {
    /// The error for a negative declared length.
    pub fn negative(read_length: i32) -> (r: StringLengthError)
        ensures
            r == (StringLengthError { read_length, max_length: 0 }),
    {
        StringLengthError { read_length, max_length: 0 }
    }

    /// The error for a declared length above the caller's bound.
    pub fn long(read_length: i32, max_length: usize) -> (r: StringLengthError)
        ensures
            r == (StringLengthError { read_length, max_length }),
    {
        StringLengthError { read_length, max_length }
    }
}

/// Returned when decoded character data is not well-formed text.
#[derive(Debug, PartialEq, Eq, Structural)]
pub struct InvalidStringError;

/// Everything that can go wrong while reading: too few bits left, a bad
/// string length, or character data that is not valid text.
#[derive(Debug, PartialEq, Eq, Structural)]
pub enum BitInputError {
    InputCapacity(InputCapacityError),
    InvalidString(InvalidStringError),
    StringLength(StringLengthError),
}

impl core::convert::From<InputCapacityError> for BitInputError {
    fn from(error: InputCapacityError) -> (r: BitInputError) {
        BitInputError::InputCapacity(error)
    }
}

impl vstd::std_specs::convert::FromSpecImpl<InputCapacityError> for BitInputError {
    open spec fn obeys_from_spec() -> bool {
        true
    }

    open spec fn from_spec(error: InputCapacityError) -> BitInputError {
        BitInputError::InputCapacity(error)
    }
}

/// Instances of BitInput read back, in order, the values that the mirror
/// calls of a BitOutput stored. Checked variants report a capacity error
/// instead of running past the end; `direct` variants require the capacity
/// to have been checked already and read the same bits.
pub trait BitInput: Sized {
    /// The whole stream of bits this reader was given.
    spec fn stream(&self) -> Seq<bool>;

    /// How many bits have been consumed.
    spec fn pos(&self) -> nat;

    /// Internal consistency of this reader.
    spec fn inv(&self) -> bool;

    /// Reads one bit without checking capacity.
    fn read_direct_bool(&mut self) -> (r: bool)
        requires
            old(self).inv(),
            old(self).pos() + 1 <= old(self).stream().len(),
        ensures
            final(self).inv(),
            final(self).stream() == old(self).stream(),
            final(self).pos() == old(self).pos() + 1,
            r == old(self).stream()[old(self).pos() as int],
    ;

    /// Reads one signed byte without checking capacity.
    fn read_direct_i8(&mut self) -> (r: i8)
        requires
            old(self).inv(),
            old(self).pos() + 8 <= old(self).stream().len(),
        ensures
            final(self).inv(),
            final(self).stream() == old(self).stream(),
            final(self).pos() == old(self).pos() + 8,
            r == i8_of_bits(
                old(self).stream().subrange(old(self).pos() as int, old(self).pos() as int + 8),
            ),
    ;

    /// Checks that at least `extra_bools` more bits can be read; on failure
    /// nothing is consumed and the error carries the position, the total
    /// and the request.
    fn ensure_extra_capacity(&mut self, extra_bools: usize) -> (r: Result<(), InputCapacityError>)
        requires
            old(self).inv(),
        ensures
            final(self).inv(),
            final(self).stream() == old(self).stream(),
            final(self).pos() == old(self).pos(),
            old(self).pos() <= old(self).stream().len() <= usize::MAX,
            r is Ok <==> old(self).pos() + extra_bools <= old(self).stream().len(),
            r is Err ==> r == Err::<(), InputCapacityError>(
                capacity_error(old(self).pos(), old(self).stream().len(), extra_bools),
            ),
    ;

    /// Marks this reader as finished; owned data may be released and no
    /// further reads are allowed.
    fn terminate(&mut self)
        requires
            old(self).inv(),
    ;

    /// Reads one unsigned byte without checking capacity.
    fn read_direct_u8(&mut self) -> (r: u8)
        requires
            old(self).inv(),
            old(self).pos() + 8 <= old(self).stream().len(),
        ensures
            final(self).inv(),
            final(self).stream() == old(self).stream(),
            final(self).pos() == old(self).pos() + 8,
            r == u8_of_bits(
                old(self).stream().subrange(old(self).pos() as int, old(self).pos() as int + 8),
            ),
    {
        let b = self.read_direct_i8();
        proof {
            lemma_cast_u8_identity(
                octet_value(
                    old(self).stream().subrange(old(self).pos() as int, old(self).pos() as int + 8),
                ),
            );
        }
        #[verifier::truncate] (b as u8)
    }

    /// Reads one `i16`, least significant byte first, without checking
    /// capacity.
    fn read_direct_i16(&mut self) -> (r: i16)
        requires
            old(self).inv(),
            old(self).pos() + 16 <= old(self).stream().len(),
        ensures
            final(self).inv(),
            final(self).stream() == old(self).stream(),
            final(self).pos() == old(self).pos() + 16,
            r == i16_of_bits(
                old(self).stream().subrange(old(self).pos() as int, old(self).pos() as int + 16),
            ),
    {
        let b1 = self.read_direct_i8();
        let b2 = self.read_direct_i8();
        let r = i8s_to_i16(b1, b2);
        proof {
            let p = old(self).pos() as int;
            let s = old(self).stream().subrange(p, p + 16);
            assert(old(self).stream().subrange(p + 0, p + 8) =~= s.subrange(0, 8));
            assert(old(self).stream().subrange(p + 8, p + 16) =~= s.subrange(8, 16));
            lemma_cast_u8_identity(octet_value(s.subrange(0, 8)));
            lemma_cast_u8_identity(octet_value(s.subrange(8, 16)));
            lemma_le_value_2(s);
            lemma_cast_i16_identity(r);
        }
        r
    }

    /// Reads one `u16`, least significant byte first, without checking
    /// capacity.
    fn read_direct_u16(&mut self) -> (r: u16)
        requires
            old(self).inv(),
            old(self).pos() + 16 <= old(self).stream().len(),
        ensures
            final(self).inv(),
            final(self).stream() == old(self).stream(),
            final(self).pos() == old(self).pos() + 16,
            r == u16_of_bits(
                old(self).stream().subrange(old(self).pos() as int, old(self).pos() as int + 16),
            ),
    {
        let b1 = self.read_direct_i8();
        let b2 = self.read_direct_i8();
        let r = i8s_to_u16(b1, b2);
        proof {
            let p = old(self).pos() as int;
            let s = old(self).stream().subrange(p, p + 16);
            assert(old(self).stream().subrange(p + 0, p + 8) =~= s.subrange(0, 8));
            assert(old(self).stream().subrange(p + 8, p + 16) =~= s.subrange(8, 16));
            lemma_cast_u8_identity(octet_value(s.subrange(0, 8)));
            lemma_cast_u8_identity(octet_value(s.subrange(8, 16)));
            lemma_le_value_2(s);
            
        }
        r
    }

    /// Reads one `i32`, least significant byte first, without checking
    /// capacity.
    fn read_direct_i32(&mut self) -> (r: i32)
        requires
            old(self).inv(),
            old(self).pos() + 32 <= old(self).stream().len(),
        ensures
            final(self).inv(),
            final(self).stream() == old(self).stream(),
            final(self).pos() == old(self).pos() + 32,
            r == i32_of_bits(
                old(self).stream().subrange(old(self).pos() as int, old(self).pos() as int + 32),
            ),
    {
        let b1 = self.read_direct_i8();
        let b2 = self.read_direct_i8();
        let b3 = self.read_direct_i8();
        let b4 = self.read_direct_i8();
        let r = i8s_to_i32(b1, b2, b3, b4);
        proof {
            let p = old(self).pos() as int;
            let s = old(self).stream().subrange(p, p + 32);
            assert(old(self).stream().subrange(p + 0, p + 8) =~= s.subrange(0, 8));
            assert(old(self).stream().subrange(p + 8, p + 16) =~= s.subrange(8, 16));
            assert(old(self).stream().subrange(p + 16, p + 24) =~= s.subrange(16, 24));
            assert(old(self).stream().subrange(p + 24, p + 32) =~= s.subrange(24, 32));
            lemma_cast_u8_identity(octet_value(s.subrange(0, 8)));
            lemma_cast_u8_identity(octet_value(s.subrange(8, 16)));
            lemma_cast_u8_identity(octet_value(s.subrange(16, 24)));
            lemma_cast_u8_identity(octet_value(s.subrange(24, 32)));
            lemma_le_value_4(s);
            lemma_cast_i32_identity(r);
        }
        r
    }

    /// Reads one `u32`, least significant byte first, without checking
    /// capacity.
    fn read_direct_u32(&mut self) -> (r: u32)
        requires
            old(self).inv(),
            old(self).pos() + 32 <= old(self).stream().len(),
        ensures
            final(self).inv(),
            final(self).stream() == old(self).stream(),
            final(self).pos() == old(self).pos() + 32,
            r == u32_of_bits(
                old(self).stream().subrange(old(self).pos() as int, old(self).pos() as int + 32),
            ),
    {
        let b1 = self.read_direct_i8();
        let b2 = self.read_direct_i8();
        let b3 = self.read_direct_i8();
        let b4 = self.read_direct_i8();
        let r = i8s_to_u32(b1, b2, b3, b4);
        proof {
            let p = old(self).pos() as int;
            let s = old(self).stream().subrange(p, p + 32);
            assert(old(self).stream().subrange(p + 0, p + 8) =~= s.subrange(0, 8));
            assert(old(self).stream().subrange(p + 8, p + 16) =~= s.subrange(8, 16));
            assert(old(self).stream().subrange(p + 16, p + 24) =~= s.subrange(16, 24));
            assert(old(self).stream().subrange(p + 24, p + 32) =~= s.subrange(24, 32));
            lemma_cast_u8_identity(octet_value(s.subrange(0, 8)));
            lemma_cast_u8_identity(octet_value(s.subrange(8, 16)));
            lemma_cast_u8_identity(octet_value(s.subrange(16, 24)));
            lemma_cast_u8_identity(octet_value(s.subrange(24, 32)));
            lemma_le_value_4(s);
            
        }
        r
    }

    /// Reads one `i8`, or reports that too few bits are left.
    fn read_i8(&mut self) -> (r: Result<i8, BitInputError>)
        requires
            old(self).inv(),
        ensures
            final(self).inv(),
            final(self).stream() == old(self).stream(),
            old(self).pos() + 8 <= old(self).stream().len() ==> {
                &&& final(self).pos() == old(self).pos() + 8
                &&& r == Ok::<i8, BitInputError>(
                    i8_of_bits(
                        old(self).stream().subrange(old(self).pos() as int, old(self).pos() as int + 8),
                    ),
                )
            },
            old(self).pos() + 8 > old(self).stream().len() ==> {
                &&& final(self).pos() == old(self).pos()
                &&& r == Err::<i8, BitInputError>(
                    BitInputError::InputCapacity(
                        capacity_error(old(self).pos(), old(self).stream().len(), 8),
                    ),
                )
            },
    {
        if let Err(e) = self.ensure_extra_capacity(8) {
            return Err(BitInputError::InputCapacity(e));
        }
        Ok(self.read_direct_i8())
    }

    /// Reads one `u8`, or reports that too few bits are left.
    fn read_u8(&mut self) -> (r: Result<u8, BitInputError>)
        requires
            old(self).inv(),
        ensures
            final(self).inv(),
            final(self).stream() == old(self).stream(),
            old(self).pos() + 8 <= old(self).stream().len() ==> {
                &&& final(self).pos() == old(self).pos() + 8
                &&& r == Ok::<u8, BitInputError>(
                    u8_of_bits(
                        old(self).stream().subrange(old(self).pos() as int, old(self).pos() as int + 8),
                    ),
                )
            },
            old(self).pos() + 8 > old(self).stream().len() ==> {
                &&& final(self).pos() == old(self).pos()
                &&& r == Err::<u8, BitInputError>(
                    BitInputError::InputCapacity(
                        capacity_error(old(self).pos(), old(self).stream().len(), 8),
                    ),
                )
            },
    {
        if let Err(e) = self.ensure_extra_capacity(8) {
            return Err(BitInputError::InputCapacity(e));
        }
        Ok(self.read_direct_u8())
    }

    /// Reads one `i16`, or reports that too few bits are left.
    fn read_i16(&mut self) -> (r: Result<i16, BitInputError>)
        requires
            old(self).inv(),
        ensures
            final(self).inv(),
            final(self).stream() == old(self).stream(),
            old(self).pos() + 16 <= old(self).stream().len() ==> {
                &&& final(self).pos() == old(self).pos() + 16
                &&& r == Ok::<i16, BitInputError>(
                    i16_of_bits(
                        old(self).stream().subrange(old(self).pos() as int, old(self).pos() as int + 16),
                    ),
                )
            },
            old(self).pos() + 16 > old(self).stream().len() ==> {
                &&& final(self).pos() == old(self).pos()
                &&& r == Err::<i16, BitInputError>(
                    BitInputError::InputCapacity(
                        capacity_error(old(self).pos(), old(self).stream().len(), 16),
                    ),
                )
            },
    {
        if let Err(e) = self.ensure_extra_capacity(16) {
            return Err(BitInputError::InputCapacity(e));
        }
        Ok(self.read_direct_i16())
    }

    /// Reads one `u16`, or reports that too few bits are left.
    fn read_u16(&mut self) -> (r: Result<u16, BitInputError>)
        requires
            old(self).inv(),
        ensures
            final(self).inv(),
            final(self).stream() == old(self).stream(),
            old(self).pos() + 16 <= old(self).stream().len() ==> {
                &&& final(self).pos() == old(self).pos() + 16
                &&& r == Ok::<u16, BitInputError>(
                    u16_of_bits(
                        old(self).stream().subrange(old(self).pos() as int, old(self).pos() as int + 16),
                    ),
                )
            },
            old(self).pos() + 16 > old(self).stream().len() ==> {
                &&& final(self).pos() == old(self).pos()
                &&& r == Err::<u16, BitInputError>(
                    BitInputError::InputCapacity(
                        capacity_error(old(self).pos(), old(self).stream().len(), 16),
                    ),
                )
            },
    {
        if let Err(e) = self.ensure_extra_capacity(16) {
            return Err(BitInputError::InputCapacity(e));
        }
        Ok(self.read_direct_u16())
    }

    /// Reads one `i32`, or reports that too few bits are left.
    fn read_i32(&mut self) -> (r: Result<i32, BitInputError>)
        requires
            old(self).inv(),
        ensures
            final(self).inv(),
            final(self).stream() == old(self).stream(),
            old(self).pos() + 32 <= old(self).stream().len() ==> {
                &&& final(self).pos() == old(self).pos() + 32
                &&& r == Ok::<i32, BitInputError>(
                    i32_of_bits(
                        old(self).stream().subrange(old(self).pos() as int, old(self).pos() as int + 32),
                    ),
                )
            },
            old(self).pos() + 32 > old(self).stream().len() ==> {
                &&& final(self).pos() == old(self).pos()
                &&& r == Err::<i32, BitInputError>(
                    BitInputError::InputCapacity(
                        capacity_error(old(self).pos(), old(self).stream().len(), 32),
                    ),
                )
            },
    {
        if let Err(e) = self.ensure_extra_capacity(32) {
            return Err(BitInputError::InputCapacity(e));
        }
        Ok(self.read_direct_i32())
    }

    /// Reads one `u32`, or reports that too few bits are left.
    fn read_u32(&mut self) -> (r: Result<u32, BitInputError>)
        requires
            old(self).inv(),
        ensures
            final(self).inv(),
            final(self).stream() == old(self).stream(),
            old(self).pos() + 32 <= old(self).stream().len() ==> {
                &&& final(self).pos() == old(self).pos() + 32
                &&& r == Ok::<u32, BitInputError>(
                    u32_of_bits(
                        old(self).stream().subrange(old(self).pos() as int, old(self).pos() as int + 32),
                    ),
                )
            },
            old(self).pos() + 32 > old(self).stream().len() ==> {
                &&& final(self).pos() == old(self).pos()
                &&& r == Err::<u32, BitInputError>(
                    BitInputError::InputCapacity(
                        capacity_error(old(self).pos(), old(self).stream().len(), 32),
                    ),
                )
            },
    {
        if let Err(e) = self.ensure_extra_capacity(32) {
            return Err(BitInputError::InputCapacity(e));
        }
        Ok(self.read_direct_u32())
    }

    /// Reads `amount` bits into a new vector, in order, without checking
    /// capacity.
    fn read_direct_bools(&mut self, amount: usize) -> (r: Vec<bool>)
        requires
            old(self).inv(),
            old(self).pos() + amount <= old(self).stream().len(),
        ensures
            final(self).inv(),
            final(self).stream() == old(self).stream(),
            final(self).pos() == old(self).pos() + amount,
            r@ == old(self).stream().subrange(
                old(self).pos() as int,
                old(self).pos() as int + amount,
            ),
    {
        let mut result: Vec<bool> = Vec::with_capacity(amount);
        let mut index: usize = 0;
        proof {
            assert(result@ =~= old(self).stream().subrange(
                old(self).pos() as int,
                old(self).pos() as int,
            ));
        }
        while index < amount
            invariant
                self.inv(),
                index <= amount,
                self.stream() == old(self).stream(),
                old(self).pos() + amount <= old(self).stream().len(),
                self.pos() == old(self).pos() + index,
                result@ == old(self).stream().subrange(
                    old(self).pos() as int,
                    old(self).pos() as int + index,
                ),
            decreases amount - index,
        {
            let b = self.read_direct_bool();
            result.push(b);
            index += 1;
            proof {
                assert(result@ =~= old(self).stream().subrange(
                    old(self).pos() as int,
                    old(self).pos() as int + index,
                ));
            }
        }
        result
    }

    /// Reads back the signed value that was stored in the next `bits`
    /// bits, or reports that too few bits are left.
    fn read_sized_i64(&mut self, bits: usize) -> (r: Result<i64, BitInputError>)
        requires
            old(self).inv(),
            1 <= bits <= 64,
        ensures
            final(self).inv(),
            final(self).stream() == old(self).stream(),
            old(self).pos() + bits <= old(self).stream().len() ==> {
                &&& final(self).pos() == old(self).pos() + bits
                &&& r == Ok::<i64, BitInputError>(
                    sized_i64_value(
                        old(self).stream().subrange(
                            old(self).pos() as int,
                            old(self).pos() as int + bits,
                        ),
                    ),
                )
            },
            old(self).pos() + bits > old(self).stream().len() ==> {
                &&& final(self).pos() == old(self).pos()
                &&& r == Err::<i64, BitInputError>(
                    BitInputError::InputCapacity(
                        capacity_error(old(self).pos(), old(self).stream().len(), bits),
                    ),
                )
            },
    {
        if let Err(e) = self.ensure_extra_capacity(bits) {
            return Err(BitInputError::InputCapacity(e));
        }
        let bools = self.read_direct_bools(bits);
        proof {
            assert(bools@.subrange(0, bits as int) =~= bools@);
        }
        Ok(bools_to_sized_i64(bits, bools.as_slice(), 0))
    }

    /// Reads back the unsigned value stored in the next `bits` bits,
    /// without checking capacity.
    fn read_direct_sized_u64(&mut self, bits: usize) -> (r: u64)
        requires
            old(self).inv(),
            bits <= 64,
            old(self).pos() + bits <= old(self).stream().len(),
        ensures
            final(self).inv(),
            final(self).stream() == old(self).stream(),
            final(self).pos() == old(self).pos() + bits,
            r as nat == bits_value(
                old(self).stream().subrange(old(self).pos() as int, old(self).pos() as int + bits),
            ),
    {
        let bools = self.read_direct_bools(bits);
        proof {
            assert(bools@.subrange(0, bits as int) =~= bools@);
        }
        bools_to_sized_u64(bits, bools.as_slice(), 0)
    }

    /// Reads back the unsigned value stored in the next `bits` bits, or
    /// reports that too few bits are left.
    fn read_sized_u64(&mut self, bits: usize) -> (r: Result<u64, BitInputError>)
        requires
            old(self).inv(),
            bits <= 64,
        ensures
            final(self).inv(),
            final(self).stream() == old(self).stream(),
            old(self).pos() + bits <= old(self).stream().len() ==> {
                &&& final(self).pos() == old(self).pos() + bits
                &&& r matches Ok(v) && v as nat == bits_value(
                    old(self).stream().subrange(old(self).pos() as int, old(self).pos() as int + bits),
                )
            },
            old(self).pos() + bits > old(self).stream().len() ==> {
                &&& final(self).pos() == old(self).pos()
                &&& r == Err::<u64, BitInputError>(
                    BitInputError::InputCapacity(
                        capacity_error(old(self).pos(), old(self).stream().len(), bits),
                    ),
                )
            },
    {
        if let Err(e) = self.ensure_extra_capacity(bits) {
            return Err(BitInputError::InputCapacity(e));
        }
        Ok(self.read_direct_sized_u64(bits))
    }

    /// Reads back a self-describing unsigned value without checking
    /// capacity: six bits give one less than the payload width, and the
    /// payload follows.
    fn read_direct_var_u64(&mut self) -> (r: u64)
        requires
            old(self).inv(),
            old(self).pos() + 6 <= old(self).stream().len(),
            old(self).pos() + 7 + bits_value(
                old(self).stream().subrange(old(self).pos() as int, old(self).pos() as int + 6),
            ) <= old(self).stream().len(),
        ensures
            final(self).inv(),
            final(self).stream() == old(self).stream(),
            final(self).pos() == old(self).pos() + 7 + bits_value(
                old(self).stream().subrange(old(self).pos() as int, old(self).pos() as int + 6),
            ),
            r as nat == bits_value(
                old(self).stream().subrange(
                    old(self).pos() as int + 6,
                    old(self).pos() as int + 7 + bits_value(
                        old(self).stream().subrange(old(self).pos() as int, old(self).pos() as int + 6),
                    ),
                ),
            ),
    {
        proof {
            lemma_bits_value_bound(
                old(self).stream().subrange(old(self).pos() as int, old(self).pos() as int + 6),
            );
            vstd::arithmetic::power2::lemma2_to64();
        }
        let bits = self.read_direct_sized_u64(6) + 1;
        self.read_direct_sized_u64(bits as usize)
    }

    /// Reads back a self-describing unsigned value, or reports that too
    /// few bits are left for the width field or for the payload it
    /// declares.
    fn read_var_u64(&mut self) -> (r: Result<u64, BitInputError>)
        requires
            old(self).inv(),
        ensures
            final(self).inv(),
            final(self).stream() == old(self).stream(),
            old(self).pos() + 6 > old(self).stream().len() ==> {
                &&& final(self).pos() == old(self).pos()
                &&& r == Err::<u64, BitInputError>(
                    BitInputError::InputCapacity(
                        capacity_error(old(self).pos(), old(self).stream().len(), 6),
                    ),
                )
            },
            ({
                let width = (bits_value(
                    old(self).stream().subrange(old(self).pos() as int, old(self).pos() as int + 6),
                ) + 1) as usize;
                &&& (old(self).pos() + 6 <= old(self).stream().len() && old(self).pos() + 6 + width
                    > old(self).stream().len()) ==> {
                    &&& final(self).pos() == old(self).pos() + 6
                    &&& r == Err::<u64, BitInputError>(
                        BitInputError::InputCapacity(
                            capacity_error(old(self).pos() + 6, old(self).stream().len(), width),
                        ),
                    )
                }
                &&& (old(self).pos() + 6 + width <= old(self).stream().len()) ==> {
                    &&& final(self).pos() == old(self).pos() + 6 + width
                    &&& r matches Ok(v) && v as nat == bits_value(
                        old(self).stream().subrange(
                            old(self).pos() as int + 6,
                            old(self).pos() as int + 6 + width,
                        ),
                    )
                }
            }),
    {
        proof {
            lemma_bits_value_bound(
                old(self).stream().subrange(old(self).pos() as int, old(self).pos() as int + 6),
            );
            vstd::arithmetic::power2::lemma2_to64();
        }
        let bits = match self.read_sized_u64(6) {
            Ok(b) => b + 1,
            Err(e) => {
                return Err(e);
            },
        };
        self.read_sized_u64(bits as usize)
    }

    /// Reads `amount` values into `dest` at `start_index` and the slots
    /// after it, which must exist, without checking capacity.
    fn read_direct_bools_to_slice(&mut self, dest: &mut Vec<bool>, start_index: usize, amount: usize)
        requires
            old(self).inv(),
            start_index + amount <= old(dest)@.len(),
            old(self).pos() + amount <= old(self).stream().len(),
        ensures
            final(self).inv(),
            final(self).stream() == old(self).stream(),
            final(self).pos() == old(self).pos() + amount,
            final(dest)@.len() == old(dest)@.len(),
            forall|j: int|
                0 <= j < old(dest)@.len() && !(start_index <= j < start_index + amount)
                    ==> final(dest)@[j] == old(dest)@[j],
            forall|j: int|
                start_index <= j < start_index + amount ==> final(dest)@[j] == old(self).stream()[old(self).pos() + j - start_index],
    {
        let total = dest.len();
        let bound_index = start_index + amount;
        let mut index: usize = start_index;
        while index < bound_index
            invariant
                self.inv(),
                start_index <= index <= bound_index,
                bound_index == start_index + amount,
                bound_index <= dest@.len(),
                dest@.len() == old(dest)@.len(),
                self.stream() == old(self).stream(),
                old(self).pos() + amount <= old(self).stream().len(),
                self.pos() == old(self).pos() + (index - start_index) * 1,
                forall|j: int|
                    0 <= j < old(dest)@.len() && !(start_index <= j < index) ==> dest@[j]
                        == old(dest)@[j],
                forall|j: int|
                    start_index <= j < index ==> dest@[j] == old(self).stream()[old(self).pos() + j - start_index],
            decreases bound_index - index,
        {
            let v = self.read_direct_bool();
            dest[index] = v;
            index += 1;
        }
    }

    /// Reads `amount` values into `dest` at `start_index` and the slots
    /// after it, growing `dest` first when it is too short, without
    /// checking capacity.
    fn read_direct_bools_to_vec(&mut self, dest: &mut Vec<bool>, start_index: usize, amount: usize)
        requires
            old(self).inv(),
            start_index + amount <= usize::MAX,
            old(self).pos() + amount <= old(self).stream().len(),
        ensures
            final(self).inv(),
            final(self).stream() == old(self).stream(),
            final(self).pos() == old(self).pos() + amount,
            final(dest)@.len() == (if old(dest)@.len() >= start_index + amount {
                old(dest)@.len() as int
            } else {
                start_index + amount
            }),
            forall|j: int|
                0 <= j < final(dest)@.len() && !(start_index <= j < start_index + amount)
                    ==> final(dest)@[j] == (if j < old(dest)@.len() {
                    old(dest)@[j]
                } else {
                    false
                }),
            forall|j: int|
                start_index <= j < start_index + amount ==> final(dest)@[j] == old(self).stream()[old(self).pos() + j - start_index],
    {
        let bound_index = start_index + amount;
        if bound_index > dest.len() {
            dest.resize(bound_index, false);
        }
        self.read_direct_bools_to_slice(dest, start_index, amount);
    }

    /// Checked form of the matching direct read: fails, and consumes
    /// nothing, when too few bits are left.
    fn read_bools_to_slice(&mut self, dest: &mut Vec<bool>, start_index: usize, amount: usize) -> (r: Result<(), BitInputError>)
        requires
            old(self).inv(),
            start_index + amount <= old(dest)@.len(),
        ensures
            final(self).inv(),
            final(self).stream() == old(self).stream(),
            old(self).pos() + amount <= old(self).stream().len() ==> {
                &&& final(self).pos() == old(self).pos() + amount
                &&& r == Ok::<(), BitInputError>(())
                &&& final(dest)@.len() == old(dest)@.len()
                &&& (forall|j: int|
                    0 <= j < old(dest)@.len() && !(start_index <= j < start_index + amount)
                        ==> final(dest)@[j] == old(dest)@[j])
                &&& (forall|j: int|
                    start_index <= j < start_index + amount ==> final(dest)@[j] == old(self).stream()[old(self).pos() + j - start_index])
            },
            old(self).pos() + amount > old(self).stream().len() ==> {
                &&& final(self).pos() == old(self).pos()
                &&& final(dest)@ == old(dest)@
                &&& r == Err::<(), BitInputError>(BitInputError::InputCapacity(capacity_error(old(self).pos(), old(self).stream().len(), amount as usize)))
            },
    {
        if let Err(e) = self.ensure_extra_capacity(amount) {
            return Err(BitInputError::InputCapacity(e));
        }
        self.read_direct_bools_to_slice(dest, start_index, amount);
        Ok(())
    }

    /// Checked form of the matching direct read: fails, and consumes
    /// nothing, when too few bits are left.
    fn read_bools_to_vec(&mut self, dest: &mut Vec<bool>, start_index: usize, amount: usize) -> (r: Result<(), BitInputError>)
        requires
            old(self).inv(),
            start_index + amount <= usize::MAX,
        ensures
            final(self).inv(),
            final(self).stream() == old(self).stream(),
            old(self).pos() + amount <= old(self).stream().len() ==> {
                &&& final(self).pos() == old(self).pos() + amount
                &&& r == Ok::<(), BitInputError>(())
                &&& final(dest)@.len() == (if old(dest)@.len() >= start_index + amount {
                    old(dest)@.len() as int
                } else {
                    start_index + amount
                })
                &&& (forall|j: int|
                    0 <= j < final(dest)@.len() && !(start_index <= j < start_index + amount)
                        ==> final(dest)@[j] == (if j < old(dest)@.len() {
                        old(dest)@[j]
                    } else {
                        false
                    }))
                &&& (forall|j: int|
                    start_index <= j < start_index + amount ==> final(dest)@[j] == old(self).stream()[old(self).pos() + j - start_index])
            },
            old(self).pos() + amount > old(self).stream().len() ==> {
                &&& final(self).pos() == old(self).pos()
                &&& final(dest)@ == old(dest)@
                &&& r == Err::<(), BitInputError>(BitInputError::InputCapacity(capacity_error(old(self).pos(), old(self).stream().len(), amount as usize)))
            },
    {
        if let Err(e) = self.ensure_extra_capacity(amount) {
            return Err(BitInputError::InputCapacity(e));
        }
        self.read_direct_bools_to_vec(dest, start_index, amount);
        Ok(())
    }

    /// Reads `amount` values into a new vector, or reports that too few
    /// bits are left, consuming nothing.
    fn read_bools(&mut self, amount: usize) -> (r: Result<Vec<bool>, BitInputError>)
        requires
            old(self).inv(),
        ensures
            final(self).inv(),
            final(self).stream() == old(self).stream(),
            old(self).pos() + amount <= old(self).stream().len() ==> {
                &&& final(self).pos() == old(self).pos() + amount
                &&& r matches Ok(v) && v@ == old(self).stream().subrange(old(self).pos() as int, old(self).pos() as int + amount)
            },
            old(self).pos() + amount > old(self).stream().len() ==> {
                &&& final(self).pos() == old(self).pos()
                &&& r == Err::<Vec<bool>, BitInputError>(BitInputError::InputCapacity(capacity_error(old(self).pos(), old(self).stream().len(), amount as usize)))
            },
    {
        if let Err(e) = self.ensure_extra_capacity(amount) {
            return Err(BitInputError::InputCapacity(e));
        }
        Ok(self.read_direct_bools(amount))
    }

    /// Reads a 32-bit count and then that many values, without checking
    /// capacity.
    fn read_direct_bool_vec(&mut self) -> (r: Vec<bool>)
        requires
            old(self).inv(),
            old(self).pos() + 32 <= old(self).stream().len(),
            old(self).pos() + 32 + (i32_of_bits(old(self).stream().subrange(old(self).pos() as int, old(self).pos() as int + 32)) as usize) * 1 <= old(self).stream().len(),
        ensures
            final(self).inv(),
            final(self).stream() == old(self).stream(),
            final(self).pos() == old(self).pos() + 32 + (i32_of_bits(old(self).stream().subrange(old(self).pos() as int, old(self).pos() as int + 32)) as usize) * 1,
            r@ == old(self).stream().subrange(old(self).pos() as int + 32, (old(self).pos() as int + 32) + ((i32_of_bits(old(self).stream().subrange(old(self).pos() as int, old(self).pos() as int + 32)) as usize) as nat)),
    {
        let amount32 = self.read_direct_i32();
        let amount = #[verifier::truncate] (amount32 as usize);
        self.read_direct_bools(amount)
    }

    /// Reads a 32-bit count and then that many values, or reports that too
    /// few bits are left for the count or for the values it declares.
    fn read_bool_vec(&mut self) -> (r: Result<Vec<bool>, BitInputError>)
        requires
            old(self).inv(),
        ensures
            final(self).inv(),
            final(self).stream() == old(self).stream(),
            old(self).pos() + 32 > old(self).stream().len() ==> {
                &&& final(self).pos() == old(self).pos()
                &&& r == Err::<Vec<bool>, BitInputError>(
                    BitInputError::InputCapacity(
                        capacity_error(old(self).pos(), old(self).stream().len(), 32),
                    ),
                )
            },
            ({
                let amount = (i32_of_bits(old(self).stream().subrange(old(self).pos() as int, old(self).pos() as int + 32)) as usize);
                &&& (old(self).pos() + 32 <= old(self).stream().len() && old(self).pos() + 32
                    + amount > old(self).stream().len()) ==> {
                    &&& final(self).pos() == old(self).pos() + 32
                    &&& r == Err::<Vec<bool>, BitInputError>(
                        BitInputError::InputCapacity(
                            capacity_error(
                                old(self).pos() + 32,
                                old(self).stream().len(),
                                requested_bits_of(amount as nat, 1),
                            ),
                        ),
                    )
                }
                &&& (old(self).pos() + 32 <= old(self).stream().len() && old(self).pos() + 32
                    + amount <= old(self).stream().len()) ==> {
                    &&& final(self).pos() == old(self).pos() + 32 + amount
                    &&& r matches Ok(v) && v@ == old(self).stream().subrange(old(self).pos() as int + 32, (old(self).pos() as int + 32) + ((i32_of_bits(old(self).stream().subrange(old(self).pos() as int, old(self).pos() as int + 32)) as usize) as nat))
                }
            }),
    {
        let amount32 = match self.read_i32() {
            Ok(v) => v,
            Err(e) => {
                return Err(e);
            },
        };
        let amount = #[verifier::truncate] (amount32 as usize);
        if let Err(e) = self.ensure_extra_capacity(amount) {
            return Err(BitInputError::InputCapacity(e));
        }
        Ok(self.read_direct_bools(amount))
    }

    /// Reads `amount` values of type `i8` into a new vector, in order,
    /// without checking capacity.
    fn read_direct_i8s(&mut self, amount: usize) -> (r: Vec<i8>)
        requires
            old(self).inv(),
            old(self).pos() + amount * 8 <= old(self).stream().len(),
        ensures
            final(self).inv(),
            final(self).stream() == old(self).stream(),
            final(self).pos() == old(self).pos() + amount * 8,
            r@ == i8_seq_of_bits(old(self).stream(), old(self).pos(), amount as nat),
    {
        let mut result: Vec<i8> = Vec::with_capacity(amount);
        let mut index: usize = 0;
        proof {
            assert(result@ =~= i8_seq_of_bits(old(self).stream(), old(self).pos(), 0));
        }
        while index < amount
            invariant
                self.inv(),
                index <= amount,
                self.stream() == old(self).stream(),
                old(self).pos() + amount * 8 <= old(self).stream().len(),
                self.pos() == old(self).pos() + index * 8,
                result@ == i8_seq_of_bits(old(self).stream(), old(self).pos(), index as nat),
            decreases amount - index,
        {
            let v = self.read_direct_i8();
            result.push(v);
            index += 1;
            proof {
                assert(result@ =~= i8_seq_of_bits(
                    old(self).stream(),
                    old(self).pos(),
                    index as nat,
                ));
            }
        }
        result
    }

    /// Reads `amount` values into `dest` at `start_index` and the slots
    /// after it, which must exist, without checking capacity.
    fn read_direct_i8s_to_slice(&mut self, dest: &mut Vec<i8>, start_index: usize, amount: usize)
        requires
            old(self).inv(),
            start_index + amount <= old(dest)@.len(),
            old(self).pos() + amount * 8 <= old(self).stream().len(),
        ensures
            final(self).inv(),
            final(self).stream() == old(self).stream(),
            final(self).pos() == old(self).pos() + amount * 8,
            final(dest)@.len() == old(dest)@.len(),
            forall|j: int|
                0 <= j < old(dest)@.len() && !(start_index <= j < start_index + amount)
                    ==> final(dest)@[j] == old(dest)@[j],
            forall|j: int|
                start_index <= j < start_index + amount ==> final(dest)@[j] == i8_seq_of_bits(old(self).stream(), old(self).pos(), amount as nat)[j - start_index],
    {
        let total = dest.len();
        let bound_index = start_index + amount;
        let mut index: usize = start_index;
        while index < bound_index
            invariant
                self.inv(),
                start_index <= index <= bound_index,
                bound_index == start_index + amount,
                bound_index <= dest@.len(),
                dest@.len() == old(dest)@.len(),
                self.stream() == old(self).stream(),
                old(self).pos() + amount * 8 <= old(self).stream().len(),
                self.pos() == old(self).pos() + (index - start_index) * 8,
                forall|j: int|
                    0 <= j < old(dest)@.len() && !(start_index <= j < index) ==> dest@[j]
                        == old(dest)@[j],
                forall|j: int|
                    start_index <= j < index ==> dest@[j] == i8_seq_of_bits(old(self).stream(), old(self).pos(), amount as nat)[j - start_index],
            decreases bound_index - index,
        {
            let v = self.read_direct_i8();
            dest[index] = v;
            index += 1;
        }
    }

    /// Reads `amount` values into `dest` at `start_index` and the slots
    /// after it, growing `dest` first when it is too short, without
    /// checking capacity.
    fn read_direct_i8s_to_vec(&mut self, dest: &mut Vec<i8>, start_index: usize, amount: usize)
        requires
            old(self).inv(),
            start_index + amount <= usize::MAX,
            old(self).pos() + amount * 8 <= old(self).stream().len(),
        ensures
            final(self).inv(),
            final(self).stream() == old(self).stream(),
            final(self).pos() == old(self).pos() + amount * 8,
            final(dest)@.len() == (if old(dest)@.len() >= start_index + amount {
                old(dest)@.len() as int
            } else {
                start_index + amount
            }),
            forall|j: int|
                0 <= j < final(dest)@.len() && !(start_index <= j < start_index + amount)
                    ==> final(dest)@[j] == (if j < old(dest)@.len() {
                    old(dest)@[j]
                } else {
                    0i8
                }),
            forall|j: int|
                start_index <= j < start_index + amount ==> final(dest)@[j] == i8_seq_of_bits(old(self).stream(), old(self).pos(), amount as nat)[j - start_index],
    {
        let bound_index = start_index + amount;
        if bound_index > dest.len() {
            dest.resize(bound_index, 0);
        }
        self.read_direct_i8s_to_slice(dest, start_index, amount);
    }

    /// Checked form of the matching direct read: fails, and consumes
    /// nothing, when too few bits are left.
    fn read_i8s_to_slice(&mut self, dest: &mut Vec<i8>, start_index: usize, amount: usize) -> (r: Result<(), BitInputError>)
        requires
            old(self).inv(),
            start_index + amount <= old(dest)@.len(),
            amount * 8 <= usize::MAX,
        ensures
            final(self).inv(),
            final(self).stream() == old(self).stream(),
            old(self).pos() + amount * 8 <= old(self).stream().len() ==> {
                &&& final(self).pos() == old(self).pos() + amount * 8
                &&& r == Ok::<(), BitInputError>(())
                &&& final(dest)@.len() == old(dest)@.len()
                &&& (forall|j: int|
                    0 <= j < old(dest)@.len() && !(start_index <= j < start_index + amount)
                        ==> final(dest)@[j] == old(dest)@[j])
                &&& (forall|j: int|
                    start_index <= j < start_index + amount ==> final(dest)@[j] == i8_seq_of_bits(old(self).stream(), old(self).pos(), amount as nat)[j - start_index])
            },
            old(self).pos() + amount * 8 > old(self).stream().len() ==> {
                &&& final(self).pos() == old(self).pos()
                &&& final(dest)@ == old(dest)@
                &&& r == Err::<(), BitInputError>(BitInputError::InputCapacity(capacity_error(old(self).pos(), old(self).stream().len(), (amount * 8) as usize)))
            },
    {
        if let Err(e) = self.ensure_extra_capacity(amount * 8) {
            return Err(BitInputError::InputCapacity(e));
        }
        self.read_direct_i8s_to_slice(dest, start_index, amount);
        Ok(())
    }

    /// Checked form of the matching direct read: fails, and consumes
    /// nothing, when too few bits are left.
    fn read_i8s_to_vec(&mut self, dest: &mut Vec<i8>, start_index: usize, amount: usize) -> (r: Result<(), BitInputError>)
        requires
            old(self).inv(),
            start_index + amount <= usize::MAX,
            amount * 8 <= usize::MAX,
        ensures
            final(self).inv(),
            final(self).stream() == old(self).stream(),
            old(self).pos() + amount * 8 <= old(self).stream().len() ==> {
                &&& final(self).pos() == old(self).pos() + amount * 8
                &&& r == Ok::<(), BitInputError>(())
                &&& final(dest)@.len() == (if old(dest)@.len() >= start_index + amount {
                    old(dest)@.len() as int
                } else {
                    start_index + amount
                })
                &&& (forall|j: int|
                    0 <= j < final(dest)@.len() && !(start_index <= j < start_index + amount)
                        ==> final(dest)@[j] == (if j < old(dest)@.len() {
                        old(dest)@[j]
                    } else {
                        0i8
                    }))
                &&& (forall|j: int|
                    start_index <= j < start_index + amount ==> final(dest)@[j] == i8_seq_of_bits(old(self).stream(), old(self).pos(), amount as nat)[j - start_index])
            },
            old(self).pos() + amount * 8 > old(self).stream().len() ==> {
                &&& final(self).pos() == old(self).pos()
                &&& final(dest)@ == old(dest)@
                &&& r == Err::<(), BitInputError>(BitInputError::InputCapacity(capacity_error(old(self).pos(), old(self).stream().len(), (amount * 8) as usize)))
            },
    {
        if let Err(e) = self.ensure_extra_capacity(amount * 8) {
            return Err(BitInputError::InputCapacity(e));
        }
        self.read_direct_i8s_to_vec(dest, start_index, amount);
        Ok(())
    }

    /// Reads `amount` values into a new vector, or reports that too few
    /// bits are left, consuming nothing.
    fn read_i8s(&mut self, amount: usize) -> (r: Result<Vec<i8>, BitInputError>)
        requires
            old(self).inv(),
            amount * 8 <= usize::MAX,
        ensures
            final(self).inv(),
            final(self).stream() == old(self).stream(),
            old(self).pos() + amount * 8 <= old(self).stream().len() ==> {
                &&& final(self).pos() == old(self).pos() + amount * 8
                &&& r matches Ok(v) && v@ == i8_seq_of_bits(old(self).stream(), old(self).pos(), amount as nat)
            },
            old(self).pos() + amount * 8 > old(self).stream().len() ==> {
                &&& final(self).pos() == old(self).pos()
                &&& r == Err::<Vec<i8>, BitInputError>(BitInputError::InputCapacity(capacity_error(old(self).pos(), old(self).stream().len(), (amount * 8) as usize)))
            },
    {
        if let Err(e) = self.ensure_extra_capacity(amount * 8) {
            return Err(BitInputError::InputCapacity(e));
        }
        Ok(self.read_direct_i8s(amount))
    }

    /// Reads a 32-bit count and then that many values, without checking
    /// capacity.
    fn read_direct_i8_vec(&mut self) -> (r: Vec<i8>)
        requires
            old(self).inv(),
            old(self).pos() + 32 <= old(self).stream().len(),
            old(self).pos() + 32 + (i32_of_bits(old(self).stream().subrange(old(self).pos() as int, old(self).pos() as int + 32)) as usize) * 8 <= old(self).stream().len(),
        ensures
            final(self).inv(),
            final(self).stream() == old(self).stream(),
            final(self).pos() == old(self).pos() + 32 + (i32_of_bits(old(self).stream().subrange(old(self).pos() as int, old(self).pos() as int + 32)) as usize) * 8,
            r@ == i8_seq_of_bits(old(self).stream(), old(self).pos() + 32, (i32_of_bits(old(self).stream().subrange(old(self).pos() as int, old(self).pos() as int + 32)) as usize) as nat),
    {
        let amount32 = self.read_direct_i32();
        let amount = #[verifier::truncate] (amount32 as usize);
        self.read_direct_i8s(amount)
    }

    /// Reads a 32-bit count and then that many values, or reports that too
    /// few bits are left for the count or for the values it declares.
    fn read_i8_vec(&mut self) -> (r: Result<Vec<i8>, BitInputError>)
        requires
            old(self).inv(),
        ensures
            final(self).inv(),
            final(self).stream() == old(self).stream(),
            old(self).pos() + 32 > old(self).stream().len() ==> {
                &&& final(self).pos() == old(self).pos()
                &&& r == Err::<Vec<i8>, BitInputError>(
                    BitInputError::InputCapacity(
                        capacity_error(old(self).pos(), old(self).stream().len(), 32),
                    ),
                )
            },
            ({
                let amount = (i32_of_bits(old(self).stream().subrange(old(self).pos() as int, old(self).pos() as int + 32)) as usize);
                &&& (old(self).pos() + 32 <= old(self).stream().len() && old(self).pos() + 32
                    + amount * 8 > old(self).stream().len()) ==> {
                    &&& final(self).pos() == old(self).pos() + 32
                    &&& r == Err::<Vec<i8>, BitInputError>(
                        BitInputError::InputCapacity(
                            capacity_error(
                                old(self).pos() + 32,
                                old(self).stream().len(),
                                requested_bits_of(amount as nat, 8),
                            ),
                        ),
                    )
                }
                &&& (old(self).pos() + 32 <= old(self).stream().len() && old(self).pos() + 32
                    + amount * 8 <= old(self).stream().len()) ==> {
                    &&& final(self).pos() == old(self).pos() + 32 + amount * 8
                    &&& r matches Ok(v) && v@ == i8_seq_of_bits(old(self).stream(), old(self).pos() + 32, (i32_of_bits(old(self).stream().subrange(old(self).pos() as int, old(self).pos() as int + 32)) as usize) as nat)
                }
            }),
    {
        let amount32 = match self.read_i32() {
            Ok(v) => v,
            Err(e) => {
                return Err(e);
            },
        };
        let amount = #[verifier::truncate] (amount32 as usize);
        match amount.checked_mul(8) {
            Some(needed) => {
                if let Err(e) = self.ensure_extra_capacity(needed) {
                    return Err(BitInputError::InputCapacity(e));
                }
            },
            None => {
                let e = match self.ensure_extra_capacity(usize::MAX) {
                    Err(e2) => e2,
                    Ok(()) => (InputCapacityError {
                        current_capacity: 0,
                        max_capacity: usize::MAX,
                        requested_extra_capacity: usize::MAX,
                    }),
                };
                return Err(BitInputError::InputCapacity(e));
            },
        }
        Ok(self.read_direct_i8s(amount))
    }

    /// Reads `amount` values of type `i16` into a new vector, in order,
    /// without checking capacity.
    fn read_direct_i16s(&mut self, amount: usize) -> (r: Vec<i16>)
        requires
            old(self).inv(),
            old(self).pos() + amount * 16 <= old(self).stream().len(),
        ensures
            final(self).inv(),
            final(self).stream() == old(self).stream(),
            final(self).pos() == old(self).pos() + amount * 16,
            r@ == i16_seq_of_bits(old(self).stream(), old(self).pos(), amount as nat),
    {
        let mut result: Vec<i16> = Vec::with_capacity(amount);
        let mut index: usize = 0;
        proof {
            assert(result@ =~= i16_seq_of_bits(old(self).stream(), old(self).pos(), 0));
        }
        while index < amount
            invariant
                self.inv(),
                index <= amount,
                self.stream() == old(self).stream(),
                old(self).pos() + amount * 16 <= old(self).stream().len(),
                self.pos() == old(self).pos() + index * 16,
                result@ == i16_seq_of_bits(old(self).stream(), old(self).pos(), index as nat),
            decreases amount - index,
        {
            let v = self.read_direct_i16();
            result.push(v);
            index += 1;
            proof {
                assert(result@ =~= i16_seq_of_bits(
                    old(self).stream(),
                    old(self).pos(),
                    index as nat,
                ));
            }
        }
        result
    }

    /// Reads `amount` values into `dest` at `start_index` and the slots
    /// after it, which must exist, without checking capacity.
    fn read_direct_i16s_to_slice(&mut self, dest: &mut Vec<i16>, start_index: usize, amount: usize)
        requires
            old(self).inv(),
            start_index + amount <= old(dest)@.len(),
            old(self).pos() + amount * 16 <= old(self).stream().len(),
        ensures
            final(self).inv(),
            final(self).stream() == old(self).stream(),
            final(self).pos() == old(self).pos() + amount * 16,
            final(dest)@.len() == old(dest)@.len(),
            forall|j: int|
                0 <= j < old(dest)@.len() && !(start_index <= j < start_index + amount)
                    ==> final(dest)@[j] == old(dest)@[j],
            forall|j: int|
                start_index <= j < start_index + amount ==> final(dest)@[j] == i16_seq_of_bits(old(self).stream(), old(self).pos(), amount as nat)[j - start_index],
    {
        let total = dest.len();
        let bound_index = start_index + amount;
        let mut index: usize = start_index;
        while index < bound_index
            invariant
                self.inv(),
                start_index <= index <= bound_index,
                bound_index == start_index + amount,
                bound_index <= dest@.len(),
                dest@.len() == old(dest)@.len(),
                self.stream() == old(self).stream(),
                old(self).pos() + amount * 16 <= old(self).stream().len(),
                self.pos() == old(self).pos() + (index - start_index) * 16,
                forall|j: int|
                    0 <= j < old(dest)@.len() && !(start_index <= j < index) ==> dest@[j]
                        == old(dest)@[j],
                forall|j: int|
                    start_index <= j < index ==> dest@[j] == i16_seq_of_bits(old(self).stream(), old(self).pos(), amount as nat)[j - start_index],
            decreases bound_index - index,
        {
            let v = self.read_direct_i16();
            dest[index] = v;
            index += 1;
        }
    }

    /// Reads `amount` values into `dest` at `start_index` and the slots
    /// after it, growing `dest` first when it is too short, without
    /// checking capacity.
    fn read_direct_i16s_to_vec(&mut self, dest: &mut Vec<i16>, start_index: usize, amount: usize)
        requires
            old(self).inv(),
            start_index + amount <= usize::MAX,
            old(self).pos() + amount * 16 <= old(self).stream().len(),
        ensures
            final(self).inv(),
            final(self).stream() == old(self).stream(),
            final(self).pos() == old(self).pos() + amount * 16,
            final(dest)@.len() == (if old(dest)@.len() >= start_index + amount {
                old(dest)@.len() as int
            } else {
                start_index + amount
            }),
            forall|j: int|
                0 <= j < final(dest)@.len() && !(start_index <= j < start_index + amount)
                    ==> final(dest)@[j] == (if j < old(dest)@.len() {
                    old(dest)@[j]
                } else {
                    0i16
                }),
            forall|j: int|
                start_index <= j < start_index + amount ==> final(dest)@[j] == i16_seq_of_bits(old(self).stream(), old(self).pos(), amount as nat)[j - start_index],
    {
        let bound_index = start_index + amount;
        if bound_index > dest.len() {
            dest.resize(bound_index, 0);
        }
        self.read_direct_i16s_to_slice(dest, start_index, amount);
    }

    /// Checked form of the matching direct read: fails, and consumes
    /// nothing, when too few bits are left.
    fn read_i16s_to_slice(&mut self, dest: &mut Vec<i16>, start_index: usize, amount: usize) -> (r: Result<(), BitInputError>)
        requires
            old(self).inv(),
            start_index + amount <= old(dest)@.len(),
            amount * 16 <= usize::MAX,
        ensures
            final(self).inv(),
            final(self).stream() == old(self).stream(),
            old(self).pos() + amount * 16 <= old(self).stream().len() ==> {
                &&& final(self).pos() == old(self).pos() + amount * 16
                &&& r == Ok::<(), BitInputError>(())
                &&& final(dest)@.len() == old(dest)@.len()
                &&& (forall|j: int|
                    0 <= j < old(dest)@.len() && !(start_index <= j < start_index + amount)
                        ==> final(dest)@[j] == old(dest)@[j])
                &&& (forall|j: int|
                    start_index <= j < start_index + amount ==> final(dest)@[j] == i16_seq_of_bits(old(self).stream(), old(self).pos(), amount as nat)[j - start_index])
            },
            old(self).pos() + amount * 16 > old(self).stream().len() ==> {
                &&& final(self).pos() == old(self).pos()
                &&& final(dest)@ == old(dest)@
                &&& r == Err::<(), BitInputError>(BitInputError::InputCapacity(capacity_error(old(self).pos(), old(self).stream().len(), (amount * 16) as usize)))
            },
    {
        if let Err(e) = self.ensure_extra_capacity(amount * 16) {
            return Err(BitInputError::InputCapacity(e));
        }
        self.read_direct_i16s_to_slice(dest, start_index, amount);
        Ok(())
    }

    /// Checked form of the matching direct read: fails, and consumes
    /// nothing, when too few bits are left.
    fn read_i16s_to_vec(&mut self, dest: &mut Vec<i16>, start_index: usize, amount: usize) -> (r: Result<(), BitInputError>)
        requires
            old(self).inv(),
            start_index + amount <= usize::MAX,
            amount * 16 <= usize::MAX,
        ensures
            final(self).inv(),
            final(self).stream() == old(self).stream(),
            old(self).pos() + amount * 16 <= old(self).stream().len() ==> {
                &&& final(self).pos() == old(self).pos() + amount * 16
                &&& r == Ok::<(), BitInputError>(())
                &&& final(dest)@.len() == (if old(dest)@.len() >= start_index + amount {
                    old(dest)@.len() as int
                } else {
                    start_index + amount
                })
                &&& (forall|j: int|
                    0 <= j < final(dest)@.len() && !(start_index <= j < start_index + amount)
                        ==> final(dest)@[j] == (if j < old(dest)@.len() {
                        old(dest)@[j]
                    } else {
                        0i16
                    }))
                &&& (forall|j: int|
                    start_index <= j < start_index + amount ==> final(dest)@[j] == i16_seq_of_bits(old(self).stream(), old(self).pos(), amount as nat)[j - start_index])
            },
            old(self).pos() + amount * 16 > old(self).stream().len() ==> {
                &&& final(self).pos() == old(self).pos()
                &&& final(dest)@ == old(dest)@
                &&& r == Err::<(), BitInputError>(BitInputError::InputCapacity(capacity_error(old(self).pos(), old(self).stream().len(), (amount * 16) as usize)))
            },
    {
        if let Err(e) = self.ensure_extra_capacity(amount * 16) {
            return Err(BitInputError::InputCapacity(e));
        }
        self.read_direct_i16s_to_vec(dest, start_index, amount);
        Ok(())
    }

    /// Reads `amount` values into a new vector, or reports that too few
    /// bits are left, consuming nothing.
    fn read_i16s(&mut self, amount: usize) -> (r: Result<Vec<i16>, BitInputError>)
        requires
            old(self).inv(),
            amount * 16 <= usize::MAX,
        ensures
            final(self).inv(),
            final(self).stream() == old(self).stream(),
            old(self).pos() + amount * 16 <= old(self).stream().len() ==> {
                &&& final(self).pos() == old(self).pos() + amount * 16
                &&& r matches Ok(v) && v@ == i16_seq_of_bits(old(self).stream(), old(self).pos(), amount as nat)
            },
            old(self).pos() + amount * 16 > old(self).stream().len() ==> {
                &&& final(self).pos() == old(self).pos()
                &&& r == Err::<Vec<i16>, BitInputError>(BitInputError::InputCapacity(capacity_error(old(self).pos(), old(self).stream().len(), (amount * 16) as usize)))
            },
    {
        if let Err(e) = self.ensure_extra_capacity(amount * 16) {
            return Err(BitInputError::InputCapacity(e));
        }
        Ok(self.read_direct_i16s(amount))
    }

    /// Reads a 32-bit count and then that many values, without checking
    /// capacity.
    fn read_direct_i16_vec(&mut self) -> (r: Vec<i16>)
        requires
            old(self).inv(),
            old(self).pos() + 32 <= old(self).stream().len(),
            old(self).pos() + 32 + (i32_of_bits(old(self).stream().subrange(old(self).pos() as int, old(self).pos() as int + 32)) as usize) * 16 <= old(self).stream().len(),
        ensures
            final(self).inv(),
            final(self).stream() == old(self).stream(),
            final(self).pos() == old(self).pos() + 32 + (i32_of_bits(old(self).stream().subrange(old(self).pos() as int, old(self).pos() as int + 32)) as usize) * 16,
            r@ == i16_seq_of_bits(old(self).stream(), old(self).pos() + 32, (i32_of_bits(old(self).stream().subrange(old(self).pos() as int, old(self).pos() as int + 32)) as usize) as nat),
    {
        let amount32 = self.read_direct_i32();
        let amount = #[verifier::truncate] (amount32 as usize);
        self.read_direct_i16s(amount)
    }

    /// Reads a 32-bit count and then that many values, or reports that too
    /// few bits are left for the count or for the values it declares.
    fn read_i16_vec(&mut self) -> (r: Result<Vec<i16>, BitInputError>)
        requires
            old(self).inv(),
        ensures
            final(self).inv(),
            final(self).stream() == old(self).stream(),
            old(self).pos() + 32 > old(self).stream().len() ==> {
                &&& final(self).pos() == old(self).pos()
                &&& r == Err::<Vec<i16>, BitInputError>(
                    BitInputError::InputCapacity(
                        capacity_error(old(self).pos(), old(self).stream().len(), 32),
                    ),
                )
            },
            ({
                let amount = (i32_of_bits(old(self).stream().subrange(old(self).pos() as int, old(self).pos() as int + 32)) as usize);
                &&& (old(self).pos() + 32 <= old(self).stream().len() && old(self).pos() + 32
                    + amount * 16 > old(self).stream().len()) ==> {
                    &&& final(self).pos() == old(self).pos() + 32
                    &&& r == Err::<Vec<i16>, BitInputError>(
                        BitInputError::InputCapacity(
                            capacity_error(
                                old(self).pos() + 32,
                                old(self).stream().len(),
                                requested_bits_of(amount as nat, 16),
                            ),
                        ),
                    )
                }
                &&& (old(self).pos() + 32 <= old(self).stream().len() && old(self).pos() + 32
                    + amount * 16 <= old(self).stream().len()) ==> {
                    &&& final(self).pos() == old(self).pos() + 32 + amount * 16
                    &&& r matches Ok(v) && v@ == i16_seq_of_bits(old(self).stream(), old(self).pos() + 32, (i32_of_bits(old(self).stream().subrange(old(self).pos() as int, old(self).pos() as int + 32)) as usize) as nat)
                }
            }),
    {
        let amount32 = match self.read_i32() {
            Ok(v) => v,
            Err(e) => {
                return Err(e);
            },
        };
        let amount = #[verifier::truncate] (amount32 as usize);
        match amount.checked_mul(16) {
            Some(needed) => {
                if let Err(e) = self.ensure_extra_capacity(needed) {
                    return Err(BitInputError::InputCapacity(e));
                }
            },
            None => {
                let e = match self.ensure_extra_capacity(usize::MAX) {
                    Err(e2) => e2,
                    Ok(()) => (InputCapacityError {
                        current_capacity: 0,
                        max_capacity: usize::MAX,
                        requested_extra_capacity: usize::MAX,
                    }),
                };
                return Err(BitInputError::InputCapacity(e));
            },
        }
        Ok(self.read_direct_i16s(amount))
    }

    /// Reads `amount` values of type `i32` into a new vector, in order,
    /// without checking capacity.
    fn read_direct_i32s(&mut self, amount: usize) -> (r: Vec<i32>)
        requires
            old(self).inv(),
            old(self).pos() + amount * 32 <= old(self).stream().len(),
        ensures
            final(self).inv(),
            final(self).stream() == old(self).stream(),
            final(self).pos() == old(self).pos() + amount * 32,
            r@ == i32_seq_of_bits(old(self).stream(), old(self).pos(), amount as nat),
    {
        let mut result: Vec<i32> = Vec::with_capacity(amount);
        let mut index: usize = 0;
        proof {
            assert(result@ =~= i32_seq_of_bits(old(self).stream(), old(self).pos(), 0));
        }
        while index < amount
            invariant
                self.inv(),
                index <= amount,
                self.stream() == old(self).stream(),
                old(self).pos() + amount * 32 <= old(self).stream().len(),
                self.pos() == old(self).pos() + index * 32,
                result@ == i32_seq_of_bits(old(self).stream(), old(self).pos(), index as nat),
            decreases amount - index,
        {
            let v = self.read_direct_i32();
            result.push(v);
            index += 1;
            proof {
                assert(result@ =~= i32_seq_of_bits(
                    old(self).stream(),
                    old(self).pos(),
                    index as nat,
                ));
            }
        }
        result
    }

    /// Reads `amount` values into `dest` at `start_index` and the slots
    /// after it, which must exist, without checking capacity.
    fn read_direct_i32s_to_slice(&mut self, dest: &mut Vec<i32>, start_index: usize, amount: usize)
        requires
            old(self).inv(),
            start_index + amount <= old(dest)@.len(),
            old(self).pos() + amount * 32 <= old(self).stream().len(),
        ensures
            final(self).inv(),
            final(self).stream() == old(self).stream(),
            final(self).pos() == old(self).pos() + amount * 32,
            final(dest)@.len() == old(dest)@.len(),
            forall|j: int|
                0 <= j < old(dest)@.len() && !(start_index <= j < start_index + amount)
                    ==> final(dest)@[j] == old(dest)@[j],
            forall|j: int|
                start_index <= j < start_index + amount ==> final(dest)@[j] == i32_seq_of_bits(old(self).stream(), old(self).pos(), amount as nat)[j - start_index],
    {
        let total = dest.len();
        let bound_index = start_index + amount;
        let mut index: usize = start_index;
        while index < bound_index
            invariant
                self.inv(),
                start_index <= index <= bound_index,
                bound_index == start_index + amount,
                bound_index <= dest@.len(),
                dest@.len() == old(dest)@.len(),
                self.stream() == old(self).stream(),
                old(self).pos() + amount * 32 <= old(self).stream().len(),
                self.pos() == old(self).pos() + (index - start_index) * 32,
                forall|j: int|
                    0 <= j < old(dest)@.len() && !(start_index <= j < index) ==> dest@[j]
                        == old(dest)@[j],
                forall|j: int|
                    start_index <= j < index ==> dest@[j] == i32_seq_of_bits(old(self).stream(), old(self).pos(), amount as nat)[j - start_index],
            decreases bound_index - index,
        {
            let v = self.read_direct_i32();
            dest[index] = v;
            index += 1;
        }
    }

    /// Reads `amount` values into `dest` at `start_index` and the slots
    /// after it, growing `dest` first when it is too short, without
    /// checking capacity.
    fn read_direct_i32s_to_vec(&mut self, dest: &mut Vec<i32>, start_index: usize, amount: usize)
        requires
            old(self).inv(),
            start_index + amount <= usize::MAX,
            old(self).pos() + amount * 32 <= old(self).stream().len(),
        ensures
            final(self).inv(),
            final(self).stream() == old(self).stream(),
            final(self).pos() == old(self).pos() + amount * 32,
            final(dest)@.len() == (if old(dest)@.len() >= start_index + amount {
                old(dest)@.len() as int
            } else {
                start_index + amount
            }),
            forall|j: int|
                0 <= j < final(dest)@.len() && !(start_index <= j < start_index + amount)
                    ==> final(dest)@[j] == (if j < old(dest)@.len() {
                    old(dest)@[j]
                } else {
                    0i32
                }),
            forall|j: int|
                start_index <= j < start_index + amount ==> final(dest)@[j] == i32_seq_of_bits(old(self).stream(), old(self).pos(), amount as nat)[j - start_index],
    {
        let bound_index = start_index + amount;
        if bound_index > dest.len() {
            dest.resize(bound_index, 0);
        }
        self.read_direct_i32s_to_slice(dest, start_index, amount);
    }

    /// Checked form of the matching direct read: fails, and consumes
    /// nothing, when too few bits are left.
    fn read_i32s_to_slice(&mut self, dest: &mut Vec<i32>, start_index: usize, amount: usize) -> (r: Result<(), BitInputError>)
        requires
            old(self).inv(),
            start_index + amount <= old(dest)@.len(),
            amount * 32 <= usize::MAX,
        ensures
            final(self).inv(),
            final(self).stream() == old(self).stream(),
            old(self).pos() + amount * 32 <= old(self).stream().len() ==> {
                &&& final(self).pos() == old(self).pos() + amount * 32
                &&& r == Ok::<(), BitInputError>(())
                &&& final(dest)@.len() == old(dest)@.len()
                &&& (forall|j: int|
                    0 <= j < old(dest)@.len() && !(start_index <= j < start_index + amount)
                        ==> final(dest)@[j] == old(dest)@[j])
                &&& (forall|j: int|
                    start_index <= j < start_index + amount ==> final(dest)@[j] == i32_seq_of_bits(old(self).stream(), old(self).pos(), amount as nat)[j - start_index])
            },
            old(self).pos() + amount * 32 > old(self).stream().len() ==> {
                &&& final(self).pos() == old(self).pos()
                &&& final(dest)@ == old(dest)@
                &&& r == Err::<(), BitInputError>(BitInputError::InputCapacity(capacity_error(old(self).pos(), old(self).stream().len(), (amount * 32) as usize)))
            },
    {
        if let Err(e) = self.ensure_extra_capacity(amount * 32) {
            return Err(BitInputError::InputCapacity(e));
        }
        self.read_direct_i32s_to_slice(dest, start_index, amount);
        Ok(())
    }

    /// Checked form of the matching direct read: fails, and consumes
    /// nothing, when too few bits are left.
    fn read_i32s_to_vec(&mut self, dest: &mut Vec<i32>, start_index: usize, amount: usize) -> (r: Result<(), BitInputError>)
        requires
            old(self).inv(),
            start_index + amount <= usize::MAX,
            amount * 32 <= usize::MAX,
        ensures
            final(self).inv(),
            final(self).stream() == old(self).stream(),
            old(self).pos() + amount * 32 <= old(self).stream().len() ==> {
                &&& final(self).pos() == old(self).pos() + amount * 32
                &&& r == Ok::<(), BitInputError>(())
                &&& final(dest)@.len() == (if old(dest)@.len() >= start_index + amount {
                    old(dest)@.len() as int
                } else {
                    start_index + amount
                })
                &&& (forall|j: int|
                    0 <= j < final(dest)@.len() && !(start_index <= j < start_index + amount)
                        ==> final(dest)@[j] == (if j < old(dest)@.len() {
                        old(dest)@[j]
                    } else {
                        0i32
                    }))
                &&& (forall|j: int|
                    start_index <= j < start_index + amount ==> final(dest)@[j] == i32_seq_of_bits(old(self).stream(), old(self).pos(), amount as nat)[j - start_index])
            },
            old(self).pos() + amount * 32 > old(self).stream().len() ==> {
                &&& final(self).pos() == old(self).pos()
                &&& final(dest)@ == old(dest)@
                &&& r == Err::<(), BitInputError>(BitInputError::InputCapacity(capacity_error(old(self).pos(), old(self).stream().len(), (amount * 32) as usize)))
            },
    {
        if let Err(e) = self.ensure_extra_capacity(amount * 32) {
            return Err(BitInputError::InputCapacity(e));
        }
        self.read_direct_i32s_to_vec(dest, start_index, amount);
        Ok(())
    }

    /// Reads `amount` values into a new vector, or reports that too few
    /// bits are left, consuming nothing.
    fn read_i32s(&mut self, amount: usize) -> (r: Result<Vec<i32>, BitInputError>)
        requires
            old(self).inv(),
            amount * 32 <= usize::MAX,
        ensures
            final(self).inv(),
            final(self).stream() == old(self).stream(),
            old(self).pos() + amount * 32 <= old(self).stream().len() ==> {
                &&& final(self).pos() == old(self).pos() + amount * 32
                &&& r matches Ok(v) && v@ == i32_seq_of_bits(old(self).stream(), old(self).pos(), amount as nat)
            },
            old(self).pos() + amount * 32 > old(self).stream().len() ==> {
                &&& final(self).pos() == old(self).pos()
                &&& r == Err::<Vec<i32>, BitInputError>(BitInputError::InputCapacity(capacity_error(old(self).pos(), old(self).stream().len(), (amount * 32) as usize)))
            },
    {
        if let Err(e) = self.ensure_extra_capacity(amount * 32) {
            return Err(BitInputError::InputCapacity(e));
        }
        Ok(self.read_direct_i32s(amount))
    }

    /// Reads a 32-bit count and then that many values, without checking
    /// capacity.
    fn read_direct_i32_vec(&mut self) -> (r: Vec<i32>)
        requires
            old(self).inv(),
            old(self).pos() + 32 <= old(self).stream().len(),
            old(self).pos() + 32 + (i32_of_bits(old(self).stream().subrange(old(self).pos() as int, old(self).pos() as int + 32)) as usize) * 32 <= old(self).stream().len(),
        ensures
            final(self).inv(),
            final(self).stream() == old(self).stream(),
            final(self).pos() == old(self).pos() + 32 + (i32_of_bits(old(self).stream().subrange(old(self).pos() as int, old(self).pos() as int + 32)) as usize) * 32,
            r@ == i32_seq_of_bits(old(self).stream(), old(self).pos() + 32, (i32_of_bits(old(self).stream().subrange(old(self).pos() as int, old(self).pos() as int + 32)) as usize) as nat),
    {
        let amount32 = self.read_direct_i32();
        let amount = #[verifier::truncate] (amount32 as usize);
        self.read_direct_i32s(amount)
    }

    /// Reads a 32-bit count and then that many values, or reports that too
    /// few bits are left for the count or for the values it declares.
    fn read_i32_vec(&mut self) -> (r: Result<Vec<i32>, BitInputError>)
        requires
            old(self).inv(),
        ensures
            final(self).inv(),
            final(self).stream() == old(self).stream(),
            old(self).pos() + 32 > old(self).stream().len() ==> {
                &&& final(self).pos() == old(self).pos()
                &&& r == Err::<Vec<i32>, BitInputError>(
                    BitInputError::InputCapacity(
                        capacity_error(old(self).pos(), old(self).stream().len(), 32),
                    ),
                )
            },
            ({
                let amount = (i32_of_bits(old(self).stream().subrange(old(self).pos() as int, old(self).pos() as int + 32)) as usize);
                &&& (old(self).pos() + 32 <= old(self).stream().len() && old(self).pos() + 32
                    + amount * 32 > old(self).stream().len()) ==> {
                    &&& final(self).pos() == old(self).pos() + 32
                    &&& r == Err::<Vec<i32>, BitInputError>(
                        BitInputError::InputCapacity(
                            capacity_error(
                                old(self).pos() + 32,
                                old(self).stream().len(),
                                requested_bits_of(amount as nat, 32),
                            ),
                        ),
                    )
                }
                &&& (old(self).pos() + 32 <= old(self).stream().len() && old(self).pos() + 32
                    + amount * 32 <= old(self).stream().len()) ==> {
                    &&& final(self).pos() == old(self).pos() + 32 + amount * 32
                    &&& r matches Ok(v) && v@ == i32_seq_of_bits(old(self).stream(), old(self).pos() + 32, (i32_of_bits(old(self).stream().subrange(old(self).pos() as int, old(self).pos() as int + 32)) as usize) as nat)
                }
            }),
    {
        let amount32 = match self.read_i32() {
            Ok(v) => v,
            Err(e) => {
                return Err(e);
            },
        };
        let amount = #[verifier::truncate] (amount32 as usize);
        match amount.checked_mul(32) {
            Some(needed) => {
                if let Err(e) = self.ensure_extra_capacity(needed) {
                    return Err(BitInputError::InputCapacity(e));
                }
            },
            None => {
                let e = match self.ensure_extra_capacity(usize::MAX) {
                    Err(e2) => e2,
                    Ok(()) => (InputCapacityError {
                        current_capacity: 0,
                        max_capacity: usize::MAX,
                        requested_extra_capacity: usize::MAX,
                    }),
                };
                return Err(BitInputError::InputCapacity(e));
            },
        }
        Ok(self.read_direct_i32s(amount))
    }

    /// Reads `amount` values of type `u8` into a new vector, in order,
    /// without checking capacity.
    fn read_direct_u8s(&mut self, amount: usize) -> (r: Vec<u8>)
        requires
            old(self).inv(),
            old(self).pos() + amount * 8 <= old(self).stream().len(),
        ensures
            final(self).inv(),
            final(self).stream() == old(self).stream(),
            final(self).pos() == old(self).pos() + amount * 8,
            r@ == u8_seq_of_bits(old(self).stream(), old(self).pos(), amount as nat),
    {
        let mut result: Vec<u8> = Vec::with_capacity(amount);
        let mut index: usize = 0;
        proof {
            assert(result@ =~= u8_seq_of_bits(old(self).stream(), old(self).pos(), 0));
        }
        while index < amount
            invariant
                self.inv(),
                index <= amount,
                self.stream() == old(self).stream(),
                old(self).pos() + amount * 8 <= old(self).stream().len(),
                self.pos() == old(self).pos() + index * 8,
                result@ == u8_seq_of_bits(old(self).stream(), old(self).pos(), index as nat),
            decreases amount - index,
        {
            let v = self.read_direct_u8();
            result.push(v);
            index += 1;
            proof {
                assert(result@ =~= u8_seq_of_bits(
                    old(self).stream(),
                    old(self).pos(),
                    index as nat,
                ));
            }
        }
        result
    }

    /// Reads `amount` values into `dest` at `start_index` and the slots
    /// after it, which must exist, without checking capacity.
    fn read_direct_u8s_to_slice(&mut self, dest: &mut Vec<u8>, start_index: usize, amount: usize)
        requires
            old(self).inv(),
            start_index + amount <= old(dest)@.len(),
            old(self).pos() + amount * 8 <= old(self).stream().len(),
        ensures
            final(self).inv(),
            final(self).stream() == old(self).stream(),
            final(self).pos() == old(self).pos() + amount * 8,
            final(dest)@.len() == old(dest)@.len(),
            forall|j: int|
                0 <= j < old(dest)@.len() && !(start_index <= j < start_index + amount)
                    ==> final(dest)@[j] == old(dest)@[j],
            forall|j: int|
                start_index <= j < start_index + amount ==> final(dest)@[j] == u8_seq_of_bits(old(self).stream(), old(self).pos(), amount as nat)[j - start_index],
    {
        let total = dest.len();
        let bound_index = start_index + amount;
        let mut index: usize = start_index;
        while index < bound_index
            invariant
                self.inv(),
                start_index <= index <= bound_index,
                bound_index == start_index + amount,
                bound_index <= dest@.len(),
                dest@.len() == old(dest)@.len(),
                self.stream() == old(self).stream(),
                old(self).pos() + amount * 8 <= old(self).stream().len(),
                self.pos() == old(self).pos() + (index - start_index) * 8,
                forall|j: int|
                    0 <= j < old(dest)@.len() && !(start_index <= j < index) ==> dest@[j]
                        == old(dest)@[j],
                forall|j: int|
                    start_index <= j < index ==> dest@[j] == u8_seq_of_bits(old(self).stream(), old(self).pos(), amount as nat)[j - start_index],
            decreases bound_index - index,
        {
            let v = self.read_direct_u8();
            dest[index] = v;
            index += 1;
        }
    }

    /// Reads `amount` values into `dest` at `start_index` and the slots
    /// after it, growing `dest` first when it is too short, without
    /// checking capacity.
    fn read_direct_u8s_to_vec(&mut self, dest: &mut Vec<u8>, start_index: usize, amount: usize)
        requires
            old(self).inv(),
            start_index + amount <= usize::MAX,
            old(self).pos() + amount * 8 <= old(self).stream().len(),
        ensures
            final(self).inv(),
            final(self).stream() == old(self).stream(),
            final(self).pos() == old(self).pos() + amount * 8,
            final(dest)@.len() == (if old(dest)@.len() >= start_index + amount {
                old(dest)@.len() as int
            } else {
                start_index + amount
            }),
            forall|j: int|
                0 <= j < final(dest)@.len() && !(start_index <= j < start_index + amount)
                    ==> final(dest)@[j] == (if j < old(dest)@.len() {
                    old(dest)@[j]
                } else {
                    0u8
                }),
            forall|j: int|
                start_index <= j < start_index + amount ==> final(dest)@[j] == u8_seq_of_bits(old(self).stream(), old(self).pos(), amount as nat)[j - start_index],
    {
        let bound_index = start_index + amount;
        if bound_index > dest.len() {
            dest.resize(bound_index, 0);
        }
        self.read_direct_u8s_to_slice(dest, start_index, amount);
    }

    /// Checked form of the matching direct read: fails, and consumes
    /// nothing, when too few bits are left.
    fn read_u8s_to_slice(&mut self, dest: &mut Vec<u8>, start_index: usize, amount: usize) -> (r: Result<(), BitInputError>)
        requires
            old(self).inv(),
            start_index + amount <= old(dest)@.len(),
            amount * 8 <= usize::MAX,
        ensures
            final(self).inv(),
            final(self).stream() == old(self).stream(),
            old(self).pos() + amount * 8 <= old(self).stream().len() ==> {
                &&& final(self).pos() == old(self).pos() + amount * 8
                &&& r == Ok::<(), BitInputError>(())
                &&& final(dest)@.len() == old(dest)@.len()
                &&& (forall|j: int|
                    0 <= j < old(dest)@.len() && !(start_index <= j < start_index + amount)
                        ==> final(dest)@[j] == old(dest)@[j])
                &&& (forall|j: int|
                    start_index <= j < start_index + amount ==> final(dest)@[j] == u8_seq_of_bits(old(self).stream(), old(self).pos(), amount as nat)[j - start_index])
            },
            old(self).pos() + amount * 8 > old(self).stream().len() ==> {
                &&& final(self).pos() == old(self).pos()
                &&& final(dest)@ == old(dest)@
                &&& r == Err::<(), BitInputError>(BitInputError::InputCapacity(capacity_error(old(self).pos(), old(self).stream().len(), (amount * 8) as usize)))
            },
    {
        if let Err(e) = self.ensure_extra_capacity(amount * 8) {
            return Err(BitInputError::InputCapacity(e));
        }
        self.read_direct_u8s_to_slice(dest, start_index, amount);
        Ok(())
    }

    /// Checked form of the matching direct read: fails, and consumes
    /// nothing, when too few bits are left.
    fn read_u8s_to_vec(&mut self, dest: &mut Vec<u8>, start_index: usize, amount: usize) -> (r: Result<(), BitInputError>)
        requires
            old(self).inv(),
            start_index + amount <= usize::MAX,
            amount * 8 <= usize::MAX,
        ensures
            final(self).inv(),
            final(self).stream() == old(self).stream(),
            old(self).pos() + amount * 8 <= old(self).stream().len() ==> {
                &&& final(self).pos() == old(self).pos() + amount * 8
                &&& r == Ok::<(), BitInputError>(())
                &&& final(dest)@.len() == (if old(dest)@.len() >= start_index + amount {
                    old(dest)@.len() as int
                } else {
                    start_index + amount
                })
                &&& (forall|j: int|
                    0 <= j < final(dest)@.len() && !(start_index <= j < start_index + amount)
                        ==> final(dest)@[j] == (if j < old(dest)@.len() {
                        old(dest)@[j]
                    } else {
                        0u8
                    }))
                &&& (forall|j: int|
                    start_index <= j < start_index + amount ==> final(dest)@[j] == u8_seq_of_bits(old(self).stream(), old(self).pos(), amount as nat)[j - start_index])
            },
            old(self).pos() + amount * 8 > old(self).stream().len() ==> {
                &&& final(self).pos() == old(self).pos()
                &&& final(dest)@ == old(dest)@
                &&& r == Err::<(), BitInputError>(BitInputError::InputCapacity(capacity_error(old(self).pos(), old(self).stream().len(), (amount * 8) as usize)))
            },
    {
        if let Err(e) = self.ensure_extra_capacity(amount * 8) {
            return Err(BitInputError::InputCapacity(e));
        }
        self.read_direct_u8s_to_vec(dest, start_index, amount);
        Ok(())
    }

    /// Reads `amount` values into a new vector, or reports that too few
    /// bits are left, consuming nothing.
    fn read_u8s(&mut self, amount: usize) -> (r: Result<Vec<u8>, BitInputError>)
        requires
            old(self).inv(),
            amount * 8 <= usize::MAX,
        ensures
            final(self).inv(),
            final(self).stream() == old(self).stream(),
            old(self).pos() + amount * 8 <= old(self).stream().len() ==> {
                &&& final(self).pos() == old(self).pos() + amount * 8
                &&& r matches Ok(v) && v@ == u8_seq_of_bits(old(self).stream(), old(self).pos(), amount as nat)
            },
            old(self).pos() + amount * 8 > old(self).stream().len() ==> {
                &&& final(self).pos() == old(self).pos()
                &&& r == Err::<Vec<u8>, BitInputError>(BitInputError::InputCapacity(capacity_error(old(self).pos(), old(self).stream().len(), (amount * 8) as usize)))
            },
    {
        if let Err(e) = self.ensure_extra_capacity(amount * 8) {
            return Err(BitInputError::InputCapacity(e));
        }
        Ok(self.read_direct_u8s(amount))
    }

    /// Reads a 32-bit count and then that many values, without checking
    /// capacity.
    fn read_direct_u8_vec(&mut self) -> (r: Vec<u8>)
        requires
            old(self).inv(),
            old(self).pos() + 32 <= old(self).stream().len(),
            old(self).pos() + 32 + (u32_of_bits(old(self).stream().subrange(old(self).pos() as int, old(self).pos() as int + 32)) as usize) * 8 <= old(self).stream().len(),
        ensures
            final(self).inv(),
            final(self).stream() == old(self).stream(),
            final(self).pos() == old(self).pos() + 32 + (u32_of_bits(old(self).stream().subrange(old(self).pos() as int, old(self).pos() as int + 32)) as usize) * 8,
            r@ == u8_seq_of_bits(old(self).stream(), old(self).pos() + 32, (u32_of_bits(old(self).stream().subrange(old(self).pos() as int, old(self).pos() as int + 32)) as usize) as nat),
    {
        let amount32 = self.read_direct_u32();
        let amount = #[verifier::truncate] (amount32 as usize);
        self.read_direct_u8s(amount)
    }

    /// Reads a 32-bit count and then that many values, or reports that too
    /// few bits are left for the count or for the values it declares.
    fn read_u8_vec(&mut self) -> (r: Result<Vec<u8>, BitInputError>)
        requires
            old(self).inv(),
        ensures
            final(self).inv(),
            final(self).stream() == old(self).stream(),
            old(self).pos() + 32 > old(self).stream().len() ==> {
                &&& final(self).pos() == old(self).pos()
                &&& r == Err::<Vec<u8>, BitInputError>(
                    BitInputError::InputCapacity(
                        capacity_error(old(self).pos(), old(self).stream().len(), 32),
                    ),
                )
            },
            ({
                let amount = (u32_of_bits(old(self).stream().subrange(old(self).pos() as int, old(self).pos() as int + 32)) as usize);
                &&& (old(self).pos() + 32 <= old(self).stream().len() && old(self).pos() + 32
                    + amount * 8 > old(self).stream().len()) ==> {
                    &&& final(self).pos() == old(self).pos() + 32
                    &&& r == Err::<Vec<u8>, BitInputError>(
                        BitInputError::InputCapacity(
                            capacity_error(
                                old(self).pos() + 32,
                                old(self).stream().len(),
                                requested_bits_of(amount as nat, 8),
                            ),
                        ),
                    )
                }
                &&& (old(self).pos() + 32 <= old(self).stream().len() && old(self).pos() + 32
                    + amount * 8 <= old(self).stream().len()) ==> {
                    &&& final(self).pos() == old(self).pos() + 32 + amount * 8
                    &&& r matches Ok(v) && v@ == u8_seq_of_bits(old(self).stream(), old(self).pos() + 32, (u32_of_bits(old(self).stream().subrange(old(self).pos() as int, old(self).pos() as int + 32)) as usize) as nat)
                }
            }),
    {
        let amount32 = match self.read_u32() {
            Ok(v) => v,
            Err(e) => {
                return Err(e);
            },
        };
        let amount = #[verifier::truncate] (amount32 as usize);
        match amount.checked_mul(8) {
            Some(needed) => {
                if let Err(e) = self.ensure_extra_capacity(needed) {
                    return Err(BitInputError::InputCapacity(e));
                }
            },
            None => {
                let e = match self.ensure_extra_capacity(usize::MAX) {
                    Err(e2) => e2,
                    Ok(()) => (InputCapacityError {
                        current_capacity: 0,
                        max_capacity: usize::MAX,
                        requested_extra_capacity: usize::MAX,
                    }),
                };
                return Err(BitInputError::InputCapacity(e));
            },
        }
        Ok(self.read_direct_u8s(amount))
    }

    /// Reads `amount` values of type `u16` into a new vector, in order,
    /// without checking capacity.
    fn read_direct_u16s(&mut self, amount: usize) -> (r: Vec<u16>)
        requires
            old(self).inv(),
            old(self).pos() + amount * 16 <= old(self).stream().len(),
        ensures
            final(self).inv(),
            final(self).stream() == old(self).stream(),
            final(self).pos() == old(self).pos() + amount * 16,
            r@ == u16_seq_of_bits(old(self).stream(), old(self).pos(), amount as nat),
    {
        let mut result: Vec<u16> = Vec::with_capacity(amount);
        let mut index: usize = 0;
        proof {
            assert(result@ =~= u16_seq_of_bits(old(self).stream(), old(self).pos(), 0));
        }
        while index < amount
            invariant
                self.inv(),
                index <= amount,
                self.stream() == old(self).stream(),
                old(self).pos() + amount * 16 <= old(self).stream().len(),
                self.pos() == old(self).pos() + index * 16,
                result@ == u16_seq_of_bits(old(self).stream(), old(self).pos(), index as nat),
            decreases amount - index,
        {
            let v = self.read_direct_u16();
            result.push(v);
            index += 1;
            proof {
                assert(result@ =~= u16_seq_of_bits(
                    old(self).stream(),
                    old(self).pos(),
                    index as nat,
                ));
            }
        }
        result
    }

    /// Reads `amount` values into `dest` at `start_index` and the slots
    /// after it, which must exist, without checking capacity.
    fn read_direct_u16s_to_slice(&mut self, dest: &mut Vec<u16>, start_index: usize, amount: usize)
        requires
            old(self).inv(),
            start_index + amount <= old(dest)@.len(),
            old(self).pos() + amount * 16 <= old(self).stream().len(),
        ensures
            final(self).inv(),
            final(self).stream() == old(self).stream(),
            final(self).pos() == old(self).pos() + amount * 16,
            final(dest)@.len() == old(dest)@.len(),
            forall|j: int|
                0 <= j < old(dest)@.len() && !(start_index <= j < start_index + amount)
                    ==> final(dest)@[j] == old(dest)@[j],
            forall|j: int|
                start_index <= j < start_index + amount ==> final(dest)@[j] == u16_seq_of_bits(old(self).stream(), old(self).pos(), amount as nat)[j - start_index],
    {
        let total = dest.len();
        let bound_index = start_index + amount;
        let mut index: usize = start_index;
        while index < bound_index
            invariant
                self.inv(),
                start_index <= index <= bound_index,
                bound_index == start_index + amount,
                bound_index <= dest@.len(),
                dest@.len() == old(dest)@.len(),
                self.stream() == old(self).stream(),
                old(self).pos() + amount * 16 <= old(self).stream().len(),
                self.pos() == old(self).pos() + (index - start_index) * 16,
                forall|j: int|
                    0 <= j < old(dest)@.len() && !(start_index <= j < index) ==> dest@[j]
                        == old(dest)@[j],
                forall|j: int|
                    start_index <= j < index ==> dest@[j] == u16_seq_of_bits(old(self).stream(), old(self).pos(), amount as nat)[j - start_index],
            decreases bound_index - index,
        {
            let v = self.read_direct_u16();
            dest[index] = v;
            index += 1;
        }
    }

    /// Reads `amount` values into `dest` at `start_index` and the slots
    /// after it, growing `dest` first when it is too short, without
    /// checking capacity.
    fn read_direct_u16s_to_vec(&mut self, dest: &mut Vec<u16>, start_index: usize, amount: usize)
        requires
            old(self).inv(),
            start_index + amount <= usize::MAX,
            old(self).pos() + amount * 16 <= old(self).stream().len(),
        ensures
            final(self).inv(),
            final(self).stream() == old(self).stream(),
            final(self).pos() == old(self).pos() + amount * 16,
            final(dest)@.len() == (if old(dest)@.len() >= start_index + amount {
                old(dest)@.len() as int
            } else {
                start_index + amount
            }),
            forall|j: int|
                0 <= j < final(dest)@.len() && !(start_index <= j < start_index + amount)
                    ==> final(dest)@[j] == (if j < old(dest)@.len() {
                    old(dest)@[j]
                } else {
                    0u16
                }),
            forall|j: int|
                start_index <= j < start_index + amount ==> final(dest)@[j] == u16_seq_of_bits(old(self).stream(), old(self).pos(), amount as nat)[j - start_index],
    {
        let bound_index = start_index + amount;
        if bound_index > dest.len() {
            dest.resize(bound_index, 0);
        }
        self.read_direct_u16s_to_slice(dest, start_index, amount);
    }

    /// Checked form of the matching direct read: fails, and consumes
    /// nothing, when too few bits are left.
    fn read_u16s_to_slice(&mut self, dest: &mut Vec<u16>, start_index: usize, amount: usize) -> (r: Result<(), BitInputError>)
        requires
            old(self).inv(),
            start_index + amount <= old(dest)@.len(),
            amount * 16 <= usize::MAX,
        ensures
            final(self).inv(),
            final(self).stream() == old(self).stream(),
            old(self).pos() + amount * 16 <= old(self).stream().len() ==> {
                &&& final(self).pos() == old(self).pos() + amount * 16
                &&& r == Ok::<(), BitInputError>(())
                &&& final(dest)@.len() == old(dest)@.len()
                &&& (forall|j: int|
                    0 <= j < old(dest)@.len() && !(start_index <= j < start_index + amount)
                        ==> final(dest)@[j] == old(dest)@[j])
                &&& (forall|j: int|
                    start_index <= j < start_index + amount ==> final(dest)@[j] == u16_seq_of_bits(old(self).stream(), old(self).pos(), amount as nat)[j - start_index])
            },
            old(self).pos() + amount * 16 > old(self).stream().len() ==> {
                &&& final(self).pos() == old(self).pos()
                &&& final(dest)@ == old(dest)@
                &&& r == Err::<(), BitInputError>(BitInputError::InputCapacity(capacity_error(old(self).pos(), old(self).stream().len(), (amount * 16) as usize)))
            },
    {
        if let Err(e) = self.ensure_extra_capacity(amount * 16) {
            return Err(BitInputError::InputCapacity(e));
        }
        self.read_direct_u16s_to_slice(dest, start_index, amount);
        Ok(())
    }

    /// Checked form of the matching direct read: fails, and consumes
    /// nothing, when too few bits are left.
    fn read_u16s_to_vec(&mut self, dest: &mut Vec<u16>, start_index: usize, amount: usize) -> (r: Result<(), BitInputError>)
        requires
            old(self).inv(),
            start_index + amount <= usize::MAX,
            amount * 16 <= usize::MAX,
        ensures
            final(self).inv(),
            final(self).stream() == old(self).stream(),
            old(self).pos() + amount * 16 <= old(self).stream().len() ==> {
                &&& final(self).pos() == old(self).pos() + amount * 16
                &&& r == Ok::<(), BitInputError>(())
                &&& final(dest)@.len() == (if old(dest)@.len() >= start_index + amount {
                    old(dest)@.len() as int
                } else {
                    start_index + amount
                })
                &&& (forall|j: int|
                    0 <= j < final(dest)@.len() && !(start_index <= j < start_index + amount)
                        ==> final(dest)@[j] == (if j < old(dest)@.len() {
                        old(dest)@[j]
                    } else {
                        0u16
                    }))
                &&& (forall|j: int|
                    start_index <= j < start_index + amount ==> final(dest)@[j] == u16_seq_of_bits(old(self).stream(), old(self).pos(), amount as nat)[j - start_index])
            },
            old(self).pos() + amount * 16 > old(self).stream().len() ==> {
                &&& final(self).pos() == old(self).pos()
                &&& final(dest)@ == old(dest)@
                &&& r == Err::<(), BitInputError>(BitInputError::InputCapacity(capacity_error(old(self).pos(), old(self).stream().len(), (amount * 16) as usize)))
            },
    {
        if let Err(e) = self.ensure_extra_capacity(amount * 16) {
            return Err(BitInputError::InputCapacity(e));
        }
        self.read_direct_u16s_to_vec(dest, start_index, amount);
        Ok(())
    }

    /// Reads `amount` values into a new vector, or reports that too few
    /// bits are left, consuming nothing.
    fn read_u16s(&mut self, amount: usize) -> (r: Result<Vec<u16>, BitInputError>)
        requires
            old(self).inv(),
            amount * 16 <= usize::MAX,
        ensures
            final(self).inv(),
            final(self).stream() == old(self).stream(),
            old(self).pos() + amount * 16 <= old(self).stream().len() ==> {
                &&& final(self).pos() == old(self).pos() + amount * 16
                &&& r matches Ok(v) && v@ == u16_seq_of_bits(old(self).stream(), old(self).pos(), amount as nat)
            },
            old(self).pos() + amount * 16 > old(self).stream().len() ==> {
                &&& final(self).pos() == old(self).pos()
                &&& r == Err::<Vec<u16>, BitInputError>(BitInputError::InputCapacity(capacity_error(old(self).pos(), old(self).stream().len(), (amount * 16) as usize)))
            },
    {
        if let Err(e) = self.ensure_extra_capacity(amount * 16) {
            return Err(BitInputError::InputCapacity(e));
        }
        Ok(self.read_direct_u16s(amount))
    }

    /// Reads a 32-bit count and then that many values, without checking
    /// capacity.
    fn read_direct_u16_vec(&mut self) -> (r: Vec<u16>)
        requires
            old(self).inv(),
            old(self).pos() + 32 <= old(self).stream().len(),
            old(self).pos() + 32 + (u32_of_bits(old(self).stream().subrange(old(self).pos() as int, old(self).pos() as int + 32)) as usize) * 16 <= old(self).stream().len(),
        ensures
            final(self).inv(),
            final(self).stream() == old(self).stream(),
            final(self).pos() == old(self).pos() + 32 + (u32_of_bits(old(self).stream().subrange(old(self).pos() as int, old(self).pos() as int + 32)) as usize) * 16,
            r@ == u16_seq_of_bits(old(self).stream(), old(self).pos() + 32, (u32_of_bits(old(self).stream().subrange(old(self).pos() as int, old(self).pos() as int + 32)) as usize) as nat),
    {
        let amount32 = self.read_direct_u32();
        let amount = #[verifier::truncate] (amount32 as usize);
        self.read_direct_u16s(amount)
    }

    /// Reads a 32-bit count and then that many values, or reports that too
    /// few bits are left for the count or for the values it declares.
    fn read_u16_vec(&mut self) -> (r: Result<Vec<u16>, BitInputError>)
        requires
            old(self).inv(),
        ensures
            final(self).inv(),
            final(self).stream() == old(self).stream(),
            old(self).pos() + 32 > old(self).stream().len() ==> {
                &&& final(self).pos() == old(self).pos()
                &&& r == Err::<Vec<u16>, BitInputError>(
                    BitInputError::InputCapacity(
                        capacity_error(old(self).pos(), old(self).stream().len(), 32),
                    ),
                )
            },
            ({
                let amount = (u32_of_bits(old(self).stream().subrange(old(self).pos() as int, old(self).pos() as int + 32)) as usize);
                &&& (old(self).pos() + 32 <= old(self).stream().len() && old(self).pos() + 32
                    + amount * 16 > old(self).stream().len()) ==> {
                    &&& final(self).pos() == old(self).pos() + 32
                    &&& r == Err::<Vec<u16>, BitInputError>(
                        BitInputError::InputCapacity(
                            capacity_error(
                                old(self).pos() + 32,
                                old(self).stream().len(),
                                requested_bits_of(amount as nat, 16),
                            ),
                        ),
                    )
                }
                &&& (old(self).pos() + 32 <= old(self).stream().len() && old(self).pos() + 32
                    + amount * 16 <= old(self).stream().len()) ==> {
                    &&& final(self).pos() == old(self).pos() + 32 + amount * 16
                    &&& r matches Ok(v) && v@ == u16_seq_of_bits(old(self).stream(), old(self).pos() + 32, (u32_of_bits(old(self).stream().subrange(old(self).pos() as int, old(self).pos() as int + 32)) as usize) as nat)
                }
            }),
    {
        let amount32 = match self.read_u32() {
            Ok(v) => v,
            Err(e) => {
                return Err(e);
            },
        };
        let amount = #[verifier::truncate] (amount32 as usize);
        match amount.checked_mul(16) {
            Some(needed) => {
                if let Err(e) = self.ensure_extra_capacity(needed) {
                    return Err(BitInputError::InputCapacity(e));
                }
            },
            None => {
                let e = match self.ensure_extra_capacity(usize::MAX) {
                    Err(e2) => e2,
                    Ok(()) => (InputCapacityError {
                        current_capacity: 0,
                        max_capacity: usize::MAX,
                        requested_extra_capacity: usize::MAX,
                    }),
                };
                return Err(BitInputError::InputCapacity(e));
            },
        }
        Ok(self.read_direct_u16s(amount))
    }

    /// Reads `amount` values of type `u32` into a new vector, in order,
    /// without checking capacity.
    fn read_direct_u32s(&mut self, amount: usize) -> (r: Vec<u32>)
        requires
            old(self).inv(),
            old(self).pos() + amount * 32 <= old(self).stream().len(),
        ensures
            final(self).inv(),
            final(self).stream() == old(self).stream(),
            final(self).pos() == old(self).pos() + amount * 32,
            r@ == u32_seq_of_bits(old(self).stream(), old(self).pos(), amount as nat),
    {
        let mut result: Vec<u32> = Vec::with_capacity(amount);
        let mut index: usize = 0;
        proof {
            assert(result@ =~= u32_seq_of_bits(old(self).stream(), old(self).pos(), 0));
        }
        while index < amount
            invariant
                self.inv(),
                index <= amount,
                self.stream() == old(self).stream(),
                old(self).pos() + amount * 32 <= old(self).stream().len(),
                self.pos() == old(self).pos() + index * 32,
                result@ == u32_seq_of_bits(old(self).stream(), old(self).pos(), index as nat),
            decreases amount - index,
        {
            let v = self.read_direct_u32();
            result.push(v);
            index += 1;
            proof {
                assert(result@ =~= u32_seq_of_bits(
                    old(self).stream(),
                    old(self).pos(),
                    index as nat,
                ));
            }
        }
        result
    }

    /// Reads `amount` values into `dest` at `start_index` and the slots
    /// after it, which must exist, without checking capacity.
    fn read_direct_u32s_to_slice(&mut self, dest: &mut Vec<u32>, start_index: usize, amount: usize)
        requires
            old(self).inv(),
            start_index + amount <= old(dest)@.len(),
            old(self).pos() + amount * 32 <= old(self).stream().len(),
        ensures
            final(self).inv(),
            final(self).stream() == old(self).stream(),
            final(self).pos() == old(self).pos() + amount * 32,
            final(dest)@.len() == old(dest)@.len(),
            forall|j: int|
                0 <= j < old(dest)@.len() && !(start_index <= j < start_index + amount)
                    ==> final(dest)@[j] == old(dest)@[j],
            forall|j: int|
                start_index <= j < start_index + amount ==> final(dest)@[j] == u32_seq_of_bits(old(self).stream(), old(self).pos(), amount as nat)[j - start_index],
    {
        let total = dest.len();
        let bound_index = start_index + amount;
        let mut index: usize = start_index;
        while index < bound_index
            invariant
                self.inv(),
                start_index <= index <= bound_index,
                bound_index == start_index + amount,
                bound_index <= dest@.len(),
                dest@.len() == old(dest)@.len(),
                self.stream() == old(self).stream(),
                old(self).pos() + amount * 32 <= old(self).stream().len(),
                self.pos() == old(self).pos() + (index - start_index) * 32,
                forall|j: int|
                    0 <= j < old(dest)@.len() && !(start_index <= j < index) ==> dest@[j]
                        == old(dest)@[j],
                forall|j: int|
                    start_index <= j < index ==> dest@[j] == u32_seq_of_bits(old(self).stream(), old(self).pos(), amount as nat)[j - start_index],
            decreases bound_index - index,
        {
            let v = self.read_direct_u32();
            dest[index] = v;
            index += 1;
        }
    }

    /// Reads `amount` values into `dest` at `start_index` and the slots
    /// after it, growing `dest` first when it is too short, without
    /// checking capacity.
    fn read_direct_u32s_to_vec(&mut self, dest: &mut Vec<u32>, start_index: usize, amount: usize)
        requires
            old(self).inv(),
            start_index + amount <= usize::MAX,
            old(self).pos() + amount * 32 <= old(self).stream().len(),
        ensures
            final(self).inv(),
            final(self).stream() == old(self).stream(),
            final(self).pos() == old(self).pos() + amount * 32,
            final(dest)@.len() == (if old(dest)@.len() >= start_index + amount {
                old(dest)@.len() as int
            } else {
                start_index + amount
            }),
            forall|j: int|
                0 <= j < final(dest)@.len() && !(start_index <= j < start_index + amount)
                    ==> final(dest)@[j] == (if j < old(dest)@.len() {
                    old(dest)@[j]
                } else {
                    0u32
                }),
            forall|j: int|
                start_index <= j < start_index + amount ==> final(dest)@[j] == u32_seq_of_bits(old(self).stream(), old(self).pos(), amount as nat)[j - start_index],
    {
        let bound_index = start_index + amount;
        if bound_index > dest.len() {
            dest.resize(bound_index, 0);
        }
        self.read_direct_u32s_to_slice(dest, start_index, amount);
    }

    /// Checked form of the matching direct read: fails, and consumes
    /// nothing, when too few bits are left.
    fn read_u32s_to_slice(&mut self, dest: &mut Vec<u32>, start_index: usize, amount: usize) -> (r: Result<(), BitInputError>)
        requires
            old(self).inv(),
            start_index + amount <= old(dest)@.len(),
            amount * 32 <= usize::MAX,
        ensures
            final(self).inv(),
            final(self).stream() == old(self).stream(),
            old(self).pos() + amount * 32 <= old(self).stream().len() ==> {
                &&& final(self).pos() == old(self).pos() + amount * 32
                &&& r == Ok::<(), BitInputError>(())
                &&& final(dest)@.len() == old(dest)@.len()
                &&& (forall|j: int|
                    0 <= j < old(dest)@.len() && !(start_index <= j < start_index + amount)
                        ==> final(dest)@[j] == old(dest)@[j])
                &&& (forall|j: int|
                    start_index <= j < start_index + amount ==> final(dest)@[j] == u32_seq_of_bits(old(self).stream(), old(self).pos(), amount as nat)[j - start_index])
            },
            old(self).pos() + amount * 32 > old(self).stream().len() ==> {
                &&& final(self).pos() == old(self).pos()
                &&& final(dest)@ == old(dest)@
                &&& r == Err::<(), BitInputError>(BitInputError::InputCapacity(capacity_error(old(self).pos(), old(self).stream().len(), (amount * 32) as usize)))
            },
    {
        if let Err(e) = self.ensure_extra_capacity(amount * 32) {
            return Err(BitInputError::InputCapacity(e));
        }
        self.read_direct_u32s_to_slice(dest, start_index, amount);
        Ok(())
    }

    /// Checked form of the matching direct read: fails, and consumes
    /// nothing, when too few bits are left.
    fn read_u32s_to_vec(&mut self, dest: &mut Vec<u32>, start_index: usize, amount: usize) -> (r: Result<(), BitInputError>)
        requires
            old(self).inv(),
            start_index + amount <= usize::MAX,
            amount * 32 <= usize::MAX,
        ensures
            final(self).inv(),
            final(self).stream() == old(self).stream(),
            old(self).pos() + amount * 32 <= old(self).stream().len() ==> {
                &&& final(self).pos() == old(self).pos() + amount * 32
                &&& r == Ok::<(), BitInputError>(())
                &&& final(dest)@.len() == (if old(dest)@.len() >= start_index + amount {
                    old(dest)@.len() as int
                } else {
                    start_index + amount
                })
                &&& (forall|j: int|
                    0 <= j < final(dest)@.len() && !(start_index <= j < start_index + amount)
                        ==> final(dest)@[j] == (if j < old(dest)@.len() {
                        old(dest)@[j]
                    } else {
                        0u32
                    }))
                &&& (forall|j: int|
                    start_index <= j < start_index + amount ==> final(dest)@[j] == u32_seq_of_bits(old(self).stream(), old(self).pos(), amount as nat)[j - start_index])
            },
            old(self).pos() + amount * 32 > old(self).stream().len() ==> {
                &&& final(self).pos() == old(self).pos()
                &&& final(dest)@ == old(dest)@
                &&& r == Err::<(), BitInputError>(BitInputError::InputCapacity(capacity_error(old(self).pos(), old(self).stream().len(), (amount * 32) as usize)))
            },
    {
        if let Err(e) = self.ensure_extra_capacity(amount * 32) {
            return Err(BitInputError::InputCapacity(e));
        }
        self.read_direct_u32s_to_vec(dest, start_index, amount);
        Ok(())
    }

    /// Reads `amount` values into a new vector, or reports that too few
    /// bits are left, consuming nothing.
    fn read_u32s(&mut self, amount: usize) -> (r: Result<Vec<u32>, BitInputError>)
        requires
            old(self).inv(),
            amount * 32 <= usize::MAX,
        ensures
            final(self).inv(),
            final(self).stream() == old(self).stream(),
            old(self).pos() + amount * 32 <= old(self).stream().len() ==> {
                &&& final(self).pos() == old(self).pos() + amount * 32
                &&& r matches Ok(v) && v@ == u32_seq_of_bits(old(self).stream(), old(self).pos(), amount as nat)
            },
            old(self).pos() + amount * 32 > old(self).stream().len() ==> {
                &&& final(self).pos() == old(self).pos()
                &&& r == Err::<Vec<u32>, BitInputError>(BitInputError::InputCapacity(capacity_error(old(self).pos(), old(self).stream().len(), (amount * 32) as usize)))
            },
    {
        if let Err(e) = self.ensure_extra_capacity(amount * 32) {
            return Err(BitInputError::InputCapacity(e));
        }
        Ok(self.read_direct_u32s(amount))
    }

    /// Reads a 32-bit count and then that many values, without checking
    /// capacity.
    fn read_direct_u32_vec(&mut self) -> (r: Vec<u32>)
        requires
            old(self).inv(),
            old(self).pos() + 32 <= old(self).stream().len(),
            old(self).pos() + 32 + (u32_of_bits(old(self).stream().subrange(old(self).pos() as int, old(self).pos() as int + 32)) as usize) * 32 <= old(self).stream().len(),
        ensures
            final(self).inv(),
            final(self).stream() == old(self).stream(),
            final(self).pos() == old(self).pos() + 32 + (u32_of_bits(old(self).stream().subrange(old(self).pos() as int, old(self).pos() as int + 32)) as usize) * 32,
            r@ == u32_seq_of_bits(old(self).stream(), old(self).pos() + 32, (u32_of_bits(old(self).stream().subrange(old(self).pos() as int, old(self).pos() as int + 32)) as usize) as nat),
    {
        let amount32 = self.read_direct_u32();
        let amount = #[verifier::truncate] (amount32 as usize);
        self.read_direct_u32s(amount)
    }

    /// Reads a 32-bit count and then that many values, or reports that too
    /// few bits are left for the count or for the values it declares.
    fn read_u32_vec(&mut self) -> (r: Result<Vec<u32>, BitInputError>)
        requires
            old(self).inv(),
        ensures
            final(self).inv(),
            final(self).stream() == old(self).stream(),
            old(self).pos() + 32 > old(self).stream().len() ==> {
                &&& final(self).pos() == old(self).pos()
                &&& r == Err::<Vec<u32>, BitInputError>(
                    BitInputError::InputCapacity(
                        capacity_error(old(self).pos(), old(self).stream().len(), 32),
                    ),
                )
            },
            ({
                let amount = (u32_of_bits(old(self).stream().subrange(old(self).pos() as int, old(self).pos() as int + 32)) as usize);
                &&& (old(self).pos() + 32 <= old(self).stream().len() && old(self).pos() + 32
                    + amount * 32 > old(self).stream().len()) ==> {
                    &&& final(self).pos() == old(self).pos() + 32
                    &&& r == Err::<Vec<u32>, BitInputError>(
                        BitInputError::InputCapacity(
                            capacity_error(
                                old(self).pos() + 32,
                                old(self).stream().len(),
                                requested_bits_of(amount as nat, 32),
                            ),
                        ),
                    )
                }
                &&& (old(self).pos() + 32 <= old(self).stream().len() && old(self).pos() + 32
                    + amount * 32 <= old(self).stream().len()) ==> {
                    &&& final(self).pos() == old(self).pos() + 32 + amount * 32
                    &&& r matches Ok(v) && v@ == u32_seq_of_bits(old(self).stream(), old(self).pos() + 32, (u32_of_bits(old(self).stream().subrange(old(self).pos() as int, old(self).pos() as int + 32)) as usize) as nat)
                }
            }),
    {
        let amount32 = match self.read_u32() {
            Ok(v) => v,
            Err(e) => {
                return Err(e);
            },
        };
        let amount = #[verifier::truncate] (amount32 as usize);
        match amount.checked_mul(32) {
            Some(needed) => {
                if let Err(e) = self.ensure_extra_capacity(needed) {
                    return Err(BitInputError::InputCapacity(e));
                }
            },
            None => {
                let e = match self.ensure_extra_capacity(usize::MAX) {
                    Err(e2) => e2,
                    Ok(()) => (InputCapacityError {
                        current_capacity: 0,
                        max_capacity: usize::MAX,
                        requested_extra_capacity: usize::MAX,
                    }),
                };
                return Err(BitInputError::InputCapacity(e));
            },
        }
        Ok(self.read_direct_u32s(amount))
    }

    /// Reads back an optional string. The caller's `max_length` bounds the
    /// declared length before any storage is set aside for the text, so
    /// corrupt input cannot force a huge allocation.
    #[verifier::rlimit(100)]
    fn read_string(&mut self, max_length: usize) -> (r: Result<Option<String>, BitInputError>)
        requires
            old(self).inv(),
        ensures
            final(self).inv(),
            final(self).stream() == old(self).stream(),
            match parse_string(old(self).stream(), old(self).pos(), max_length) {
                StringParse::MissingBits { at, requested } => final(self).pos() == at && r
                    == Err::<Option<String>, BitInputError>(
                    BitInputError::InputCapacity(
                        capacity_error(at, old(self).stream().len(), requested),
                    ),
                ),
                StringParse::NegativeLength { length, at } => final(self).pos() == at && r
                    == Err::<Option<String>, BitInputError>(
                    BitInputError::StringLength(
                        (StringLengthError { read_length: length, max_length: 0 }),
                    ),
                ),
                StringParse::TooLong { declared, at } => final(self).pos() == at && r
                    == Err::<Option<String>, BitInputError>(
                    BitInputError::StringLength(
                        (StringLengthError { read_length: declared as i32, max_length }),
                    ),
                ),
                StringParse::Nothing { end } => final(self).pos() == end && r == Ok::<
                    Option<String>,
                    BitInputError,
                >(None),
                StringParse::Decoded { units, end } => final(self).pos() == end && (valid_utf16(
                    units,
                ) ==> (r matches Ok(Some(text)) && utf16_of(text@) == units)) && (!valid_utf16(
                    units,
                ) ==> r == Err::<Option<String>, BitInputError>(
                    BitInputError::InvalidString(InvalidStringError),
                )),
            },
    {
        let ghost s0 = old(self).stream();
        let ghost p0 = old(self).pos();
        let amount1_signed = match self.read_i8() {
            Ok(v) => v,
            Err(e) => {
                return Err(e);
            },
        };
        let amount1 = #[verifier::truncate] (amount1_signed as u8);
        proof {
            lemma_cast_u8_identity(octet_value(s0.subrange(p0 as int, p0 as int + 8)));
        }
        if amount1 == 0 {
            return Ok(None);
        }
        let length: usize = if amount1 < 255 {
            (amount1 - 1) as usize
        } else {
            let length32 = match self.read_i32() {
                Ok(v) => v,
                Err(e) => {
                    return Err(e);
                },
            };
            if length32 < 0 {
                return Err(BitInputError::StringLength(StringLengthError::negative(length32)));
            }
            length32 as usize
        };
        let ghost p1 = self.pos();
        proof {
            assert(parse_string(s0, p0, max_length) == parse_string_body(
                s0,
                p1,
                length as nat,
                max_length,
            ));
        }
        if length == 0 {
            let empty_units: Vec<u16> = Vec::new();
            proof {
                assert(empty_units@ =~= Seq::<u16>::empty());
            }
            let decoded = string_from_utf16(&empty_units);
            match decoded {
                Some(text) => {
                    return Ok(Some(text));
                },
                None => {
                    return Err(BitInputError::InvalidString(InvalidStringError));
                },
            }
        }
        if length > max_length {
            return Err(
                BitInputError::StringLength(StringLengthError::long(length as i32, max_length)),
            );
        }
        if let Err(e) = self.ensure_extra_capacity(21) {
            return Err(BitInputError::InputCapacity(e));
        }
        let min = self.read_direct_u16();
        let width64 = self.read_direct_sized_u64(5);
        proof {
            lemma_bits_value_bound(s0.subrange(p1 as int + 16, p1 as int + 21));
            vstd::arithmetic::power2::lemma2_to64();
        }
        let bit_count = width64 as usize;
        if bit_count == 0 {
            let units = vec![min; length];
            proof {
                assert(units@ =~= Seq::new(length as nat, |i: int| min));
            }
            let decoded = string_from_utf16(&units);
            match decoded {
                Some(text) => Ok(Some(text)),
                None => Err(BitInputError::InvalidString(InvalidStringError)),
            }
        } else {
            match length.checked_mul(bit_count) {
                Some(needed) => {
                    proof {
                        assert(needed as nat == (bit_count as nat) * (length as nat))
                            by (nonlinear_arith)
                            requires
                                needed == length * bit_count,
                        ;
                        assert(requested_bits_of(length as nat, bit_count as nat) == needed)
                            by (nonlinear_arith)
                            requires
                                needed == length * bit_count,
                                needed <= usize::MAX,
                        ;
                    }
                    if let Err(e) = self.ensure_extra_capacity(needed) {
                        return Err(BitInputError::InputCapacity(e));
                    }
                },
                None => {
                    let e = match self.ensure_extra_capacity(usize::MAX) {
                        Err(e2) => e2,
                        Ok(()) => (InputCapacityError {
                            current_capacity: 0,
                            max_capacity: usize::MAX,
                            requested_extra_capacity: usize::MAX,
                        }),
                    };
                    return Err(BitInputError::InputCapacity(e));
                },
            }
            let mut chars: Vec<u16> = Vec::with_capacity(length);
            let mut index: usize = 0;
            proof {
                assert(chars@ =~= Seq::new(
                    0,
                    |i: int| ((min as nat + bits_value(
                        s0.subrange(
                            p1 as int + 21 + bit_count * i,
                            p1 as int + 21 + bit_count * i + bit_count as int,
                        ),
                    )) as u16),
                ));
            }
            while index < length
                invariant
                    self.inv(),
                    self.stream() == s0,
                    index <= length,
                    1 <= bit_count <= 31,
                    width64 as nat == bits_value(s0.subrange(p1 as int + 16, p1 as int + 21)),
                    bit_count == width64 as usize,
                    min == u16_of_bits(s0.subrange(p1 as int, p1 as int + 16)),
                    self.pos() == p1 + 21 + bit_count * index,
                    p1 + 21 + bit_count * length <= s0.len(),
                    chars@ == Seq::new(
                        index as nat,
                        |i: int| ((min as nat + bits_value(
                            s0.subrange(
                                p1 as int + 21 + bit_count * i,
                                p1 as int + 21 + bit_count * i + bit_count as int,
                            ),
                        )) as u16),
                    ),
                decreases length - index,
            {
                proof {
                    assert(bit_count * index + bit_count == bit_count * (index + 1))
                        by (nonlinear_arith);
                    assert(bit_count * (index + 1) <= bit_count * length) by (nonlinear_arith)
                        requires
                            index < length,
                            bit_count >= 1,
                    ;
                }
                let ghost before = self.pos();
                let d = self.read_direct_sized_u64(bit_count);
                proof {
                    lemma_bits_value_bound(
                        s0.subrange(before as int, before as int + bit_count as int),
                    );
                    if bit_count < 31 {
                        vstd::arithmetic::power2::lemma_pow2_strictly_increases(
                            bit_count as nat,
                            31,
                        );
                    }
                    vstd::arithmetic::power2::lemma2_to64();
                }
                let unit = #[verifier::truncate] ((min as u64 + d) as u16);
                chars.push(unit);
                index += 1;
                proof {
                    assert(chars@ =~= Seq::new(
                        index as nat,
                        |i: int| ((min as nat + bits_value(
                            s0.subrange(
                                p1 as int + 21 + bit_count * i,
                                p1 as int + 21 + bit_count * i + bit_count as int,
                            ),
                        )) as u16),
                    ));
                }
            }
            let decoded = string_from_utf16(&chars);
            match decoded {
                Some(text) => Ok(Some(text)),
                None => Err(BitInputError::InvalidString(InvalidStringError)),
            }
        }
    }
}

/// A reader over a borrowed slice of booleans, one bit each.
pub struct BoolSliceBitInput<'a> {
    bools: &'a [bool],
    read_index: usize,
}

impl<'a> BoolSliceBitInput<'a> {
    /// A new reader that starts at the first boolean of the slice.
    pub fn new(bools: &'a [bool]) -> (result: BoolSliceBitInput<'a>)
        ensures
            result.inv(),
            result.stream() == bools@,
            result.pos() == 0,
    {
        BoolSliceBitInput { bools, read_index: 0 }
    }
}

impl<'a> BitInput for BoolSliceBitInput<'a> {
    closed spec fn stream(&self) -> Seq<bool> {
        self.bools@
    }

    closed spec fn pos(&self) -> nat {
        self.read_index as nat
    }

    closed spec fn inv(&self) -> bool {
        self.read_index <= self.bools@.len()
    }

    fn read_direct_bool(&mut self) -> (r: bool) {
        let result = self.bools[self.read_index];
        self.read_index += 1;
        result
    }

    fn read_direct_i8(&mut self) -> (r: i8) {
        let total = self.bools.len();
        let part = vstd::slice::slice_subrange(self.bools, self.read_index, self.read_index + 8);
        let result = bool_slice_to_i8(part);
        proof {
            assert(part@.take(8) =~= part@);
            lemma_cast_u8_identity(octet_value(part@));
            lemma_cast_i8_identity(result);
        }
        self.read_index += 8;
        result
    }

    fn ensure_extra_capacity(&mut self, extra_bools: usize) -> (r: Result<(), InputCapacityError>) {
        let total = self.bools.len();
        if extra_bools > total - self.read_index {
            Err(
                InputCapacityError {
                    current_capacity: self.read_index,
                    max_capacity: total,
                    requested_extra_capacity: extra_bools,
                },
            )
        } else {
            Ok(())
        }
    }

    fn terminate(&mut self) {
        self.read_index = self.bools.len();
    }
}

/// A reader over an owned vector of signed bytes, consuming the stream bit
/// by bit in the same order a byte-backed writer produced it.
pub struct I8VecBitInput {
    vector: Vec<i8>,
    byte_index: usize,
    bool_index: usize,
}

impl BitInput for I8VecBitInput  {
    closed spec fn stream(&self) -> Seq<bool> {
        Seq::new(
            (8 * self.vector@.len()) as nat,
            |k: int| octet_bits(self.vector@[k / 8] as u8)[k % 8],
        )
    }

    closed spec fn pos(&self) -> nat {
        (8 * self.byte_index + self.bool_index) as nat
    }

    closed spec fn inv(&self) -> bool {
        &&& self.bool_index < 8
        &&& self.byte_index <= self.vector@.len()
        &&& (self.bool_index > 0 ==> self.byte_index < self.vector@.len())
        &&& 8 * self.vector@.len() <= usize::MAX
    }

    fn read_direct_bool(&mut self) -> (r: bool) {
        let bi = self.byte_index;
        if self.bool_index == 7 {
            let result_byte = self.vector[bi];
            self.bool_index = 0;
            self.byte_index = bi + 1;
            let r = result_byte >= 0;
            proof {
                lemma_i8_as_u8(result_byte);
                lemma_unsigned_bits_len(crate::model::octet_mag(result_byte as u8), 7);
                lemma_div8_range(old(self).pos() as int, bi as int);
            }
            r
        } else {
            let arr = i8_to_bool_array(self.vector[bi]);
            let r = arr[self.bool_index];
            self.bool_index += 1;
            proof {
                lemma_div8_range(old(self).pos() as int, bi as int);
            }
            r
        }
    }

    fn read_direct_i8(&mut self) -> (r: i8) {
        let bi = self.byte_index;
        if self.bool_index == 0 {
            let result = self.vector[bi];
            self.byte_index = bi + 1;
            proof {
                let p = old(self).pos() as int;
                lemma_octet_bits_len(result as u8);
                assert forall|k: int| p <= k < p + 8 implies old(self).stream()[k] == octet_bits(
                    result as u8,
                )[k - p] by {
                    lemma_div8_range(k, bi as int);
                }
                assert(old(self).stream().subrange(p, p + 8) =~= octet_bits(result as u8));
                lemma_octet_value_of_octet_bits(result as u8);
                lemma_cast_i8_identity(result);
            }
            result
        } else {
            let offset = self.bool_index;
            let first_arr = i8_to_bool_array(self.vector[bi]);
            let second_arr = i8_to_bool_array(self.vector[bi + 1]);
            let combined = [
                if offset + 0 < 8 {
                    first_arr[offset + 0]
                } else {
                    second_arr[(offset + 0) - 8]
                },
                if offset + 1 < 8 {
                    first_arr[offset + 1]
                } else {
                    second_arr[(offset + 1) - 8]
                },
                if offset + 2 < 8 {
                    first_arr[offset + 2]
                } else {
                    second_arr[(offset + 2) - 8]
                },
                if offset + 3 < 8 {
                    first_arr[offset + 3]
                } else {
                    second_arr[(offset + 3) - 8]
                },
                if offset + 4 < 8 {
                    first_arr[offset + 4]
                } else {
                    second_arr[(offset + 4) - 8]
                },
                if offset + 5 < 8 {
                    first_arr[offset + 5]
                } else {
                    second_arr[(offset + 5) - 8]
                },
                if offset + 6 < 8 {
                    first_arr[offset + 6]
                } else {
                    second_arr[(offset + 6) - 8]
                },
                if offset + 7 < 8 {
                    first_arr[offset + 7]
                } else {
                    second_arr[(offset + 7) - 8]
                },
            ];
            let result = bool_array_to_i8(combined);
            self.byte_index = bi + 1;
            proof {
                let p = old(self).pos() as int;
                assert forall|k: int| p <= k < p + 8 implies old(self).stream()[k] == combined@[k
                    - p] by {
                    if k < 8 * (bi + 1) {
                        lemma_div8_range(k, bi as int);
                    } else {
                        lemma_div8_range(k, bi + 1);
                    }
                }
                assert(old(self).stream().subrange(p, p + 8) =~= combined@);
                lemma_cast_i8_identity(result);
                lemma_octet_bits_of_octet_value(combined@);
                lemma_octet_value_of_octet_bits(result as u8);
            }
            result
        }
    }

    fn ensure_extra_capacity(&mut self, extra_bools: usize) -> (r: Result<(), InputCapacityError>) {
        let total_bytes = self.vector.len();
        let rem_bytes = total_bytes - self.byte_index;
        let remaining = 8 * rem_bytes - self.bool_index;
        if remaining < extra_bools {
            Err(
                InputCapacityError {
                    current_capacity: 8 * self.byte_index + self.bool_index,
                    max_capacity: 8 * total_bytes,
                    requested_extra_capacity: extra_bools,
                },
            )
        } else {
            Ok(())
        }
    }

    fn terminate(&mut self) {
        self.vector.clear();
        crate::output::shrink_vec(&mut self.vector);
    }
}

impl I8VecBitInput  {
    /// A new reader that starts at the first byte of the vector.
    pub fn new(vector: Vec<i8>) -> (result: I8VecBitInput )
        requires
            8 * vector@.len() <= usize::MAX,
        ensures
            result.inv(),
            result.pos() == 0,
            result.stream() == Seq::new(
                (8 * vector@.len()) as nat,
                |k: int| octet_bits(vector@[k / 8] as u8)[k % 8],
            ),
    {
        I8VecBitInput { vector, byte_index: 0, bool_index: 0 }
    }

    /// A new reader whose first read takes `vector[start_index]`.
    pub fn with_start_index(vector: Vec<i8>, start_index: usize) -> (result: I8VecBitInput )
        requires
            8 * vector@.len() <= usize::MAX,
            start_index <= vector@.len(),
        ensures
            result.inv(),
            result.pos() == 8 * start_index,
            result.stream() == Seq::new(
                (8 * vector@.len()) as nat,
                |k: int| octet_bits(vector@[k / 8] as u8)[k % 8],
            ),
    {
        I8VecBitInput { vector, byte_index: start_index, bool_index: 0 }
    }
}

/// A reader over an owned vector of unsigned bytes, consuming the stream bit
/// by bit in the same order a byte-backed writer produced it.
pub struct U8VecBitInput {
    vector: Vec<u8>,
    byte_index: usize,
    bool_index: usize,
}

impl BitInput for U8VecBitInput  {
    closed spec fn stream(&self) -> Seq<bool> {
        Seq::new(
            (8 * self.vector@.len()) as nat,
            |k: int| octet_bits(self.vector@[k / 8])[k % 8],
        )
    }

    closed spec fn pos(&self) -> nat {
        (8 * self.byte_index + self.bool_index) as nat
    }

    closed spec fn inv(&self) -> bool {
        &&& self.bool_index < 8
        &&& self.byte_index <= self.vector@.len()
        &&& (self.bool_index > 0 ==> self.byte_index < self.vector@.len())
        &&& 8 * self.vector@.len() <= usize::MAX
    }

    fn read_direct_bool(&mut self) -> (r: bool) {
        let bi = self.byte_index;
        if self.bool_index == 7 {
            let result_byte = self.vector[bi] as i8;
            self.bool_index = 0;
            self.byte_index = bi + 1;
            let r = result_byte >= 0;
            proof {
                lemma_cast_u8_identity(old(self).vector@[bi as int]);
                lemma_i8_as_u8(result_byte);
                lemma_unsigned_bits_len(crate::model::octet_mag(result_byte as u8), 7);
                lemma_div8_range(old(self).pos() as int, bi as int);
            }
            r
        } else {
            let arr = i8_to_bool_array(self.vector[bi] as i8);
            let r = arr[self.bool_index];
            self.bool_index += 1;
            proof {
                lemma_cast_u8_identity(old(self).vector@[bi as int]);
                lemma_div8_range(old(self).pos() as int, bi as int);
            }
            r
        }
    }

    fn read_direct_i8(&mut self) -> (r: i8) {
        let bi = self.byte_index;
        if self.bool_index == 0 {
            let result = self.vector[bi] as i8;
            self.byte_index = bi + 1;
            proof {
                lemma_cast_u8_identity(old(self).vector@[bi as int]);
                let p = old(self).pos() as int;
                lemma_octet_bits_len(result as u8);
                assert forall|k: int| p <= k < p + 8 implies old(self).stream()[k] == octet_bits(
                    result as u8,
                )[k - p] by {
                    lemma_div8_range(k, bi as int);
                }
                assert(old(self).stream().subrange(p, p + 8) =~= octet_bits(result as u8));
                lemma_octet_value_of_octet_bits(result as u8);
                lemma_cast_i8_identity(result);
            }
            result
        } else {
            let offset = self.bool_index;
            let first_arr = i8_to_bool_array(self.vector[bi] as i8);
            let second_arr = i8_to_bool_array(self.vector[bi + 1] as i8);
            let combined = [
                if offset + 0 < 8 {
                    first_arr[offset + 0]
                } else {
                    second_arr[(offset + 0) - 8]
                },
                if offset + 1 < 8 {
                    first_arr[offset + 1]
                } else {
                    second_arr[(offset + 1) - 8]
                },
                if offset + 2 < 8 {
                    first_arr[offset + 2]
                } else {
                    second_arr[(offset + 2) - 8]
                },
                if offset + 3 < 8 {
                    first_arr[offset + 3]
                } else {
                    second_arr[(offset + 3) - 8]
                },
                if offset + 4 < 8 {
                    first_arr[offset + 4]
                } else {
                    second_arr[(offset + 4) - 8]
                },
                if offset + 5 < 8 {
                    first_arr[offset + 5]
                } else {
                    second_arr[(offset + 5) - 8]
                },
                if offset + 6 < 8 {
                    first_arr[offset + 6]
                } else {
                    second_arr[(offset + 6) - 8]
                },
                if offset + 7 < 8 {
                    first_arr[offset + 7]
                } else {
                    second_arr[(offset + 7) - 8]
                },
            ];
            let result = bool_array_to_i8(combined);
            self.byte_index = bi + 1;
            proof {
                lemma_cast_u8_identity(old(self).vector@[bi as int]);
                lemma_cast_u8_identity(old(self).vector@[bi + 1]);
                let p = old(self).pos() as int;
                assert forall|k: int| p <= k < p + 8 implies old(self).stream()[k] == combined@[k
                    - p] by {
                    if k < 8 * (bi + 1) {
                        lemma_div8_range(k, bi as int);
                    } else {
                        lemma_div8_range(k, bi + 1);
                    }
                }
                assert(old(self).stream().subrange(p, p + 8) =~= combined@);
                lemma_cast_i8_identity(result);
                lemma_octet_bits_of_octet_value(combined@);
                lemma_octet_value_of_octet_bits(result as u8);
            }
            result
        }
    }

    fn ensure_extra_capacity(&mut self, extra_bools: usize) -> (r: Result<(), InputCapacityError>) {
        let total_bytes = self.vector.len();
        let rem_bytes = total_bytes - self.byte_index;
        let remaining = 8 * rem_bytes - self.bool_index;
        if remaining < extra_bools {
            Err(
                InputCapacityError {
                    current_capacity: 8 * self.byte_index + self.bool_index,
                    max_capacity: 8 * total_bytes,
                    requested_extra_capacity: extra_bools,
                },
            )
        } else {
            Ok(())
        }
    }

    fn terminate(&mut self) {
        self.vector.clear();
        crate::output::shrink_vec(&mut self.vector);
    }
}

impl U8VecBitInput  {
    /// A new reader that starts at the first byte of the vector.
    pub fn new(vector: Vec<u8>) -> (result: U8VecBitInput )
        requires
            8 * vector@.len() <= usize::MAX,
        ensures
            result.inv(),
            result.pos() == 0,
            result.stream() == Seq::new(
                (8 * vector@.len()) as nat,
                |k: int| octet_bits(vector@[k / 8])[k % 8],
            ),
    {
        U8VecBitInput { vector, byte_index: 0, bool_index: 0 }
    }

    /// A new reader whose first read takes `vector[start_index]`.
    pub fn with_start_index(vector: Vec<u8>, start_index: usize) -> (result: U8VecBitInput )
        requires
            8 * vector@.len() <= usize::MAX,
            start_index <= vector@.len(),
        ensures
            result.inv(),
            result.pos() == 8 * start_index,
            result.stream() == Seq::new(
                (8 * vector@.len()) as nat,
                |k: int| octet_bits(vector@[k / 8])[k % 8],
            ),
    {
        U8VecBitInput { vector, byte_index: start_index, bool_index: 0 }
    }
}

/// A reader over a borrowed vector of unsigned bytes, consuming the stream bit
/// by bit in the same order a byte-backed writer produced it.
pub struct U8VecRefBitInput <'a> {
    vector: &'a Vec<u8>,
    byte_index: usize,
    bool_index: usize,
}

impl <'a> BitInput for U8VecRefBitInput <'a> {
    closed spec fn stream(&self) -> Seq<bool> {
        Seq::new(
            (8 * self.vector@.len()) as nat,
            |k: int| octet_bits(self.vector@[k / 8])[k % 8],
        )
    }

    closed spec fn pos(&self) -> nat {
        (8 * self.byte_index + self.bool_index) as nat
    }

    closed spec fn inv(&self) -> bool {
        &&& self.bool_index < 8
        &&& self.byte_index <= self.vector@.len()
        &&& (self.bool_index > 0 ==> self.byte_index < self.vector@.len())
        &&& 8 * self.vector@.len() <= usize::MAX
    }

    fn read_direct_bool(&mut self) -> (r: bool) {
        let bi = self.byte_index;
        if self.bool_index == 7 {
            let result_byte = self.vector[bi] as i8;
            self.bool_index = 0;
            self.byte_index = bi + 1;
            let r = result_byte >= 0;
            proof {
                lemma_cast_u8_identity(old(self).vector@[bi as int]);
                lemma_i8_as_u8(result_byte);
                lemma_unsigned_bits_len(crate::model::octet_mag(result_byte as u8), 7);
                lemma_div8_range(old(self).pos() as int, bi as int);
            }
            r
        } else {
            let arr = i8_to_bool_array(self.vector[bi] as i8);
            let r = arr[self.bool_index];
            self.bool_index += 1;
            proof {
                lemma_cast_u8_identity(old(self).vector@[bi as int]);
                lemma_div8_range(old(self).pos() as int, bi as int);
            }
            r
        }
    }

    fn read_direct_i8(&mut self) -> (r: i8) {
        let bi = self.byte_index;
        if self.bool_index == 0 {
            let result = self.vector[bi] as i8;
            self.byte_index = bi + 1;
            proof {
                lemma_cast_u8_identity(old(self).vector@[bi as int]);
                let p = old(self).pos() as int;
                lemma_octet_bits_len(result as u8);
                assert forall|k: int| p <= k < p + 8 implies old(self).stream()[k] == octet_bits(
                    result as u8,
                )[k - p] by {
                    lemma_div8_range(k, bi as int);
                }
                assert(old(self).stream().subrange(p, p + 8) =~= octet_bits(result as u8));
                lemma_octet_value_of_octet_bits(result as u8);
                lemma_cast_i8_identity(result);
            }
            result
        } else {
            let offset = self.bool_index;
            let first_arr = i8_to_bool_array(self.vector[bi] as i8);
            let second_arr = i8_to_bool_array(self.vector[bi + 1] as i8);
            let combined = [
                if offset + 0 < 8 {
                    first_arr[offset + 0]
                } else {
                    second_arr[(offset + 0) - 8]
                },
                if offset + 1 < 8 {
                    first_arr[offset + 1]
                } else {
                    second_arr[(offset + 1) - 8]
                },
                if offset + 2 < 8 {
                    first_arr[offset + 2]
                } else {
                    second_arr[(offset + 2) - 8]
                },
                if offset + 3 < 8 {
                    first_arr[offset + 3]
                } else {
                    second_arr[(offset + 3) - 8]
                },
                if offset + 4 < 8 {
                    first_arr[offset + 4]
                } else {
                    second_arr[(offset + 4) - 8]
                },
                if offset + 5 < 8 {
                    first_arr[offset + 5]
                } else {
                    second_arr[(offset + 5) - 8]
                },
                if offset + 6 < 8 {
                    first_arr[offset + 6]
                } else {
                    second_arr[(offset + 6) - 8]
                },
                if offset + 7 < 8 {
                    first_arr[offset + 7]
                } else {
                    second_arr[(offset + 7) - 8]
                },
            ];
            let result = bool_array_to_i8(combined);
            self.byte_index = bi + 1;
            proof {
                lemma_cast_u8_identity(old(self).vector@[bi as int]);
                lemma_cast_u8_identity(old(self).vector@[bi + 1]);
                let p = old(self).pos() as int;
                assert forall|k: int| p <= k < p + 8 implies old(self).stream()[k] == combined@[k
                    - p] by {
                    if k < 8 * (bi + 1) {
                        lemma_div8_range(k, bi as int);
                    } else {
                        lemma_div8_range(k, bi + 1);
                    }
                }
                assert(old(self).stream().subrange(p, p + 8) =~= combined@);
                lemma_cast_i8_identity(result);
                lemma_octet_bits_of_octet_value(combined@);
                lemma_octet_value_of_octet_bits(result as u8);
            }
            result
        }
    }

    fn ensure_extra_capacity(&mut self, extra_bools: usize) -> (r: Result<(), InputCapacityError>) {
        let total_bytes = self.vector.len();
        let rem_bytes = total_bytes - self.byte_index;
        let remaining = 8 * rem_bytes - self.bool_index;
        if remaining < extra_bools {
            Err(
                InputCapacityError {
                    current_capacity: 8 * self.byte_index + self.bool_index,
                    max_capacity: 8 * total_bytes,
                    requested_extra_capacity: extra_bools,
                },
            )
        } else {
            Ok(())
        }
    }

    fn terminate(&mut self) {
        // the vector is only borrowed, so there is nothing to release
    }
}

impl <'a> U8VecRefBitInput <'a> {
    /// A new reader that starts at the first byte of the vector.
    pub fn new(vector: &'a Vec<u8>) -> (result: U8VecRefBitInput <'a>)
        requires
            8 * vector@.len() <= usize::MAX,
        ensures
            result.inv(),
            result.pos() == 0,
            result.stream() == Seq::new(
                (8 * vector@.len()) as nat,
                |k: int| octet_bits(vector@[k / 8])[k % 8],
            ),
    {
        U8VecRefBitInput { vector, byte_index: 0, bool_index: 0 }
    }

    /// A new reader whose first read takes `vector[start_index]`.
    pub fn with_start_index(vector: &'a Vec<u8>, start_index: usize) -> (result: U8VecRefBitInput <'a>)
        requires
            8 * vector@.len() <= usize::MAX,
            start_index <= vector@.len(),
        ensures
            result.inv(),
            result.pos() == 8 * start_index,
            result.stream() == Seq::new(
                (8 * vector@.len()) as nat,
                |k: int| octet_bits(vector@[k / 8])[k % 8],
            ),
    {
        U8VecRefBitInput { vector, byte_index: start_index, bool_index: 0 }
    }
}

} // verus!
