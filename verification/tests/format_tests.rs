use bit_helper::input::BitInput;
use bit_helper::input::BitInputError;
use bit_helper::input::BoolSliceBitInput;
use bit_helper::input::I8VecBitInput;
use bit_helper::input::InputCapacityError;
use bit_helper::input::StringLengthError;
use bit_helper::input::U8VecBitInput;
use bit_helper::input::U8VecRefBitInput;
use bit_helper::output::BitOutput;
use bit_helper::output::BoolVecBitOutput;
use bit_helper::output::I8VecBitOutput;
use bit_helper::output::U8VecBitOutput;

#[test]
fn test_aligned_bytes_pass_through() {
    let mut output = U8VecBitOutput::with_capacity(4);
    output.add_u8(0x12);
    output.add_u8(0xFF);
    output.add_u16(0x0102);
    assert_eq!(output.to_u8_vector(), vec![0x12, 0xFF, 0x02, 0x01]);
    let mut wide = U8VecBitOutput::with_capacity(16);
    wide.add_i64(0x0102030405060708);
    wide.add_u64(0x1112131415161718);
    assert_eq!(
        wide.to_u8_vector(),
        vec![8, 7, 6, 5, 4, 3, 2, 1, 0x18, 0x17, 0x16, 0x15, 0x14, 0x13, 0x12, 0x11]
    );
}

#[test]
fn test_boolean_octet_byte_value() {
    // first magnitude bit (weight 64) set, sign bit set
    let mut output = U8VecBitOutput::with_capacity(1);
    output.add_bool(true);
    for _ in 0..6 {
        output.add_bool(false);
    }
    output.add_bool(true);
    assert_eq!(output.to_u8_vector(), vec![64]);

    // all bits clear encodes -0 - 1 = -1, i.e. byte 255
    let mut output2 = U8VecBitOutput::with_capacity(1);
    for _ in 0..8 {
        output2.add_bool(false);
    }
    assert_eq!(output2.to_u8_vector(), vec![255]);
}

#[test]
fn test_var_u64_round_trip_values() {
    let samples: [u64; 9] = [0, 1, 5, 63, 64, 1000, 288230376151711744, 9223372036854775808, u64::max_value()];
    let mut output = BoolVecBitOutput::new(100);
    for &v in samples.iter() {
        output.add_var_u64(v);
    }
    for &v in samples.iter() {
        output.add_direct_var_u64(v);
    }
    let mut input = BoolSliceBitInput::new(output.get_slice());
    for &v in samples.iter() {
        assert_eq!(input.read_var_u64().unwrap(), v);
    }
    for &v in samples.iter() {
        assert_eq!(input.read_direct_var_u64(), v);
    }
}

#[test]
fn test_var_u64_zero_uses_seven_bits() {
    let mut output = BoolVecBitOutput::new(10);
    output.add_var_u64(0);
    assert_eq!(output.get_vec().len(), 7);
    // six clear width bits, then one clear payload bit
    assert_eq!(output.get_slice(), &[false, false, false, false, false, false, false]);
}

#[test]
fn test_string_variants() {
    let mut output = I8VecBitOutput::with_capacity(64);
    output.add_string(None);
    output.add_string(Some(""));
    output.add_string(Some("aaaa"));
    output.add_string(Some("hello world"));
    let long: String = std::iter::repeat('x').take(300).collect();
    output.add_string(Some(long.as_str()));
    output.add_string(Some("𝄞music"));
    let mut input = I8VecBitInput::new(output.to_i8_vector());
    assert_eq!(input.read_string(10), Ok(None));
    assert_eq!(input.read_string(0), Ok(Some(String::from(""))));
    assert_eq!(input.read_string(4), Ok(Some(String::from("aaaa"))));
    assert_eq!(input.read_string(100), Ok(Some(String::from("hello world"))));
    assert_eq!(input.read_string(300), Ok(Some(long)));
    assert_eq!(input.read_string(7), Ok(Some(String::from("𝄞music"))));
}

#[test]
fn test_string_exact_bytes() {
    // "bcb": marker 4 (length 3 plus one), least unit 98 as two bytes,
    // delta width 1 in five bits, then deltas 0, 1, 0. The final byte holds
    // the bits 0,0,0,0,1,0,1,0: magnitude 5 with a clear sign bit, which
    // the octet convention stores as -5 - 1, byte 250.
    let mut output = U8VecBitOutput::with_capacity(4);
    output.add_string(Some("bcb"));
    assert_eq!(output.to_u8_vector(), vec![4, 98, 0, 250]);
    let mut input = U8VecBitInput::new(output.to_u8_vector());
    assert_eq!(input.read_string(3), Ok(Some(String::from("bcb"))));
}

#[test]
fn test_string_length_boundary() {
    let mut output = U8VecBitOutput::with_capacity(16);
    output.add_string(Some("abcde"));
    let bytes = output.to_u8_vector();

    let mut exact = U8VecBitInput::new(bytes.clone());
    assert_eq!(exact.read_string(5), Ok(Some(String::from("abcde"))));

    let mut short = U8VecBitInput::new(bytes);
    assert_eq!(
        short.read_string(4),
        Err(BitInputError::StringLength(StringLengthError::long(5, 4)))
    );
}

#[test]
fn test_string_negative_length() {
    let mut output = U8VecBitOutput::with_capacity(8);
    output.add_i8(-1);
    output.add_i32(-5);
    let mut input = U8VecBitInput::new(output.to_u8_vector());
    assert_eq!(
        input.read_string(100),
        Err(BitInputError::StringLength(StringLengthError::negative(-5)))
    );
}

#[test]
fn test_string_invalid_encoding() {
    // declared length 1, every unit equal to a lone high surrogate
    let mut output = U8VecBitOutput::with_capacity(8);
    output.add_i8(2);
    output.add_u16(0xD800);
    output.add_sized_u64(0, 5);
    let mut input = U8VecBitInput::new(output.to_u8_vector());
    match input.read_string(10) {
        Err(BitInputError::InvalidString(_)) => (),
        other => panic!("expected an invalid string error, got {:?}", other),
    }
}

#[test]
fn test_capacity_boundary() {
    let bools = [true, false, true, true, false];
    let mut input = BoolSliceBitInput::new(&bools);
    let read = input.read_bools(5).unwrap();
    assert_eq!(read, vec![true, false, true, true, false]);
    match input.read_bools(1) {
        Err(BitInputError::InputCapacity(e)) => {
            assert_eq!(e.current_capacity(), 5);
            assert_eq!(e.max_capacity(), 5);
            assert_eq!(e.requested_extra_capacity(), 1);
        },
        other => panic!("expected a capacity error, got {:?}", other),
    }
}

#[test]
fn test_capacity_error_fields() {
    let bytes: Vec<u8> = vec![1, 2, 3];
    let mut input = U8VecBitInput::new(bytes);
    assert_eq!(input.read_u16().unwrap(), 0x0201);
    let error = input.read_u16().unwrap_err();
    assert_eq!(
        error,
        BitInputError::InputCapacity(InputCapacityError {
            current_capacity: 16,
            max_capacity: 24,
            requested_extra_capacity: 16,
        })
    );
    assert_eq!(input.read_u8().unwrap(), 3);
}

#[test]
fn test_u8_vec_ref_input() {
    let mut output = U8VecBitOutput::with_capacity(8);
    output.add_i16(-21345);
    output.add_u32(123456789);
    let bytes = output.to_u8_vector();
    let mut input = U8VecRefBitInput::new(&bytes);
    assert_eq!(input.read_i16().unwrap(), -21345);
    assert_eq!(input.read_u32().unwrap(), 123456789);
    input.terminate();
    assert_eq!(bytes.len(), 6);
}

#[test]
fn test_with_start_index() {
    let mut output = U8VecBitOutput::with_capacity(8);
    output.add_u8(99);
    output.add_i16(-12345);
    let bytes = output.to_u8_vector();
    let mut skipping = U8VecRefBitInput::with_start_index(&bytes, 1);
    assert_eq!(skipping.read_i16().unwrap(), -12345);
    let mut owned = I8VecBitInput::with_start_index(
        bytes.iter().map(|b| *b as i8).collect(),
        1,
    );
    assert_eq!(owned.read_i16().unwrap(), -12345);
    let mut owned_u = U8VecBitInput::with_start_index(bytes, 1);
    assert_eq!(owned_u.read_i16().unwrap(), -12345);
}

#[test]
fn test_unaligned_bytes_round_trip() {
    let mut output = I8VecBitOutput::with_capacity(16);
    output.add_bool(true);
    output.add_i8(-100);
    output.add_bool(false);
    output.add_u16(54321);
    output.add_bool(true);
    output.add_sized_i64(-1234567890123456789, 64);
    output.add_sized_u64(12345678901234567890, 64);
    let mut input = I8VecBitInput::new(output.to_i8_vector());
    assert_eq!(input.read_bools(1).unwrap(), vec![true]);
    assert_eq!(input.read_i8().unwrap(), -100);
    assert_eq!(input.read_bools(1).unwrap(), vec![false]);
    assert_eq!(input.read_u16().unwrap(), 54321);
    assert_eq!(input.read_bools(1).unwrap(), vec![true]);
    assert_eq!(input.read_sized_i64(64).unwrap(), -1234567890123456789);
    assert_eq!(input.read_sized_u64(64).unwrap(), 12345678901234567890);
}

#[test]
fn test_sized_small_widths() {
    let mut output = BoolVecBitOutput::new(64);
    output.add_sized_u64(0, 1);
    output.add_sized_u64(1, 1);
    output.add_sized_u64(5, 3);
    output.add_sized_i64(-1, 1);
    output.add_sized_i64(0, 1);
    output.add_sized_i64(-4, 3);
    output.add_sized_i64(3, 3);
    assert_eq!(output.get_slice()[0], false);
    assert_eq!(output.get_slice()[1], true);
    // 5 in three bits, most significant first: 1 0 1
    assert_eq!(&output.get_slice()[2..5], &[true, false, true]);
    let mut input = BoolSliceBitInput::new(output.get_slice());
    assert_eq!(input.read_sized_u64(1).unwrap(), 0);
    assert_eq!(input.read_sized_u64(1).unwrap(), 1);
    assert_eq!(input.read_sized_u64(3).unwrap(), 5);
    assert_eq!(input.read_sized_i64(1).unwrap(), -1);
    assert_eq!(input.read_sized_i64(1).unwrap(), 0);
    assert_eq!(input.read_sized_i64(3).unwrap(), -4);
    assert_eq!(input.read_sized_i64(3).unwrap(), 3);
}

#[test]
fn test_error_from_capacity() {
    let error = InputCapacityError {
        current_capacity: 3,
        max_capacity: 8,
        requested_extra_capacity: 6,
    };
    let other = InputCapacityError {
        current_capacity: 3,
        max_capacity: 8,
        requested_extra_capacity: 6,
    };
    assert_eq!(BitInputError::from(error), BitInputError::InputCapacity(other));
}

#[test]
fn test_read_to_vec_grows_destination() {
    let bools = [true, false, true];
    let mut input = BoolSliceBitInput::new(&bools);
    let mut dest: Vec<bool> = Vec::new();
    input.read_bools_to_vec(&mut dest, 2, 3).unwrap();
    assert_eq!(dest, vec![false, false, true, false, true]);
}

#[test]
fn test_bool_vec_output_get_vec() {
    let mut output = BoolVecBitOutput::new(4);
    output.add_bool(true);
    output.add_bool(false);
    assert_eq!(output.get_vec(), &vec![true, false]);
    output.terminate();
    assert_eq!(output.get_vec(), &vec![true, false]);
}
