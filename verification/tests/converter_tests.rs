use bit_helper::converter::bool_array_to_i8;
use bit_helper::converter::bool_slice_to_i8;
use bit_helper::converter::bool_tuple_to_i8;
use bit_helper::converter::bools_to_i8;
use bit_helper::converter::bools_to_signed_int;
use bit_helper::converter::bools_to_sized_i64;
use bit_helper::converter::bools_to_sized_u64;
use bit_helper::converter::boolean_array_to_u8;
use bit_helper::converter::boolean_slice_to_u8;
use bit_helper::converter::boolean_tuple_to_u8;
use bit_helper::converter::booleans_to_u8;
use bit_helper::converter::i8_array_to_i16;
use bit_helper::converter::i8_array_to_i32;
use bit_helper::converter::i8_slice_to_i16;
use bit_helper::converter::i8_slice_to_i32;
use bit_helper::converter::i8_to_bool_array;
use bit_helper::converter::i8_to_bool_tuple;
use bit_helper::converter::i8_tuple_to_i16;
use bit_helper::converter::i8_tuple_to_i32;
use bit_helper::converter::i8s_to_i16;
use bit_helper::converter::i8s_to_i32;
use bit_helper::converter::i16_to_i8_1;
use bit_helper::converter::i16_to_i8_2;
use bit_helper::converter::i16_to_i8_array;
use bit_helper::converter::i16_to_i8_tuple;
use bit_helper::converter::i16_to_u8_1;
use bit_helper::converter::i16_to_u8_2;
use bit_helper::converter::i16_to_u8_array;
use bit_helper::converter::i16_to_u8_tuple;
use bit_helper::converter::i32_to_i8_1;
use bit_helper::converter::i32_to_i8_2;
use bit_helper::converter::i32_to_i8_3;
use bit_helper::converter::i32_to_i8_4;
use bit_helper::converter::i32_to_i8_array;
use bit_helper::converter::i32_to_i8_tuple;
use bit_helper::converter::i32_to_u8_1;
use bit_helper::converter::i32_to_u8_2;
use bit_helper::converter::i32_to_u8_3;
use bit_helper::converter::i32_to_u8_4;
use bit_helper::converter::i32_to_u8_array;
use bit_helper::converter::i32_to_u8_tuple;
use bit_helper::converter::sized_i64_to_bools;
use bit_helper::converter::sized_u64_to_bools;
use bit_helper::converter::u8_array_to_i16;
use bit_helper::converter::u8_array_to_i32;
use bit_helper::converter::u8_slice_to_i16;
use bit_helper::converter::u8_slice_to_i32;
use bit_helper::converter::u8_to_boolean_array;
use bit_helper::converter::u8_to_boolean_tuple;
use bit_helper::converter::u8_tuple_to_i16;
use bit_helper::converter::u8_tuple_to_i32;
use bit_helper::converter::u8s_to_i16;
use bit_helper::converter::u8s_to_i32;
use bit_helper::converter::signed_int_to_bools;

#[test]
fn int8s_to_booleans() {
    // Only 256 possible values, so just test them all
    for element in -128i8..=127i8 {
        let boolean_tuple = i8_to_bool_tuple(element);
        let boolean_array = i8_to_bool_array(element);

        let reverted1 = bool_tuple_to_i8(boolean_tuple);
        let reverted2 = bools_to_i8(boolean_tuple.0, boolean_tuple.1, boolean_tuple.2, boolean_tuple.3, boolean_tuple.4, boolean_tuple.5, boolean_tuple.6, boolean_tuple.7);
        let reverted3 = bool_array_to_i8([boolean_tuple.0, boolean_tuple.1, boolean_tuple.2, boolean_tuple.3, boolean_tuple.4, boolean_tuple.5, boolean_tuple.6, boolean_tuple.7]);
        let reverted4 = bool_slice_to_i8(&[boolean_tuple.0, boolean_tuple.1, boolean_tuple.2, boolean_tuple.3, boolean_tuple.4, boolean_tuple.5, boolean_tuple.6, boolean_tuple.7]);

        let reverted5 = bool_tuple_to_i8((boolean_array[0], boolean_array[1], boolean_array[2], boolean_array[3], boolean_array[4], boolean_array[5], boolean_array[6], boolean_array[7]));
        let reverted6 = bools_to_i8(boolean_array[0], boolean_array[1], boolean_array[2], boolean_array[3], boolean_array[4], boolean_array[5], boolean_array[6], boolean_array[7]);
        let reverted7 = bool_array_to_i8(boolean_array);
        let reverted8 = bool_slice_to_i8(&boolean_array);

        assert_eq!(element, reverted1);
        assert_eq!(element, reverted2);
        assert_eq!(element, reverted3);
        assert_eq!(element, reverted4);
        assert_eq!(element, reverted5);
        assert_eq!(element, reverted6);
        assert_eq!(element, reverted7);
        assert_eq!(element, reverted8);
    }
}

#[test]
fn uint8s_to_booleans() {
    let mut l: u64 = 1;
    for _ in 0..63 {
        println!("{}, ", l);
        l *= 2;
    }

    // Only 256 possible values, so just test them all
    for element in 0u8..=255 {
        let boolean_tuple = u8_to_boolean_tuple(element);
        let boolean_array = u8_to_boolean_array(element);

        let reverted1 = boolean_tuple_to_u8(boolean_tuple);
        let reverted2 = booleans_to_u8(boolean_tuple.0, boolean_tuple.1, boolean_tuple.2, boolean_tuple.3, boolean_tuple.4, boolean_tuple.5, boolean_tuple.6, boolean_tuple.7);
        let reverted3 = boolean_array_to_u8([boolean_tuple.0, boolean_tuple.1, boolean_tuple.2, boolean_tuple.3, boolean_tuple.4, boolean_tuple.5, boolean_tuple.6, boolean_tuple.7]);
        let reverted4 = boolean_slice_to_u8(&[boolean_tuple.0, boolean_tuple.1, boolean_tuple.2, boolean_tuple.3, boolean_tuple.4, boolean_tuple.5, boolean_tuple.6, boolean_tuple.7]);

        let reverted5 = boolean_tuple_to_u8((boolean_array[0], boolean_array[1], boolean_array[2], boolean_array[3], boolean_array[4], boolean_array[5], boolean_array[6], boolean_array[7]));
        let reverted6 = booleans_to_u8(boolean_array[0], boolean_array[1], boolean_array[2], boolean_array[3], boolean_array[4], boolean_array[5], boolean_array[6], boolean_array[7]);
        let reverted7 = boolean_array_to_u8(boolean_array);
        let reverted8 = boolean_slice_to_u8(&boolean_array);

        assert_eq!(element, reverted1);
        assert_eq!(element, reverted2);
        assert_eq!(element, reverted3);
        assert_eq!(element, reverted4);
        assert_eq!(element, reverted5);
        assert_eq!(element, reverted6);
        assert_eq!(element, reverted7);
        assert_eq!(element, reverted8);
    }
}

#[test]
fn test_i8_to_i16() {
    // I can't imagine a better way to test the conversion of 16-bit numbers than just testing them all
    for short in -32768i16..=32767 {
        let byte1 = i16_to_i8_1(short);
        let byte2 = i16_to_i8_2(short);
        let pair = i16_to_i8_tuple(short);
        let array = i16_to_i8_array(short);

        assert_eq!(byte1, pair.0);
        assert_eq!(byte2, pair.1);
        assert_eq!(byte1, array[0]);
        assert_eq!(byte2, array[1]);

        let reverted1 = i8s_to_i16(byte1, byte2);
        let reverted2 = i8_tuple_to_i16(pair);
        let reverted3 = i8_array_to_i16(array);
        let reverted4 = i8_slice_to_i16(&array);

        assert_eq!(short, reverted1);
        assert_eq!(short, reverted2);
        assert_eq!(short, reverted3);
        assert_eq!(short, reverted4);
    }
}

#[test]
fn test_i8_to_i32() {
    // 4 billion tests is not so nice, so let's skip some values...
    let mut counter = 0;
    let mut int = -2147483648;
    while counter < 34000 {
        let byte1 = i32_to_i8_1(int);
        let byte2 = i32_to_i8_2(int);
        let byte3 = i32_to_i8_3(int);
        let byte4 = i32_to_i8_4(int);
        let pair = i32_to_i8_tuple(int);
        let array = i32_to_i8_array(int);

        assert_eq!(byte1, pair.0);
        assert_eq!(byte2, pair.1);
        assert_eq!(byte3, pair.2);
        assert_eq!(byte4, pair.3);
        assert_eq!(byte1, array[0]);
        assert_eq!(byte2, array[1]);
        assert_eq!(byte3, array[2]);
        assert_eq!(byte4, array[3]);

        let reverted1 = i8s_to_i32(byte1, byte2, byte3, byte4);
        let reverted2 = i8_tuple_to_i32(pair);
        let reverted3 = i8_array_to_i32(array);
        let reverted4 = i8_slice_to_i32(&array);

        assert_eq!(int, reverted1);
        assert_eq!(int, reverted2);
        assert_eq!(int, reverted3);
        assert_eq!(int, reverted4);

        int += 123456;
        counter += 1;
    }
}

#[test]
fn test_u8_to_i16() {
    // I can't imagine a better way to test the conversion of 16-bit numbers than just testing them all
    for short in -32768i16..=32767 {
        let byte1 = i16_to_u8_1(short);
        let byte2 = i16_to_u8_2(short);
        let pair = i16_to_u8_tuple(short);
        let array = i16_to_u8_array(short);

        assert_eq!(byte1, pair.0);
        assert_eq!(byte2, pair.1);
        assert_eq!(byte1, array[0]);
        assert_eq!(byte2, array[1]);

        let reverted1 = u8s_to_i16(byte1, byte2);
        let reverted2 = u8_tuple_to_i16(pair);
        let reverted3 = u8_array_to_i16(array);
        let reverted4 = u8_slice_to_i16(&array);

        assert_eq!(short, reverted1);
        assert_eq!(short, reverted2);
        assert_eq!(short, reverted3);
        assert_eq!(short, reverted4);
    }
}

#[test]
fn test_u8_to_i32() {
    // 4 billion tests is not so nice, so let's skip some values...
    let mut counter = 0;
    let mut int = -2147483648;
    while counter < 34000 {
        let byte1 = i32_to_u8_1(int);
        let byte2 = i32_to_u8_2(int);
        let byte3 = i32_to_u8_3(int);
        let byte4 = i32_to_u8_4(int);
        let pair = i32_to_u8_tuple(int);
        let array = i32_to_u8_array(int);

        assert_eq!(byte1, pair.0);
        assert_eq!(byte2, pair.1);
        assert_eq!(byte3, pair.2);
        assert_eq!(byte4, pair.3);
        assert_eq!(byte1, array[0]);
        assert_eq!(byte2, array[1]);
        assert_eq!(byte3, array[2]);
        assert_eq!(byte4, array[3]);

        let reverted1 = u8s_to_i32(byte1, byte2, byte3, byte4);
        let reverted2 = u8_tuple_to_i32(pair);
        let reverted3 = u8_array_to_i32(array);
        let reverted4 = u8_slice_to_i32(&array);

        assert_eq!(int, reverted1);
        assert_eq!(int, reverted2);
        assert_eq!(int, reverted3);
        assert_eq!(int, reverted4);

        int += 123456;
        counter += 1;
    }
}

fn test_single_sized_i64(integer: i64) {
    let mut as_bools = vec![false; 64];
    sized_i64_to_bools(integer, 64, &mut as_bools, 0);
    let reverted = bools_to_sized_i64(64, &as_bools, 0);
    assert_eq!(integer, reverted);
}

#[test]
fn test_sized_i64_to_bools() {
    let mut integer = -9223372036854775808;
    while integer < 23738474347634 {
        test_single_sized_i64(integer);
        integer += 9538274823127357;
    }
    test_single_sized_i64(0);
}

fn test_single_sized_u64(integer: u64) {
    let mut as_bools = vec![false; 64];
    sized_u64_to_bools(integer, 64, &mut as_bools, 0);
    let reverted = bools_to_sized_u64(64, &as_bools, 0);
    assert_eq!(integer, reverted);
}

#[test]
fn test_sized_u64_to_bools() {
    let mut integer = u64::max_value();
    let step_size = 3487384783472473;
    while integer > step_size {
        test_single_sized_u64(integer);
        integer -= step_size;
    }
}

#[test]
fn test_signed_int_round_trip() {
    for bits in 1..=64usize {
        let max_mag: i64 = if bits == 64 { i64::max_value() } else { (1i64 << (bits - 1)) - 1 };
        let samples = [-(max_mag) - 1, -1, 0, max_mag];
        for &value in samples.iter() {
            let mut bools = vec![false; bits + 3];
            bools_to_signed_int_probe(value, bits, &mut bools);
        }
    }
}

fn bools_to_signed_int_probe(value: i64, bits: usize, bools: &mut Vec<bool>) {
    signed_int_to_bools(value, bits, bools, 2);
    let reverted = bools_to_signed_int(bits, bools, 2);
    assert_eq!(value, reverted);
}
