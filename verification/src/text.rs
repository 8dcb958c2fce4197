//! The UTF-16 view of text: the code units a string exchanges with the
//! stream, and the two standard-library conversions the codec relies on.
use vstd::prelude::*;
use vstd::utf8::char_is_scalar;

verus! {

/// The UTF-16 code units of one character: a single unit below 0x10000,
/// and a surrogate pair above.
pub open spec fn char_utf16(c: char) -> Seq<u16> {
    let v = c as u32;
    if v < 0x10000 {
        seq![v as u16]
    } else {
        seq![
            (0xD800 + (v - 0x10000) / 0x400) as u16,
            (0xDC00 + (v - 0x10000) % 0x400) as u16,
        ]
    }
}

/// The UTF-16 code units of a character sequence, in order.
pub open spec fn utf16_of(chars: Seq<char>) -> Seq<u16>
    decreases chars.len(),
{
    if chars.len() == 0 {
        Seq::empty()
    } else {
        char_utf16(chars[0]) + utf16_of(chars.drop_first())
    }
}

/// Whether a sequence of code units is well-formed UTF-16: every high
/// surrogate is followed by a low surrogate, and no low surrogate stands
/// alone.
pub open spec fn valid_utf16(s: Seq<u16>) -> bool
    decreases s.len(),
{
    if s.len() == 0 {
        true
    } else if 0xD800 <= s[0] < 0xDC00 {
        s.len() >= 2 && 0xDC00 <= s[1] < 0xE000 && valid_utf16(s.skip(2))
    } else if 0xDC00 <= s[0] < 0xE000 {
        false
    } else {
        valid_utf16(s.skip(1))
    }
}

/// What a string encodes to is well-formed UTF-16.
pub proof fn lemma_utf16_of_valid(chars: Seq<char>)
    ensures
        valid_utf16(utf16_of(chars)),
    decreases chars.len(),
{
    if chars.len() > 0 {
        let c = chars[0];
        char_is_scalar(c);
        let v = c as u32;
        let rest = utf16_of(chars.drop_first());
        lemma_utf16_of_valid(chars.drop_first());
        let whole = utf16_of(chars);
        if v < 0x10000 {
            assert(whole == seq![v as u16] + rest);
            assert(whole.skip(1) =~= rest);
            assert(!(0xD800 <= whole[0] < 0xE000));
        } else {
            let hi = (0xD800 + (v - 0x10000) / 0x400) as u16;
            let lo = (0xDC00 + (v - 0x10000) % 0x400) as u16;
            assert((v - 0x10000) / 0x400 < 0x400 && (v - 0x10000) % 0x400 < 0x400) by {
                vstd::arithmetic::div_mod::lemma_mod_bound(v - 0x10000, 0x400);
            }
            assert(whole == seq![hi, lo] + rest);
            assert(whole.skip(2) =~= rest);
            assert(0xD800 <= whole[0] < 0xDC00);
            assert(0xDC00 <= whole[1] < 0xE000);
        }
    }
}

/// The UTF-16 code units of the text, in order.
///
/// Relies on `str::encode_utf16`: it yields exactly the UTF-16 encoding of
/// the string, one `u16` code unit at a time.
#[verifier::external_body]
pub fn encode_utf16_units(s: &str) -> (r: Vec<u16>)
    ensures
        r@ == utf16_of(s@),
{
    s.encode_utf16().collect()
}

/// Decodes well-formed UTF-16 into a string and rejects anything else.
///
/// Relies on `String::from_utf16`: it succeeds exactly on well-formed
/// UTF-16 input, and the returned string re-encodes to that input.
#[verifier::external_body]
pub fn string_from_utf16(units: &Vec<u16>) -> (r: Option<String>)
    ensures
        r is Some <==> valid_utf16(units@),
        r matches Some(s) ==> utf16_of(s@) == units@,
{
    match String::from_utf16(units.as_slice()) {
        Ok(s) => Some(s),
        Err(_) => None,
    }
}

} // verus!
