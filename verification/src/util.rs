use vstd::prelude::*;

verus! {

/// Whether `c` is an ASCII hexadecimal digit (`0-9`, `A-F`, `a-f`).
pub open spec fn spec_is_hex(c: u8) -> bool {
    (0x30 <= c <= 0x39) || (0x41 <= c <= 0x46) || (0x61 <= c <= 0x66)
}

/// The value of a hexadecimal digit, as a reader of hex would give it.
pub open spec fn digit_value(c: u8) -> u8 {
    if 0x30 <= c <= 0x39 {
        (c - 0x30) as u8
    } else if 0x41 <= c <= 0x46 {
        (c - 0x41 + 10) as u8
    } else {
        (c - 0x61 + 10) as u8
    }
}

/// The arithmetic that `hex_val` performs on any byte.
pub open spec fn spec_hex_val(c: u8) -> u8 {
    ((c & 0x0F) + (c >> 6) * 9) as u8
}

/// Determines if `input` is a valid hex digit.
pub fn is_hex(input: u8) -> (r: bool)
    ensures
        r == spec_is_hex(input),
{
    // '0'..='9', 'A'..='F', 'a'..='f'
    (0x30 <= input && input <= 0x39) || (0x41 <= input && input <= 0x46) || (0x61 <= input
        && input <= 0x66)
}

/// Converts a hex digit to its numeric value.
pub fn hex_val(input: u8) -> (r: u8)
    ensures
        r == spec_hex_val(input),
        spec_is_hex(input) ==> r == digit_value(input),
        spec_is_hex(input) ==> r < 16,
{
    proof {
        lemma_hex_val_digit(input);
    }
    assert((input & 0x0F) <= 15 && (input >> 6) <= 3) by (bit_vector);
    (input & 0x0F) + (input >> 6) * 9
}

/// On a hexadecimal digit, the bit arithmetic of `hex_val` gives the
/// digit's value.
pub proof fn lemma_hex_val_digit(c: u8)
    ensures
        spec_is_hex(c) ==> spec_hex_val(c) == digit_value(c),
        spec_is_hex(c) ==> digit_value(c) < 16,
{
    assert(0x30 <= c <= 0x39 ==> ((c & 0x0F) + (c >> 6) * 9) as u8 == (c - 0x30) as u8)
        by (bit_vector);
    assert(0x41 <= c <= 0x46 ==> ((c & 0x0F) + (c >> 6) * 9) as u8 == (c - 0x41 + 10) as u8)
        by (bit_vector);
    assert(0x61 <= c <= 0x66 ==> ((c & 0x0F) + (c >> 6) * 9) as u8 == (c - 0x61 + 10) as u8)
        by (bit_vector);
}

} // verus!
