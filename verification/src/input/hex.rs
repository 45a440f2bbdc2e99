//! Hexadecimal input: two digits for each octet.

use vstd::prelude::*;

verus! {

/// `hex::FromHexError`, carried through as the crate hands it out.
#[verifier::external_type_specification]
#[verifier::external_body]
pub struct ExFromHexError(hex::FromHexError);

/// Whether the octet is the ASCII code of a hexadecimal digit, in either
/// case.
pub open spec fn is_hex_digit(b: u8) -> bool {
    (0x30 <= b <= 0x39) || (0x41 <= b <= 0x46) || (0x61 <= b <= 0x66)
}

/// The number that a hexadecimal digit stands for.
pub open spec fn hex_digit_value(b: u8) -> int {
    if 0x30 <= b <= 0x39 {
        b - 0x30
    } else if 0x41 <= b <= 0x46 {
        b - 0x41 + 10
    } else {
        b - 0x61 + 10
    }
}

/// Whether the input is an even number of hexadecimal digits.
pub open spec fn spec_is_valid_hex(data: Seq<u8>) -> bool {
    data.len() % 2 == 0 && forall|i: int| 0 <= i < data.len() ==> is_hex_digit(#[trigger] data[i])
}

/// The octets that pairs of hexadecimal digits stand for, the first digit of
/// a pair being the upper half.
pub open spec fn hex_value(data: Seq<u8>) -> Seq<u8> {
    Seq::new(
        data.len() / 2,
        |i: int| (hex_digit_value(data[2 * i]) * 16 + hex_digit_value(data[2 * i + 1])) as u8,
    )
}

/// Calls `hex::decode`, which decodes exactly the inputs made of an even
/// number of hexadecimal digits.
#[verifier::external_body]
fn decode_digits(input: &[u8]) -> (r: Result<Vec<u8>, hex::FromHexError>)
    ensures
        match r {
            Ok(bytes) => spec_is_valid_hex(input@) && bytes@ == hex_value(input@),
            Err(_) => !spec_is_valid_hex(input@),
        },
{
    hex::decode(input)
}

fn is_hex_digit_byte(b: u8) -> (r: bool)
    ensures
        r == is_hex_digit(b),
{
    (0x30 <= b && b <= 0x39) || (0x41 <= b && b <= 0x46) || (0x61 <= b && b <= 0x66)
}

/// Whether the input is an even number of hexadecimal digits.
pub fn is_valid_hex(data: &[u8]) -> (r: bool)
    ensures
        r == spec_is_valid_hex(data@),
{
    if data.len() % 2 != 0 {
        return false;
    }
    let mut i: usize = 0;
    while i < data.len()
        invariant
            i <= data.len(),
            forall|j: int| 0 <= j < i ==> is_hex_digit(#[trigger] data@[j]),
        decreases data.len() - i,
    {
        if !is_hex_digit_byte(data[i]) {
            return false;
        }
        i = i + 1;
    }
    true
}

/// The octets that the hexadecimal digits stand for. Fails exactly where the
/// input is not an even number of hexadecimal digits.
pub fn hex_decode(input: Vec<u8>) -> (r: Result<Vec<u8>, hex::FromHexError>)
    ensures
        match r {
            Ok(bytes) => spec_is_valid_hex(input@) && bytes@ == hex_value(input@),
            Err(_) => !spec_is_valid_hex(input@),
        },
{
    decode_digits(input.as_slice())
}

} // verus!
