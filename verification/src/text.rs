//! Text made from bytes: UTF-8 decoding, hexadecimal and decimal digits.

use vstd::prelude::*;
use vstd::utf8::*;

verus! {

/// The error of the standard library for bytes that are not UTF-8.
#[verifier::external_type_specification]
#[verifier::external_body]
pub struct ExFromUtf8Error(std::string::FromUtf8Error);

/// Trusted: `String::from_utf8` of the standard library succeeds exactly on
/// well-formed UTF-8, and the string it gives has the characters that the
/// bytes encode.
pub assume_specification[ String::from_utf8 ](bytes: Vec<u8>) -> (text: Result<
    String,
    std::string::FromUtf8Error,
>)
    ensures
        text is Ok <==> valid_utf8(bytes@),
        text matches Ok(s) ==> s@ == decode_utf8(bytes@),
;

/// The ASCII code of the hexadecimal digit for `nibble`, which is below 16;
/// the letters are capitals if `upper` and small otherwise.
pub open spec fn hex_digit(nibble: u8, upper: bool) -> u8
    recommends
        nibble < 16,
{
    if nibble < 10 {
        (0x30 + nibble) as u8
    } else if upper {
        (0x41 + (nibble - 10)) as u8
    } else {
        (0x61 + (nibble - 10)) as u8
    }
}

/// The ASCII codes of the hexadecimal rendering of `bytes`: two digits for
/// each byte, the high half first.
pub open spec fn hex_codes(bytes: Seq<u8>, upper: bool) -> Seq<u8> {
    Seq::new(
        2 * bytes.len(),
        |i: int|
            if i % 2 == 0 {
                hex_digit(bytes[i / 2] / 16, upper)
            } else {
                hex_digit(bytes[i / 2] % 16, upper)
            },
    )
}

/// The hexadecimal rendering of `bytes` as characters.
pub open spec fn hex_chars(bytes: Seq<u8>, upper: bool) -> Seq<char> {
    Seq::new(2 * bytes.len(), |i: int| hex_codes(bytes, upper)[i] as char)
}

/// Whether `c` is a hexadecimal digit, with capital letters if `upper` and
/// with small letters otherwise.
pub open spec fn is_hex_digit(c: char, upper: bool) -> bool {
    ||| '0' <= c <= '9'
    ||| upper && 'A' <= c <= 'F'
    ||| !upper && 'a' <= c <= 'f'
}

/// A hexadecimal rendering has two characters for each byte, all of them
/// hexadecimal digits in the case asked for.
pub proof fn lemma_hex_chars(bytes: Seq<u8>, upper: bool)
    ensures
        hex_chars(bytes, upper).len() == 2 * bytes.len(),
        forall|i: int|
            0 <= i < hex_chars(bytes, upper).len() ==> is_hex_digit(
                #[trigger] hex_chars(bytes, upper)[i],
                upper,
            ),
{
    assert forall|i: int| 0 <= i < hex_chars(bytes, upper).len() implies is_hex_digit(
        #[trigger] hex_chars(bytes, upper)[i],
        upper,
    ) by {
        let nibble: u8 = if i % 2 == 0 {
            bytes[i / 2] / 16
        } else {
            bytes[i / 2] % 16
        };
        assert(nibble < 16);
        assert(hex_codes(bytes, upper)[i] == hex_digit(nibble, upper));
    }
}

/// Bytes below 128 are the UTF-8 encoding of the characters with those codes.
pub proof fn lemma_ascii_is_utf8(codes: Seq<u8>)
    requires
        forall|i: int| 0 <= i < codes.len() ==> codes[i] < 128,
    ensures
        valid_utf8(codes),
        decode_utf8(codes) == Seq::new(codes.len(), |i: int| codes[i] as char),
{
    let chars = Seq::new(codes.len(), |i: int| codes[i] as char);
    assert(is_ascii_chars(chars));
    is_ascii_chars_encode_utf8(chars);
    assert(encode_utf8(chars) =~= codes);
    encode_utf8_valid_utf8(chars);
    encode_utf8_decode_utf8(chars);
}

/// The ASCII code of one hexadecimal digit.
fn hex_digit_of(nibble: u8, upper: bool) -> (code: u8)
    requires
        nibble < 16,
    ensures
        code == hex_digit(nibble, upper),
        code < 128,
{
    if nibble < 10 {
        0x30 + nibble
    } else if upper {
        0x41 + (nibble - 10)
    } else {
        0x61 + (nibble - 10)
    }
}

/// Renders `bytes` in hexadecimal, two digits a byte.
pub fn to_hex(bytes: &[u8], upper: bool) -> (text: String)
    ensures
        text@ == hex_chars(bytes@, upper),
        text@.len() == 2 * bytes@.len(),
{
    let mut codes: Vec<u8> = Vec::new();
    let mut i: usize = 0;
    while i < bytes.len()
        invariant
            i <= bytes@.len(),
            codes@.len() == 2 * i,
            forall|k: int| 0 <= k < codes@.len() ==> codes@[k] == hex_codes(bytes@, upper)[k],
            forall|k: int| 0 <= k < codes@.len() ==> codes@[k] < 128,
        decreases bytes@.len() - i,
    {
        let b: u8 = bytes[i];
        codes.push(hex_digit_of(b / 16, upper));
        codes.push(hex_digit_of(b % 16, upper));
        i += 1;
    }
    proof {
        assert(codes@ =~= hex_codes(bytes@, upper));
        lemma_ascii_is_utf8(codes@);
        assert(decode_utf8(codes@) =~= hex_chars(bytes@, upper));
    }
    String::from_utf8(codes).unwrap()
}

/// The ASCII codes of `n` written in decimal, without leading zeros.
pub open spec fn decimal_digits(n: nat) -> Seq<u8>
    decreases n,
{
    if n < 10 {
        seq![(0x30 + n) as u8]
    } else {
        decimal_digits(n / 10).push((0x30 + n % 10) as u8)
    }
}

/// A number in decimal is made of the digits `0` to `9`, at least one.
pub proof fn lemma_decimal_digits(n: nat)
    ensures
        decimal_digits(n).len() >= 1,
        forall|i: int|
            0 <= i < decimal_digits(n).len() ==> 0x30 <= #[trigger] decimal_digits(n)[i] <= 0x39,
    decreases n,
{
    if n >= 10 {
        lemma_decimal_digits(n / 10);
    }
}

/// Appends `n` in decimal to `out`.
pub fn push_decimal(out: &mut Vec<u8>, n: usize)
    ensures
        final(out)@ == old(out)@ + decimal_digits(n as nat),
    decreases n,
{
    if n >= 10 {
        push_decimal(out, n / 10);
    }
    out.push((0x30 + n % 10) as u8);
}

} // verus!
