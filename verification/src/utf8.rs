//! Encoding of Unicode scalar values as UTF-8 bytes and as text.

use vstd::prelude::*;
use vstd::string::*;
use vstd::utf8::*;

verus! {

/// Largest value that has a UTF-8 encoding.
pub const LAST_CODE_POINT: u32 = 0x10FFFF;

/// True for the values reserved for UTF-16 surrogates, which are no scalar
/// values although they lie below [`LAST_CODE_POINT`].
pub open spec fn is_surrogate(v: u32) -> bool {
    0xD800 <= v <= 0xDFFF
}

/// Number of bytes that encode `v`: the UTF-8 length class of its range, and
/// zero for a value past the last code point.
pub open spec fn encoded_len(v: u32) -> nat {
    if v <= 0x7F {
        1
    } else if v <= 0x7FF {
        2
    } else if v <= 0xFFFF {
        3
    } else if v <= 0x10FFFF {
        4
    } else {
        0
    }
}

/// The bytes that encode `v`: a leading byte that carries the length class and
/// the topmost bits, followed by continuation bytes of six bits each. A value
/// past the last code point has no bytes.
pub open spec fn encoded_bytes(v: u32) -> Seq<u8> {
    if v <= 0x7F {
        seq![v as u8]
    } else if v <= 0x7FF {
        seq![(0xC0 | (v >> 6)) as u8, (0x80 | (v & 0x3F)) as u8]
    } else if v <= 0xFFFF {
        seq![(0xE0 | (v >> 12)) as u8, (0x80 | ((v >> 6) & 0x3F)) as u8, (0x80 | (v & 0x3F)) as u8]
    } else if v <= 0x10FFFF {
        seq![
            (0xF0 | (v >> 18)) as u8,
            (0x80 | ((v >> 12) & 0x3F)) as u8,
            (0x80 | ((v >> 6) & 0x3F)) as u8,
            (0x80 | (v & 0x3F)) as u8,
        ]
    } else {
        seq![]
    }
}

/// Encodes a scalar value as UTF-8.
///
/// Surrogates are encoded like any other three-byte value; a value past the
/// last code point yields no bytes.
pub fn utf32_to_utf8(utf32: u32) -> (utf8: Vec<u8>)
    ensures
        utf8@ == encoded_bytes(utf32),
        utf8@.len() == encoded_len(utf32),
{
    let mut utf8: Vec<u8> = Vec::new();
    if utf32 <= 0x7F {
        utf8.push(utf32 as u8);
    } else if utf32 <= 0x7FF {
        assert((0xC0 | (utf32 >> 6)) <= 0xFF && (0x80 | (utf32 & 0x3F)) <= 0xFF) by (bit_vector)
            requires
                utf32 <= 0x7FF,
        ;
        utf8.push((0xC0 | (utf32 >> 6)) as u8);
        utf8.push((0x80 | (utf32 & 0x3F)) as u8);
    } else if utf32 <= 0xFFFF {
        assert((0xE0 | (utf32 >> 12)) <= 0xFF && (0x80 | ((utf32 >> 6) & 0x3F)) <= 0xFF && (0x80 | (
        utf32 & 0x3F)) <= 0xFF) by (bit_vector)
            requires
                utf32 <= 0xFFFF,
        ;
        utf8.push((0xE0 | (utf32 >> 12)) as u8);
        utf8.push((0x80 | ((utf32 >> 6) & 0x3F)) as u8);
        utf8.push((0x80 | (utf32 & 0x3F)) as u8);
    } else if utf32 <= 0x10FFFF {
        assert((0xF0 | (utf32 >> 18)) <= 0xFF && (0x80 | ((utf32 >> 12) & 0x3F)) <= 0xFF && (0x80
            | ((utf32 >> 6) & 0x3F)) <= 0xFF && (0x80 | (utf32 & 0x3F)) <= 0xFF) by (bit_vector)
            requires
                utf32 <= 0x10FFFF,
        ;
        utf8.push((0xF0 | (utf32 >> 18)) as u8);
        utf8.push((0x80 | ((utf32 >> 12) & 0x3F)) as u8);
        utf8.push((0x80 | ((utf32 >> 6) & 0x3F)) as u8);
        utf8.push((0x80 | (utf32 & 0x3F)) as u8);
    }
    utf8
}

/// The text that stands for `v`: the one character with that scalar value,
/// and nothing for a value past the last code point.
pub open spec fn scalar_text(v: u32) -> Seq<char> {
    if v <= 0x10FFFF {
        seq![v as char]
    } else {
        seq![]
    }
}

/// The two bytes of a value of 8 to 11 bits: their ranges, what a decoder
/// reads from them, and their masked form.
proof fn lemma_two_bytes(v: u32)
    by (bit_vector)
    requires
        0x80 <= v <= 0x7FF,
    ensures
        ({
            let b0 = (0xC0 | (v >> 6)) as u8;
            let b1 = (0x80 | (v & 0x3F)) as u8;
            &&& 0xC0 <= b0 <= 0xDF
            &&& 0x80 <= b1 <= 0xBF
            &&& (((b0 & 0x1F) as u32) << 6) | ((b1 & 0x3F) as u32) == v
            &&& b0 == 0xC0 | ((v >> 6) & 0x1F) as u8
            &&& b1 == 0x80 | (v & 0x3F) as u8
        }),
{
}

/// The same for the three bytes of a value of 12 to 16 bits.
proof fn lemma_three_bytes(v: u32)
    by (bit_vector)
    requires
        0x800 <= v <= 0xFFFF,
    ensures
        ({
            let b0 = (0xE0 | (v >> 12)) as u8;
            let b1 = (0x80 | ((v >> 6) & 0x3F)) as u8;
            let b2 = (0x80 | (v & 0x3F)) as u8;
            &&& 0xE0 <= b0 <= 0xEF
            &&& 0x80 <= b1 <= 0xBF
            &&& 0x80 <= b2 <= 0xBF
            &&& (((b0 & 0x0F) as u32) << 12) | (((b1 & 0x3F) as u32) << 6) | ((b2 & 0x3F) as u32)
                == v
            &&& b0 == 0xE0 | ((v >> 12) & 0x0F) as u8
            &&& b1 == 0x80 | ((v >> 6) & 0x3F) as u8
            &&& b2 == 0x80 | (v & 0x3F) as u8
        }),
{
}

/// The same for the four bytes of a value of 17 to 21 bits.
proof fn lemma_four_bytes(v: u32)
    by (bit_vector)
    requires
        0x10000 <= v <= 0x10FFFF,
    ensures
        ({
            let b0 = (0xF0 | (v >> 18)) as u8;
            let b1 = (0x80 | ((v >> 12) & 0x3F)) as u8;
            let b2 = (0x80 | ((v >> 6) & 0x3F)) as u8;
            let b3 = (0x80 | (v & 0x3F)) as u8;
            &&& 0xF0 <= b0 <= 0xF7
            &&& 0x80 <= b1 <= 0xBF
            &&& 0x80 <= b2 <= 0xBF
            &&& 0x80 <= b3 <= 0xBF
            &&& (((b0 & 0x07) as u32) << 18) | (((b1 & 0x3F) as u32) << 12) | (((b2 & 0x3F) as u32)
                << 6) | ((b3 & 0x3F) as u32) == v
            &&& b0 == 0xF0 | ((v >> 18) & 0x7) as u8
            &&& b1 == 0x80 | ((v >> 12) & 0x3F) as u8
            &&& b2 == 0x80 | ((v >> 6) & 0x3F) as u8
            &&& b3 == 0x80 | (v & 0x3F) as u8
        }),
{
}

/// A value of up to 7 bits is its own byte.
proof fn lemma_one_byte(v: u32)
    by (bit_vector)
    requires
        v <= 0x7F,
    ensures
        ((v as u8) & 0x7F) as u32 == v,
        v as u8 <= 0x7F,
        v as u8 == (v & 0x7F) as u8,
{
}

/// Every value up to the last code point, surrogates included, gets as many
/// bytes as the UTF-8 length class of its range asks for, the bytes are a
/// well-formed leading byte with its continuation bytes, and a UTF-8 decoder
/// reads the value back from them.
pub proof fn lemma_encoding_decodes(v: u32)
    requires
        v <= LAST_CODE_POINT,
    ensures
        encoded_bytes(v).len() == if v <= 0x7F {
            1nat
        } else if v <= 0x7FF {
            2nat
        } else if v <= 0xFFFF {
            3nat
        } else {
            4nat
        },
        valid_leading_and_continuation_bytes_first_codepoint(encoded_bytes(v)),
        length_of_first_codepoint(encoded_bytes(v)) == encoded_bytes(v).len(),
        decode_first_codepoint(encoded_bytes(v)) == v,
{
    if v <= 0x7F {
        lemma_one_byte(v);
    } else if v <= 0x7FF {
        lemma_two_bytes(v);
    } else if v <= 0xFFFF {
        lemma_three_bytes(v);
    } else {
        lemma_four_bytes(v);
    }
}

/// On scalar values the encoder agrees with the UTF-8 encoding of a `char`.
pub proof fn lemma_encoding_of_char(c: char)
    ensures
        encoded_bytes(c as u32) == encode_utf8(seq![c]),
        valid_utf8(encoded_bytes(c as u32)),
        decode_utf8(encoded_bytes(c as u32)) == seq![c],
{
    let v = c as u32;
    char_is_scalar(c);
    if v <= 0x7F {
        lemma_one_byte(v);
    } else if v <= 0x7FF {
        lemma_two_bytes(v);
    } else if v <= 0xFFFF {
        lemma_three_bytes(v);
    } else {
        lemma_four_bytes(v);
    }
    assert(encoded_bytes(v) =~= encode_scalar(v));
    let one = seq![c];
    assert(one.drop_first() =~= Seq::<char>::empty());
    assert(encode_utf8(one) =~= encode_scalar(v) + encode_utf8(one.drop_first()));
    assert(encode_utf8(Seq::<char>::empty()) =~= Seq::<u8>::empty());
    assert(encode_utf8(one) =~= encode_scalar(v));
    encode_utf8_valid_utf8(one);
    encode_utf8_decode_utf8(one);
}

/// The error of `std::str::from_utf8`, which is only passed on.
#[verifier::external_type_specification]
#[verifier::external_body]
pub struct ExUtf8Error(core::str::Utf8Error);

/// `std::str::from_utf8` succeeds exactly on well-formed UTF-8, and the string
/// slice it returns consists of the very bytes it was given.
pub assume_specification[ core::str::from_utf8 ](v: &[u8]) -> (text: Result<
    &str,
    core::str::Utf8Error,
>)
    ensures
        text is Ok <==> valid_utf8(v@),
        text matches Ok(s) ==> s.spec_bytes() == v@,
;

/// Encodes a scalar value and reads the bytes back as text.
///
/// Surrogates are left out: their bytes are not well-formed UTF-8, so no text
/// stands for them.
pub fn from_utf32(utf32: u32) -> (text: String)
    requires
        !is_surrogate(utf32),
    ensures
        text@ == scalar_text(utf32),
{
    let utf8 = utf32_to_utf8(utf32);
    proof {
        if utf32 <= LAST_CODE_POINT {
            lemma_encoding_of_char(utf32 as char);
        } else {
            assert(valid_utf8(utf8@));
        }
    }
    let slice = core::str::from_utf8(utf8.as_slice()).unwrap();
    proof {
        encode_utf8_decode_utf8(slice@);
        if utf32 > LAST_CODE_POINT {
            assert(decode_utf8(utf8@) =~= Seq::<char>::empty());
        }
    }
    slice.to_owned()
}

} // verus!
