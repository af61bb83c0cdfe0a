//! The meaning of the raw fields of the format, as functions on `Seq<u8>`.

use vstd::prelude::*;
use vstd::utf8::{decode_utf8, valid_utf8};
use crate::error::DecodeError;

verus! {

/// The unsigned 16-bit little-endian integer held in `s[at]` and `s[at + 1]`.
pub open spec fn u16_le(s: Seq<u8>, at: int) -> u16
    recommends
        0 <= at,
        at + 2 <= s.len(),
{
    (s[at] + 0x100 * s[at + 1]) as u16
}

/// The unsigned 32-bit little-endian integer held in `s[at] .. s[at + 3]`.
pub open spec fn u32_le(s: Seq<u8>, at: int) -> u32
    recommends
        0 <= at,
        at + 4 <= s.len(),
{
    (s[at] + 0x100 * s[at + 1] + 0x1_0000 * s[at + 2] + 0x100_0000 * s[at + 3]) as u32
}

/// The two's-complement 32-bit little-endian integer held in
/// `s[at] .. s[at + 3]`.
pub open spec fn i32_le(s: Seq<u8>, at: int) -> i32
    recommends
        0 <= at,
        at + 4 <= s.len(),
{
    let u = u32_le(s, at);
    if u < 0x8000_0000 {
        u as i32
    } else {
        (u - 0x1_0000_0000) as i32
    }
}

/// The four bytes that hold `value` as a little-endian integer.
pub open spec fn u32_le_bytes(value: u32) -> Seq<u8> {
    seq![
        (value % 0x100) as u8,
        (value / 0x100 % 0x100) as u8,
        (value / 0x1_0000 % 0x100) as u8,
        (value / 0x100_0000) as u8,
    ]
}

/// The `width` bytes of `s` that start at `at`.
pub open spec fn bytes_at(s: Seq<u8>, at: int, width: int) -> Seq<u8>
    recommends
        0 <= at,
        0 <= width,
        at + width <= s.len(),
{
    s.subrange(at, at + width)
}

/// How many bytes of `s` come before its first NUL; all of them if it
/// holds none.
pub open spec fn text_len(s: Seq<u8>) -> nat
    decreases s.len(),
{
    if s.len() == 0 || s[0] == 0 {
        0
    } else {
        1 + text_len(s.drop_first())
    }
}

/// The bytes of a NUL-delimited text field: `field` up to, and without,
/// its first NUL.
pub open spec fn text_bytes(field: Seq<u8>) -> Seq<u8> {
    field.subrange(0, text_len(field) as int)
}

/// A text field of `width` bytes written out: `text`, then NULs up to the
/// width.
pub open spec fn text_field(text: Seq<u8>, width: nat) -> Seq<u8>
    recommends
        text.len() <= width,
{
    text + Seq::new((width - text.len()) as nat, |i: int| 0u8)
}

/// The text field of `width` bytes at `at`: its characters, or why it
/// does not decode.
pub open spec fn text_at(s: Seq<u8>, at: int, width: int) -> Result<Seq<char>, DecodeError>
    recommends
        0 <= at,
        0 <= width,
{
    if at + width > s.len() {
        Err(DecodeError::TruncatedInput)
    } else if !valid_utf8(text_bytes(bytes_at(s, at, width))) {
        Err(DecodeError::InvalidText)
    } else {
        Ok(decode_utf8(text_bytes(bytes_at(s, at, width))))
    }
}

/// Whether `size` bytes starting at `offset` lie inside a buffer of `len`
/// bytes. The sum is taken over the integers, so it cannot wrap.
pub open spec fn region_fits(len: nat, offset: u32, size: u32) -> bool {
    offset + size <= len
}

/// A decoder's result with the decoded value replaced by what it holds.
pub open spec fn decoded<T: View>(r: Result<T, DecodeError>) -> Result<T::V, DecodeError> {
    match r {
        Ok(value) => Ok(value@),
        Err(e) => Err(e),
    }
}

/// Reading the four bytes that hold a value gives the value back.
pub proof fn lemma_u32_le_of_bytes(value: u32)
    ensures
        u32_le_bytes(value).len() == 4,
        u32_le(u32_le_bytes(value), 0) == value,
{
}

/// `text_len` finds the first NUL: it never exceeds the field, no byte
/// before it is NUL, and where it stops short of the end the byte there is
/// NUL.
pub proof fn lemma_text_len_first_nul(s: Seq<u8>)
    ensures
        text_len(s) <= s.len(),
        forall|i: int| 0 <= i < text_len(s) ==> s[i] != 0,
        text_len(s) < s.len() ==> s[text_len(s) as int] == 0,
    decreases s.len(),
{
    if s.len() != 0 && s[0] != 0 {
        let rest = s.drop_first();
        lemma_text_len_first_nul(rest);
        assert forall|i: int| 0 <= i < text_len(s) implies s[i] != 0 by {
            if i > 0 {
                assert(s[i] == rest[i - 1]);
            }
        }
        if text_len(s) < s.len() {
            assert(s[text_len(s) as int] == rest[text_len(rest) as int]);
        }
    }
}

/// Text without a NUL, followed by nothing or by something that opens
/// with a NUL, ends where the text ends.
proof fn lemma_text_len_before_nul(text: Seq<u8>, rest: Seq<u8>)
    requires
        forall|i: int| 0 <= i < text.len() ==> text[i] != 0,
        rest.len() == 0 || rest[0] == 0,
    ensures
        text_len(text + rest) == text.len(),
    decreases text.len(),
{
    if text.len() == 0 {
        assert(text + rest =~= rest);
    } else {
        assert((text + rest).drop_first() =~= text.drop_first() + rest);
        lemma_text_len_before_nul(text.drop_first(), rest);
    }
}

/// Text without a NUL that is written out as a field is read back as it
/// was, whether or not it fills the field.
pub proof fn lemma_text_field_recovered(text: Seq<u8>, width: nat)
    requires
        text.len() <= width,
        forall|i: int| 0 <= i < text.len() ==> text[i] != 0,
    ensures
        text_field(text, width).len() == width,
        text_bytes(text_field(text, width)) == text,
{
    let padding = Seq::new((width - text.len()) as nat, |i: int| 0u8);
    lemma_text_len_before_nul(text, padding);
    assert(text_bytes(text_field(text, width)) =~= text);
}

} // verus!
