//! Reads of fixed-width fields: integers, byte arrays and NUL-delimited
//! text.
//!
//! The integer and array reads take a cursor and move it past the field;
//! on failure the cursor stays where it was. These functions only fetch
//! bytes in bounds; what a value means is decided by their callers.

use vstd::prelude::*;
use vstd::slice::slice_subrange;
use vstd::string::StringSliceAdditionalSpecFns;
use vstd::utf8::valid_utf8;
use scroll::Pread;
use crate::error::DecodeError;
use crate::wire::{bytes_at, decoded, i32_le, region_fits, text_at, text_bytes, u16_le, u32_le};

verus! {

/// `scroll::Error`, the error of every read that `scroll` refuses. It is
/// carried out of the reads below and never looked into.
#[verifier::external_type_specification]
#[verifier::external_body]
pub struct ExScrollError(scroll::Error);

/// `scroll::Pread::gread_with::<u8>` on a byte slice.
///
/// Succeeds exactly when a byte remains at the cursor; the value is that
/// byte and the cursor moves past it. On failure the cursor stays.
#[verifier::external_body]
fn gread_u8(bytes: &[u8], offset: &mut usize) -> (r: Result<u8, scroll::Error>)
    ensures
        match r {
            Ok(v) => {
                &&& *old(offset) + 1 <= bytes@.len()
                &&& v == bytes@[*old(offset) as int]
                &&& *final(offset) == *old(offset) + 1
            },
            Err(_) => *old(offset) + 1 > bytes@.len() && *final(offset) == *old(offset),
        },
{
    bytes.gread_with::<u8>(offset, scroll::LE)
}

/// `scroll::Pread::gread_with::<u16>` on a byte slice, little-endian.
///
/// Succeeds exactly when two bytes remain at the cursor; the value is
/// their little-endian reading and the cursor moves past them. On failure
/// the cursor stays.
#[verifier::external_body]
fn gread_u16_le(bytes: &[u8], offset: &mut usize) -> (r: Result<u16, scroll::Error>)
    ensures
        match r {
            Ok(v) => {
                &&& *old(offset) + 2 <= bytes@.len()
                &&& v == u16_le(bytes@, *old(offset) as int)
                &&& *final(offset) == *old(offset) + 2
            },
            Err(_) => *old(offset) + 2 > bytes@.len() && *final(offset) == *old(offset),
        },
{
    bytes.gread_with::<u16>(offset, scroll::LE)
}

/// `scroll::Pread::gread_with::<u32>` on a byte slice, little-endian.
///
/// Succeeds exactly when four bytes remain at the cursor; the value is
/// their little-endian reading and the cursor moves past them. On failure
/// the cursor stays.
#[verifier::external_body]
fn gread_u32_le(bytes: &[u8], offset: &mut usize) -> (r: Result<u32, scroll::Error>)
    ensures
        match r {
            Ok(v) => {
                &&& *old(offset) + 4 <= bytes@.len()
                &&& v == u32_le(bytes@, *old(offset) as int)
                &&& *final(offset) == *old(offset) + 4
            },
            Err(_) => *old(offset) + 4 > bytes@.len() && *final(offset) == *old(offset),
        },
{
    bytes.gread_with::<u32>(offset, scroll::LE)
}

/// `scroll::Pread::gread_with::<i32>` on a byte slice, little-endian.
///
/// Succeeds exactly when four bytes remain at the cursor; the value is
/// their little-endian two's-complement reading and the cursor moves past
/// them. On failure the cursor stays.
#[verifier::external_body]
fn gread_i32_le(bytes: &[u8], offset: &mut usize) -> (r: Result<i32, scroll::Error>)
    ensures
        match r {
            Ok(v) => {
                &&& *old(offset) + 4 <= bytes@.len()
                &&& v == i32_le(bytes@, *old(offset) as int)
                &&& *final(offset) == *old(offset) + 4
            },
            Err(_) => *old(offset) + 4 > bytes@.len() && *final(offset) == *old(offset),
        },
{
    bytes.gread_with::<i32>(offset, scroll::LE)
}

/// `scroll::Pread::gread_with::<[u8; N]>` on a byte slice.
///
/// Succeeds exactly when `N` bytes remain at the cursor; the array holds
/// those bytes in order and the cursor moves past them. On failure the
/// cursor stays.
#[verifier::external_body]
fn gread_array<const N: usize>(bytes: &[u8], offset: &mut usize) -> (r: Result<
    [u8; N],
    scroll::Error,
>)
    ensures
        match r {
            Ok(a) => {
                &&& *old(offset) + N <= bytes@.len()
                &&& a@ == bytes_at(bytes@, *old(offset) as int, N as int)
                &&& *final(offset) == *old(offset) + N
            },
            Err(_) => *old(offset) + N > bytes@.len() && *final(offset) == *old(offset),
        },
{
    bytes.gread_with::<[u8; N]>(offset, scroll::LE)
}

/// `scroll::Pread::pread_with::<&str>` on a byte slice, with the context
/// `StrCtx::DelimiterUntil(0, width)`.
///
/// Succeeds exactly when `width` bytes lie at `offset` and those before
/// the first NUL among them (all of them without one) are valid UTF-8; the
/// string is then made of exactly those bytes.
#[verifier::external_body]
fn pread_text<'a>(bytes: &'a [u8], offset: usize, width: usize) -> (r: Result<
    &'a str,
    scroll::Error,
>)
    ensures
        match r {
            Ok(s) => {
                &&& offset + width <= bytes@.len()
                &&& s.spec_bytes() == text_bytes(bytes_at(bytes@, offset as int, width as int))
            },
            Err(_) => {
                ||| offset + width > bytes@.len()
                ||| !valid_utf8(text_bytes(bytes_at(bytes@, offset as int, width as int)))
            },
        },
{
    bytes.pread_with::<&str>(offset, scroll::ctx::StrCtx::DelimiterUntil(0, width))
}

/// Reads one byte at the cursor and moves the cursor past it.
///
/// Fails with `TruncatedInput`, leaving the cursor, exactly when no byte
/// remains.
pub fn read_u8(bytes: &[u8], offset: &mut usize) -> (r: Result<u8, DecodeError>)
    ensures
        match r {
            Ok(v) => {
                &&& *old(offset) + 1 <= bytes@.len()
                &&& v == bytes@[*old(offset) as int]
                &&& *final(offset) == *old(offset) + 1
            },
            Err(e) => {
                &&& e == DecodeError::TruncatedInput
                &&& *old(offset) + 1 > bytes@.len()
                &&& *final(offset) == *old(offset)
            },
        },
{
    match gread_u8(bytes, offset) {
        Ok(v) => Ok(v),
        Err(_) => Err(DecodeError::TruncatedInput),
    }
}

/// Reads an unsigned 16-bit little-endian integer at the cursor and moves
/// the cursor past it.
///
/// Fails with `TruncatedInput`, leaving the cursor, exactly when fewer
/// than two bytes remain.
pub fn read_u16_le(bytes: &[u8], offset: &mut usize) -> (r: Result<u16, DecodeError>)
    ensures
        match r {
            Ok(v) => {
                &&& *old(offset) + 2 <= bytes@.len()
                &&& v == u16_le(bytes@, *old(offset) as int)
                &&& *final(offset) == *old(offset) + 2
            },
            Err(e) => {
                &&& e == DecodeError::TruncatedInput
                &&& *old(offset) + 2 > bytes@.len()
                &&& *final(offset) == *old(offset)
            },
        },
{
    match gread_u16_le(bytes, offset) {
        Ok(v) => Ok(v),
        Err(_) => Err(DecodeError::TruncatedInput),
    }
}

/// Reads an unsigned 32-bit little-endian integer at the cursor and moves
/// the cursor past it.
///
/// Fails with `TruncatedInput`, leaving the cursor, exactly when fewer
/// than four bytes remain.
pub fn read_u32_le(bytes: &[u8], offset: &mut usize) -> (r: Result<u32, DecodeError>)
    ensures
        match r {
            Ok(v) => {
                &&& *old(offset) + 4 <= bytes@.len()
                &&& v == u32_le(bytes@, *old(offset) as int)
                &&& *final(offset) == *old(offset) + 4
            },
            Err(e) => {
                &&& e == DecodeError::TruncatedInput
                &&& *old(offset) + 4 > bytes@.len()
                &&& *final(offset) == *old(offset)
            },
        },
{
    match gread_u32_le(bytes, offset) {
        Ok(v) => Ok(v),
        Err(_) => Err(DecodeError::TruncatedInput),
    }
}

/// Reads a signed 32-bit little-endian integer at the cursor and moves the
/// cursor past it.
///
/// Fails with `TruncatedInput`, leaving the cursor, exactly when fewer
/// than four bytes remain.
pub fn read_i32_le(bytes: &[u8], offset: &mut usize) -> (r: Result<i32, DecodeError>)
    ensures
        match r {
            Ok(v) => {
                &&& *old(offset) + 4 <= bytes@.len()
                &&& v == i32_le(bytes@, *old(offset) as int)
                &&& *final(offset) == *old(offset) + 4
            },
            Err(e) => {
                &&& e == DecodeError::TruncatedInput
                &&& *old(offset) + 4 > bytes@.len()
                &&& *final(offset) == *old(offset)
            },
        },
{
    match gread_i32_le(bytes, offset) {
        Ok(v) => Ok(v),
        Err(_) => Err(DecodeError::TruncatedInput),
    }
}

/// Reads `N` bytes at the cursor into an array and moves the cursor past
/// them.
///
/// Fails with `TruncatedInput`, leaving the cursor, exactly when fewer
/// than `N` bytes remain.
pub fn read_array<const N: usize>(bytes: &[u8], offset: &mut usize) -> (r: Result<
    [u8; N],
    DecodeError,
>)
    ensures
        match r {
            Ok(a) => {
                &&& *old(offset) + N <= bytes@.len()
                &&& a@ == bytes_at(bytes@, *old(offset) as int, N as int)
                &&& *final(offset) == *old(offset) + N
            },
            Err(e) => {
                &&& e == DecodeError::TruncatedInput
                &&& *old(offset) + N > bytes@.len()
                &&& *final(offset) == *old(offset)
            },
        },
{
    match gread_array::<N>(bytes, offset) {
        Ok(a) => Ok(a),
        Err(_) => Err(DecodeError::TruncatedInput),
    }
}

/// Reads the NUL-delimited text field of `width` bytes at the cursor and
/// moves the cursor past the field.
///
/// The text runs up to the first NUL of the field, or over the whole field
/// if it holds none, and borrows from `bytes`. Fails with `TruncatedInput`
/// when fewer than `width` bytes remain, and with `InvalidText` when the
/// text is not valid UTF-8; the cursor then stays where it was.
pub fn read_text<'a>(bytes: &'a [u8], offset: &mut usize, width: usize) -> (r: Result<
    &'a str,
    DecodeError,
>)
    ensures
        decoded(r) == text_at(bytes@, *old(offset) as int, width as int),
        r is Ok ==> *final(offset) == *old(offset) + width,
        r is Err ==> *final(offset) == *old(offset),
{
    let start = *offset;
    match pread_text(bytes, start, width) {
        Ok(text) => {
            proof {
                vstd::utf8::encode_utf8_valid_utf8(text@);
                vstd::utf8::encode_utf8_decode_utf8(text@);
                vstd::slice::axiom_spec_len(bytes);
            }
            *offset = start + width;
            Ok(text)
        },
        Err(_) => {
            if start > bytes.len() || width > bytes.len() - start {
                Err(DecodeError::TruncatedInput)
            } else {
                Err(DecodeError::InvalidText)
            }
        },
    }
}

/// The view of `size` bytes of `bytes` that start at `offset`, or `None`
/// when that region does not lie inside `bytes`.
///
/// Nothing is copied, and the bound is tested without adding the two
/// fields, so a sum that would wrap is out of bounds like any other.
pub fn region<'a>(bytes: &'a [u8], offset: u32, size: u32) -> (r: Option<&'a [u8]>)
    ensures
        match r {
            Some(data) => {
                &&& region_fits(bytes@.len(), offset, size)
                &&& data@ == bytes_at(bytes@, offset as int, size as int)
            },
            None => !region_fits(bytes@.len(), offset, size),
        },
{
    let start = offset as usize;
    let len = size as usize;
    if start > bytes.len() || len > bytes.len() - start {
        None
    } else {
        Some(slice_subrange(bytes, start, start + len))
    }
}

/// Whether a byte slice holds exactly the bytes of `expected`.
pub fn bytes_are<const N: usize>(bytes: &[u8], expected: &[u8; N]) -> (same: bool)
    ensures
        same == (bytes@ == expected@),
{
    if bytes.len() != N {
        return false;
    }
    let mut i: usize = 0;
    while i < N
        invariant
            i <= N,
            bytes@.len() == N,
            forall|j: int| 0 <= j < i ==> bytes@[j] == expected@[j],
        decreases N - i,
    {
        if bytes[i] != expected[i] {
            return false;
        }
        i += 1;
    }
    assert(bytes@ =~= expected@);
    true
}

} // verus!
