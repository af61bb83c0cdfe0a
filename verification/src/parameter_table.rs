//! The parameter table: the text blob held by the partition named
//! `parameter`.

use vstd::prelude::*;
use vstd::string::StringSliceAdditionalSpecFns;
use crate::error::DecodeError;
use crate::field::{bytes_are, read_array, read_u32_le, region};
use crate::rkaf::Partition;
use crate::wire::{bytes_at, decoded, lemma_u32_le_of_bytes, u32_le, u32_le_bytes};

verus! {

/// The signature that opens a parameter table: the ASCII letters `PARM`.
pub const PARM_MAGIC: [u8; 4] = [0x50, 0x41, 0x52, 0x4d];

/// The name of the partition that holds the parameter table, `parameter`,
/// as bytes.
pub const PARAMETER_NAME: [u8; 9] = [0x70, 0x61, 0x72, 0x61, 0x6d, 0x65, 0x74, 0x65, 0x72];

/// A decoded parameter table. `data` views the payload inside the buffer
/// it was decoded from.
#[derive(Debug)]
pub struct ParameterTable<'a> {
    /// The payload's length as the table declares it.
    pub size: u32,
    /// The payload: `size` bytes of text.
    pub data: &'a [u8],
    /// The four bytes that follow the payload, as found. They are not
    /// compared with anything.
    pub checksum: u32,
}

/// What a `ParameterTable` holds.
pub struct ParameterTableView {
    pub size: u32,
    pub data: Seq<u8>,
    pub checksum: u32,
}

impl<'a> View for ParameterTable<'a> {
    type V = ParameterTableView;

    open spec fn view(&self) -> ParameterTableView {
        ParameterTableView { size: self.size, data: self.data@, checksum: self.checksum }
    }
}

impl ParameterTableView {
    /// What holds of every table that was decoded: the payload has the
    /// declared size.
    pub open spec fn well_formed(self) -> bool {
        self.data.len() == self.size
    }
}

/// What decoding `buf` as a parameter table gives.
///
/// The fields are read in their order on disk: the signature, which must
/// be `PARM`; the declared size, which must not exceed what follows it;
/// the payload of that size; and the checksum field, which must be there
/// and may hold anything.
pub open spec fn parameter_table_of(buf: Seq<u8>) -> Result<ParameterTableView, DecodeError> {
    let size = u32_le(buf, 4);
    if buf.len() < 4 {
        Err(DecodeError::TruncatedInput)
    } else if bytes_at(buf, 0, 4) != PARM_MAGIC@ {
        Err(DecodeError::BadMagic)
    } else if buf.len() < 8 {
        Err(DecodeError::TruncatedInput)
    } else if 8 + size > buf.len() {
        Err(DecodeError::DeclaredSizeExceedsBuffer)
    } else if 8 + size + 4 > buf.len() {
        Err(DecodeError::TruncatedInput)
    } else {
        Ok(
            ParameterTableView {
                size,
                data: bytes_at(buf, 8, size as int),
                checksum: u32_le(buf, 8 + size),
            },
        )
    }
}

/// Whether a partition name marks the partition that holds the parameter
/// table.
pub open spec fn is_parameter_name(name: Seq<char>) -> bool {
    name == "parameter"@
}

/// Decodes a parameter table from the start of `data`.
///
/// The result is exactly `parameter_table_of(data@)`: on success the
/// declared size, a view of that many payload bytes and the checksum field
/// as found; otherwise the first defect in the order signature missing,
/// wrong signature, size missing, size beyond the remaining bytes,
/// checksum field missing. The checksum is read and never verified.
pub fn decode_parameter_table<'a>(data: &'a [u8]) -> (r: Result<
    ParameterTable<'a>,
    DecodeError,
>)
    ensures
        decoded(r) == parameter_table_of(data@),
        r matches Ok(table) ==> table@.well_formed(),
{
    let mut at: usize = 0;
    let magic = read_array::<4>(data, &mut at)?;
    if !bytes_are(magic.as_slice(), &PARM_MAGIC) {
        return Err(DecodeError::BadMagic);
    }
    let size = read_u32_le(data, &mut at)?;
    let payload = match region(data, 8, size) {
        Some(payload) => payload,
        None => { return Err(DecodeError::DeclaredSizeExceedsBuffer); },
    };
    proof {
        vstd::slice::axiom_spec_len(data);
    }
    at = at + size as usize;
    let checksum = read_u32_le(data, &mut at)?;
    Ok(ParameterTable { size, data: payload, checksum })
}

/// Whether `name` is `parameter`.
pub fn names_parameter_partition(name: &str) -> (yes: bool)
    ensures
        yes == is_parameter_name(name@),
{
    let yes = bytes_are(name.as_bytes(), &PARAMETER_NAME);
    proof {
        let expected = "parameter"@;
        reveal_strlit("parameter");
        vstd::utf8::is_ascii_chars_encode_utf8(expected);
        assert(vstd::utf8::encode_utf8(expected) =~= PARAMETER_NAME@);
        vstd::utf8::encode_utf8_decode_utf8(expected);
        vstd::utf8::encode_utf8_decode_utf8(name@);
    }
    yes
}

impl<'a> Partition<'a> {
    /// The parameter table of this partition, if it is the one named
    /// `parameter`.
    ///
    /// `None` for a partition of any other name, whatever it holds;
    /// otherwise the result of decoding the partition's data.
    pub fn parameter_table(&self) -> (r: Option<Result<ParameterTable<'a>, DecodeError>>)
        ensures
            r is Some <==> is_parameter_name(self.name@),
            r matches Some(table) ==> decoded(table) == parameter_table_of(self.data@),
    {
        if names_parameter_partition(self.name) {
            Some(decode_parameter_table(self.data))
        } else {
            None
        }
    }
}

/// A table laid out as signature, size, payload and checksum field decodes
/// to exactly that payload, whatever the checksum field holds.
pub proof fn lemma_payload_recovered(payload: Seq<u8>, checksum: Seq<u8>)
    requires
        payload.len() <= u32::MAX,
        checksum.len() == 4,
    ensures
        parameter_table_of(
            PARM_MAGIC@ + u32_le_bytes(payload.len() as u32) + payload + checksum,
        ) == Ok::<_, DecodeError>(
            ParameterTableView {
                size: payload.len() as u32,
                data: payload,
                checksum: u32_le(checksum, 0),
            },
        ),
{
    let size = payload.len() as u32;
    let buf = PARM_MAGIC@ + u32_le_bytes(size) + payload + checksum;
    lemma_u32_le_of_bytes(size);
    assert(bytes_at(buf, 0, 4) =~= PARM_MAGIC@);
    assert(bytes_at(buf, 4, 4) =~= u32_le_bytes(size));
    assert(u32_le(buf, 4) == u32_le(u32_le_bytes(size), 0));
    assert(bytes_at(buf, 8, size as int) =~= payload);
    assert(bytes_at(buf, 8 + size, 4) =~= checksum);
    assert(u32_le(buf, 8 + size) == u32_le(checksum, 0));
}

/// Decoding one buffer twice gives results that hold the same.
pub proof fn lemma_parameter_table_deterministic(
    buf: Seq<u8>,
    first: Result<ParameterTable, DecodeError>,
    second: Result<ParameterTable, DecodeError>,
)
    requires
        decoded(first) == parameter_table_of(buf),
        decoded(second) == parameter_table_of(buf),
    ensures
        decoded(first) == decoded(second),
{
}

} // verus!
