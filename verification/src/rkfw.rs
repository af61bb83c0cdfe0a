//! The outer container: a fixed header, a boot blob and an embedded
//! archive.

use vstd::prelude::*;
use crate::error::DecodeError;
use crate::field::{bytes_are, read_array, read_u16_le, read_u32_le, read_u8, region};
use crate::wire::{bytes_at, decoded, region_fits, u16_le, u32_le};

verus! {

/// The signature that opens a container: the ASCII letters `RKFW`.
pub const RKFW_MAGIC: [u8; 4] = [0x52, 0x4b, 0x46, 0x57];

/// The size of the container header on disk, which every container also
/// declares in its header.
pub const RKFW_HEADER_LEN: u16 = 0x66;

/// When an image was built.
#[derive(Debug, Clone, Copy, PartialEq, Eq, Structural)]
pub struct BuildTime {
    pub year: u16,
    pub month: u8,
    pub day: u8,
    pub hour: u8,
    pub minute: u8,
    pub second: u8,
}

/// The fixed header of a container, 102 bytes on disk.
#[derive(Debug)]
pub struct RkfwHeader {
    pub magic: [u8; 4],
    pub header_len: u16,
    pub version: u32,
    pub merge_version: u32,
    pub build_time: BuildTime,
    pub chip_type: u32,
    pub boot_offset: u32,
    pub boot_size: u32,
    pub firmware_offset: u32,
    pub firmware_size: u32,
    pub reserved: [u8; 61],
}

/// A decoded container. The two blobs are views into the buffer it was
/// decoded from.
#[derive(Debug)]
pub struct Rkfw<'a> {
    pub header: RkfwHeader,
    pub boot_data: &'a [u8],
    pub firmware_data: &'a [u8],
}

/// What a `RkfwHeader` holds.
pub struct RkfwHeaderView {
    pub magic: Seq<u8>,
    pub header_len: u16,
    pub version: u32,
    pub merge_version: u32,
    pub build_time: BuildTime,
    pub chip_type: u32,
    pub boot_offset: u32,
    pub boot_size: u32,
    pub firmware_offset: u32,
    pub firmware_size: u32,
    pub reserved: Seq<u8>,
}

/// What a `Rkfw` holds.
pub struct RkfwView {
    pub header: RkfwHeaderView,
    pub boot_data: Seq<u8>,
    pub firmware_data: Seq<u8>,
}

impl View for RkfwHeader {
    type V = RkfwHeaderView;

    open spec fn view(&self) -> RkfwHeaderView {
        RkfwHeaderView {
            magic: self.magic@,
            header_len: self.header_len,
            version: self.version,
            merge_version: self.merge_version,
            build_time: self.build_time,
            chip_type: self.chip_type,
            boot_offset: self.boot_offset,
            boot_size: self.boot_size,
            firmware_offset: self.firmware_offset,
            firmware_size: self.firmware_size,
            reserved: self.reserved@,
        }
    }
}

impl<'a> View for Rkfw<'a> {
    type V = RkfwView;

    open spec fn view(&self) -> RkfwView {
        RkfwView {
            header: self.header@,
            boot_data: self.boot_data@,
            firmware_data: self.firmware_data@,
        }
    }
}

impl RkfwView {
    /// What holds of every container that was decoded: it opens with the
    /// container signature, declares the fixed header length, and its two
    /// blobs have the sizes that the header gives.
    pub open spec fn well_formed(self) -> bool {
        &&& self.header.magic == RKFW_MAGIC@
        &&& self.header.header_len == RKFW_HEADER_LEN
        &&& self.header.reserved.len() == 61
        &&& self.boot_data.len() == self.header.boot_size
        &&& self.firmware_data.len() == self.header.firmware_size
    }
}

/// The build time held in the seven bytes at `at`.
pub open spec fn build_time_at(buf: Seq<u8>, at: int) -> BuildTime {
    BuildTime {
        year: u16_le(buf, at),
        month: buf[at + 2],
        day: buf[at + 3],
        hour: buf[at + 4],
        minute: buf[at + 5],
        second: buf[at + 6],
    }
}

/// The container header held in the first 102 bytes of `buf`.
pub open spec fn rkfw_header_of(buf: Seq<u8>) -> RkfwHeaderView
    recommends
        buf.len() >= RKFW_HEADER_LEN,
{
    RkfwHeaderView {
        magic: bytes_at(buf, 0, 4),
        header_len: u16_le(buf, 4),
        version: u32_le(buf, 6),
        merge_version: u32_le(buf, 10),
        build_time: build_time_at(buf, 14),
        chip_type: u32_le(buf, 21),
        boot_offset: u32_le(buf, 25),
        boot_size: u32_le(buf, 29),
        firmware_offset: u32_le(buf, 33),
        firmware_size: u32_le(buf, 37),
        reserved: bytes_at(buf, 41, 61),
    }
}

/// What decoding `buf` as a container gives.
///
/// The header is read first, so a buffer too short for it is truncated
/// whatever it holds. Then come the signature, the declared header length
/// and the two regions, in that order; the first check that fails names
/// the error.
pub open spec fn container_of(buf: Seq<u8>) -> Result<RkfwView, DecodeError> {
    let header = rkfw_header_of(buf);
    if buf.len() < RKFW_HEADER_LEN {
        Err(DecodeError::TruncatedInput)
    } else if header.magic != RKFW_MAGIC@ {
        Err(DecodeError::BadMagic)
    } else if header.header_len != RKFW_HEADER_LEN {
        Err(DecodeError::BadHeaderLength)
    } else if !region_fits(buf.len(), header.boot_offset, header.boot_size) {
        Err(DecodeError::OffsetOutOfBounds)
    } else if !region_fits(buf.len(), header.firmware_offset, header.firmware_size) {
        Err(DecodeError::OffsetOutOfBounds)
    } else {
        Ok(
            RkfwView {
                header,
                boot_data: bytes_at(buf, header.boot_offset as int, header.boot_size as int),
                firmware_data: bytes_at(
                    buf,
                    header.firmware_offset as int,
                    header.firmware_size as int,
                ),
            },
        )
    }
}

impl BuildTime {
    /// Reads the seven bytes of a build time at the cursor and moves the
    /// cursor past them.
    pub fn decode(bytes: &[u8], offset: &mut usize) -> (r: Result<BuildTime, DecodeError>)
        ensures
            match r {
                Ok(t) => {
                    &&& *old(offset) + 7 <= bytes@.len()
                    &&& t == build_time_at(bytes@, *old(offset) as int)
                    &&& *final(offset) == *old(offset) + 7
                },
                Err(e) => {
                    &&& e == DecodeError::TruncatedInput
                    &&& *old(offset) + 7 > bytes@.len()
                    &&& *final(offset) == *old(offset)
                },
            },
    {
        let mut at = *offset;
        let year = read_u16_le(bytes, &mut at)?;
        let month = read_u8(bytes, &mut at)?;
        let day = read_u8(bytes, &mut at)?;
        let hour = read_u8(bytes, &mut at)?;
        let minute = read_u8(bytes, &mut at)?;
        let second = read_u8(bytes, &mut at)?;
        *offset = at;
        Ok(BuildTime { year, month, day, hour, minute, second })
    }
}

impl RkfwHeader {
    /// Reads the container header from the start of `bytes`.
    ///
    /// Fails with `TruncatedInput` exactly when `bytes` is shorter than the
    /// 102 bytes of the header. Nothing is judged here: the signature and
    /// the declared length are returned as found.
    pub fn decode(bytes: &[u8]) -> (r: Result<RkfwHeader, DecodeError>)
        ensures
            match r {
                Ok(h) => bytes@.len() >= RKFW_HEADER_LEN && h@ == rkfw_header_of(bytes@),
                Err(e) => e == DecodeError::TruncatedInput && bytes@.len() < RKFW_HEADER_LEN,
            },
    {
        let mut at: usize = 0;
        let magic = read_array::<4>(bytes, &mut at)?;
        let header_len = read_u16_le(bytes, &mut at)?;
        let version = read_u32_le(bytes, &mut at)?;
        let merge_version = read_u32_le(bytes, &mut at)?;
        let build_time = BuildTime::decode(bytes, &mut at)?;
        let chip_type = read_u32_le(bytes, &mut at)?;
        let boot_offset = read_u32_le(bytes, &mut at)?;
        let boot_size = read_u32_le(bytes, &mut at)?;
        let firmware_offset = read_u32_le(bytes, &mut at)?;
        let firmware_size = read_u32_le(bytes, &mut at)?;
        let reserved = read_array::<61>(bytes, &mut at)?;
        Ok(
            RkfwHeader {
                magic,
                header_len,
                version,
                merge_version,
                build_time,
                chip_type,
                boot_offset,
                boot_size,
                firmware_offset,
                firmware_size,
                reserved,
            },
        )
    }
}

/// Decodes a container from the start of `buffer`.
///
/// The result is exactly `container_of(buffer@)`: on success the header
/// and the two views it describes, otherwise the first defect in the order
/// header too short, wrong signature, wrong declared header length, boot
/// region out of bounds, firmware region out of bounds. The embedded
/// archive is not examined.
pub fn decode_container<'a>(buffer: &'a [u8]) -> (r: Result<Rkfw<'a>, DecodeError>)
    ensures
        decoded(r) == container_of(buffer@),
        r matches Ok(container) ==> container@.well_formed(),
{
    let header = RkfwHeader::decode(buffer)?;
    if !bytes_are(header.magic.as_slice(), &RKFW_MAGIC) {
        return Err(DecodeError::BadMagic);
    }
    if header.header_len != RKFW_HEADER_LEN {
        return Err(DecodeError::BadHeaderLength);
    }
    let boot_data = match region(buffer, header.boot_offset, header.boot_size) {
        Some(data) => data,
        None => { return Err(DecodeError::OffsetOutOfBounds); },
    };
    let firmware_data = match region(buffer, header.firmware_offset, header.firmware_size) {
        Some(data) => data,
        None => { return Err(DecodeError::OffsetOutOfBounds); },
    };
    Ok(Rkfw { header, boot_data, firmware_data })
}

/// A buffer that holds a whole header but does not open with `RKFW` is
/// rejected with `BadMagic`, whatever else it holds.
pub proof fn lemma_wrong_magic_rejected(buf: Seq<u8>)
    requires
        buf.len() >= RKFW_HEADER_LEN,
        bytes_at(buf, 0, 4) != RKFW_MAGIC@,
    ensures
        container_of(buf) == Err::<RkfwView, _>(DecodeError::BadMagic),
{
}

/// A container that decodes has both regions inside the buffer, and its
/// two blobs are those regions.
pub proof fn lemma_regions_in_bounds(buf: Seq<u8>)
    ensures
        container_of(buf) matches Ok(container) ==> {
            let header = container.header;
            &&& header == rkfw_header_of(buf)
            &&& header.boot_offset + header.boot_size <= buf.len()
            &&& header.firmware_offset + header.firmware_size <= buf.len()
            &&& container.boot_data == buf.subrange(
                header.boot_offset as int,
                header.boot_offset + header.boot_size,
            )
            &&& container.firmware_data == buf.subrange(
                header.firmware_offset as int,
                header.firmware_offset + header.firmware_size,
            )
        },
{
}

/// A buffer whose header is in order but for a boot or firmware region
/// that ends past the buffer is rejected with `OffsetOutOfBounds`. The
/// sums are those of the integers: one that would not fit in 32 bits is
/// past the buffer like any other.
pub proof fn lemma_region_out_of_bounds_rejected(buf: Seq<u8>)
    requires
        buf.len() >= RKFW_HEADER_LEN,
        rkfw_header_of(buf).magic == RKFW_MAGIC@,
        rkfw_header_of(buf).header_len == RKFW_HEADER_LEN,
        ({
            let header = rkfw_header_of(buf);
            ||| header.boot_offset + header.boot_size > buf.len()
            ||| header.firmware_offset + header.firmware_size > buf.len()
        }),
    ensures
        container_of(buf) == Err::<RkfwView, _>(DecodeError::OffsetOutOfBounds),
{
}

/// Decoding one buffer twice gives results that hold the same.
pub proof fn lemma_container_deterministic(
    buf: Seq<u8>,
    first: Result<Rkfw, DecodeError>,
    second: Result<Rkfw, DecodeError>,
)
    requires
        decoded(first) == container_of(buf),
        decoded(second) == container_of(buf),
    ensures
        decoded(first) == decoded(second),
{
}

} // verus!
