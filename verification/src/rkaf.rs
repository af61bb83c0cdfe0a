//! The archive: a fixed header followed by a table of partition entries,
//! each naming a region of the archive buffer.

use vstd::prelude::*;
use vstd::utf8::{decode_utf8, valid_utf8};
use crate::error::DecodeError;
use crate::field::{bytes_are, read_array, read_i32_le, read_text, read_u32_le, region};
use crate::wire::{
    bytes_at, decoded, i32_le, lemma_text_field_recovered, lemma_u32_le_of_bytes, region_fits,
    text_at, text_field, u32_le, u32_le_bytes,
};

verus! {

/// The signature that opens an archive: the ASCII letters `RKAF`.
pub const RKAF_MAGIC: [u8; 4] = [0x52, 0x4b, 0x41, 0x46];

/// The size of the archive header on disk.
pub const RKAF_HEADER_SIZE: usize = 140;

/// The size of one partition entry on disk.
pub const PARTITION_ENTRY_SIZE: usize = 112;

/// The flash offset of an entry that is listed for information only and
/// is not written to the device.
pub const NOT_FLASHED: u32 = 0xffff_ffff;

/// The fixed header of an archive, 140 bytes on disk.
#[derive(Debug)]
pub struct RkafHeader {
    pub magic: [u8; 4],
    pub size: u32,
    pub model: [u8; 64],
    pub manufacturer: [u8; 60],
    pub version: u32,
    pub num_partition: i32,
}

/// One entry of the partition table as it stands on disk, 112 bytes: it
/// says where in the archive the partition's data lies, not yet checked
/// against any buffer.
#[derive(Debug)]
pub struct PartitionHeader<'a> {
    pub name: &'a str,
    pub path: &'a str,
    pub file_offset: u32,
    pub flash_offset: u32,
    pub use_space: u32,
    pub file_size: u32,
}

/// A partition whose data region has been checked and sliced out of the
/// archive buffer.
#[derive(Debug)]
pub struct Partition<'a> {
    pub name: &'a str,
    pub path: &'a str,
    pub flash_offset: u32,
    pub use_space: u32,
    pub data: &'a [u8],
}

/// A decoded archive. The partitions stand in the order of their entries
/// on disk, which is the order in which they are flashed.
#[derive(Debug)]
pub struct Rkaf<'a> {
    pub header: RkafHeader,
    pub partitions: Vec<Partition<'a>>,
}

/// What a `RkafHeader` holds.
pub struct RkafHeaderView {
    pub magic: Seq<u8>,
    pub size: u32,
    pub model: Seq<u8>,
    pub manufacturer: Seq<u8>,
    pub version: u32,
    pub num_partition: i32,
}

/// What a `PartitionHeader` holds.
pub struct PartitionHeaderView {
    pub name: Seq<char>,
    pub path: Seq<char>,
    pub file_offset: u32,
    pub flash_offset: u32,
    pub use_space: u32,
    pub file_size: u32,
}

/// What a `Partition` holds.
pub struct PartitionView {
    pub name: Seq<char>,
    pub path: Seq<char>,
    pub flash_offset: u32,
    pub use_space: u32,
    pub data: Seq<u8>,
}

/// What a `Rkaf` holds.
pub struct RkafView {
    pub header: RkafHeaderView,
    pub partitions: Seq<PartitionView>,
}

impl View for RkafHeader {
    type V = RkafHeaderView;

    open spec fn view(&self) -> RkafHeaderView {
        RkafHeaderView {
            magic: self.magic@,
            size: self.size,
            model: self.model@,
            manufacturer: self.manufacturer@,
            version: self.version,
            num_partition: self.num_partition,
        }
    }
}

impl<'a> View for PartitionHeader<'a> {
    type V = PartitionHeaderView;

    open spec fn view(&self) -> PartitionHeaderView {
        PartitionHeaderView {
            name: self.name@,
            path: self.path@,
            file_offset: self.file_offset,
            flash_offset: self.flash_offset,
            use_space: self.use_space,
            file_size: self.file_size,
        }
    }
}

impl<'a> View for Partition<'a> {
    type V = PartitionView;

    open spec fn view(&self) -> PartitionView {
        PartitionView {
            name: self.name@,
            path: self.path@,
            flash_offset: self.flash_offset,
            use_space: self.use_space,
            data: self.data@,
        }
    }
}

impl<'a> View for Rkaf<'a> {
    type V = RkafView;

    open spec fn view(&self) -> RkafView {
        RkafView { header: self.header@, partitions: partition_views(self.partitions@) }
    }
}

impl RkafView {
    /// What holds of every archive that was decoded: it opens with the
    /// archive signature, its partition count is not negative, and it lists
    /// exactly that many partitions.
    pub open spec fn well_formed(self) -> bool {
        &&& self.header.magic == RKAF_MAGIC@
        &&& self.header.model.len() == 64
        &&& self.header.manufacturer.len() == 60
        &&& self.header.num_partition >= 0
        &&& self.partitions.len() == self.header.num_partition
    }
}

impl PartitionView {
    /// Whether the partition is written to the device.
    pub open spec fn is_flashed(self) -> bool {
        self.flash_offset != NOT_FLASHED
    }
}

/// What each partition of a list holds, in the same order.
pub open spec fn partition_views(partitions: Seq<Partition>) -> Seq<PartitionView> {
    Seq::new(partitions.len(), |i: int| partitions[i]@)
}

/// The archive header held in the first 140 bytes of `buf`.
pub open spec fn rkaf_header_of(buf: Seq<u8>) -> RkafHeaderView
    recommends
        buf.len() >= RKAF_HEADER_SIZE,
{
    RkafHeaderView {
        magic: bytes_at(buf, 0, 4),
        size: u32_le(buf, 4),
        model: bytes_at(buf, 8, 64),
        manufacturer: bytes_at(buf, 72, 60),
        version: u32_le(buf, 132),
        num_partition: i32_le(buf, 136),
    }
}

/// What reading a partition entry at `at` gives.
///
/// The fields are read in their order on disk, each failing where it does
/// not fit or does not decode: the name, the path, then the four integers.
pub open spec fn partition_header_at(buf: Seq<u8>, at: int) -> Result<
    PartitionHeaderView,
    DecodeError,
> {
    match text_at(buf, at, 32) {
        Err(e) => Err(e),
        Ok(name) => match text_at(buf, at + 32, 64) {
            Err(e) => Err(e),
            Ok(path) => if at + PARTITION_ENTRY_SIZE > buf.len() {
                Err(DecodeError::TruncatedInput)
            } else {
                Ok(
                    PartitionHeaderView {
                        name,
                        path,
                        file_offset: u32_le(buf, at + 96),
                        flash_offset: u32_le(buf, at + 100),
                        use_space: u32_le(buf, at + 104),
                        file_size: u32_le(buf, at + 108),
                    },
                )
            },
        },
    }
}

/// What resolving an entry against the archive buffer gives: the
/// partition with its data, or `PartitionOutOfBounds` when the data
/// region does not lie inside the archive.
pub open spec fn resolved(archive: Seq<u8>, header: PartitionHeaderView) -> Result<
    PartitionView,
    DecodeError,
> {
    if !region_fits(archive.len(), header.file_offset, header.file_size) {
        Err(DecodeError::PartitionOutOfBounds)
    } else {
        Ok(
            PartitionView {
                name: header.name,
                path: header.path,
                flash_offset: header.flash_offset,
                use_space: header.use_space,
                data: bytes_at(archive, header.file_offset as int, header.file_size as int),
            },
        )
    }
}

/// Where the entry with the given index starts in an archive.
pub open spec fn entry_offset(index: int) -> int {
    RKAF_HEADER_SIZE + PARTITION_ENTRY_SIZE * index
}

/// What reading and resolving the entry with the given index gives.
pub open spec fn partition_at(buf: Seq<u8>, index: int) -> Result<PartitionView, DecodeError> {
    match partition_header_at(buf, entry_offset(index)) {
        Err(e) => Err(e),
        Ok(header) => resolved(buf, header),
    }
}

/// What decoding the first `count` entries gives: all of them in order,
/// or the error of the first one that fails.
pub open spec fn partitions_of(buf: Seq<u8>, count: nat) -> Result<
    Seq<PartitionView>,
    DecodeError,
>
    decreases count,
{
    if count == 0 {
        Ok(Seq::empty())
    } else {
        match partitions_of(buf, (count - 1) as nat) {
            Err(e) => Err(e),
            Ok(earlier) => match partition_at(buf, count - 1) {
                Err(e) => Err(e),
                Ok(partition) => Ok(earlier.push(partition)),
            },
        }
    }
}

/// What reading and checking the archive header of `buf` gives.
///
/// The header is read first, so a buffer too short for it is truncated
/// whatever it holds. Then the signature, the declared size and the sign
/// of the partition count are checked in that order.
pub open spec fn checked_header_of(buf: Seq<u8>) -> Result<RkafHeaderView, DecodeError> {
    let header = rkaf_header_of(buf);
    if buf.len() < RKAF_HEADER_SIZE {
        Err(DecodeError::TruncatedInput)
    } else if header.magic != RKAF_MAGIC@ {
        Err(DecodeError::BadMagic)
    } else if header.size > buf.len() {
        Err(DecodeError::DeclaredSizeExceedsBuffer)
    } else if header.num_partition < 0 {
        Err(DecodeError::NegativePartitionCount)
    } else {
        Ok(header)
    }
}

/// What decoding `buf` as an archive gives.
///
/// The header is read and checked, then as many entries as it counts are
/// decoded one after another. The first failure names the error; no
/// partition is returned unless all are.
pub open spec fn archive_of(buf: Seq<u8>) -> Result<RkafView, DecodeError> {
    match checked_header_of(buf) {
        Err(e) => Err(e),
        Ok(header) => match partitions_of(buf, header.num_partition as nat) {
            Err(e) => Err(e),
            Ok(partitions) => Ok(RkafView { header, partitions }),
        },
    }
}

impl RkafHeader {
    /// Reads the archive header from the start of `bytes`.
    ///
    /// Fails with `TruncatedInput` exactly when `bytes` is shorter than the
    /// 140 bytes of the header. Nothing is judged here: the signature, the
    /// declared size and the partition count are returned as found.
    pub fn decode(bytes: &[u8]) -> (r: Result<RkafHeader, DecodeError>)
        ensures
            match r {
                Ok(h) => bytes@.len() >= RKAF_HEADER_SIZE && h@ == rkaf_header_of(bytes@),
                Err(e) => e == DecodeError::TruncatedInput && bytes@.len() < RKAF_HEADER_SIZE,
            },
    {
        let mut at: usize = 0;
        let magic = read_array::<4>(bytes, &mut at)?;
        let size = read_u32_le(bytes, &mut at)?;
        let model = read_array::<64>(bytes, &mut at)?;
        let manufacturer = read_array::<60>(bytes, &mut at)?;
        let version = read_u32_le(bytes, &mut at)?;
        let num_partition = read_i32_le(bytes, &mut at)?;
        Ok(RkafHeader { magic, size, model, manufacturer, version, num_partition })
    }
}

impl<'a> PartitionHeader<'a> {
    /// Reads one partition entry at the cursor and moves the cursor past
    /// its 112 bytes.
    ///
    /// The result is exactly `partition_header_at` of the buffer and the
    /// cursor. On failure the cursor stays where it was.
    pub fn decode(bytes: &'a [u8], offset: &mut usize) -> (r: Result<
        PartitionHeader<'a>,
        DecodeError,
    >)
        ensures
            decoded(r) == partition_header_at(bytes@, *old(offset) as int),
            r is Ok ==> *final(offset) == *old(offset) + PARTITION_ENTRY_SIZE,
            r is Err ==> *final(offset) == *old(offset),
    {
        let mut at = *offset;
        let name = read_text(bytes, &mut at, 32)?;
        let path = read_text(bytes, &mut at, 64)?;
        let file_offset = read_u32_le(bytes, &mut at)?;
        let flash_offset = read_u32_le(bytes, &mut at)?;
        let use_space = read_u32_le(bytes, &mut at)?;
        let file_size = read_u32_le(bytes, &mut at)?;
        *offset = at;
        Ok(PartitionHeader { name, path, file_offset, flash_offset, use_space, file_size })
    }
}

impl<'a> Partition<'a> {
    /// Resolves a partition entry against the archive buffer it came from.
    ///
    /// Succeeds exactly when the `file_size` bytes at `file_offset` lie
    /// inside `rkaf_data`, and fails with `PartitionOutOfBounds` otherwise.
    /// The partition keeps the entry's name, path, flash offset and space
    /// as they are, `NOT_FLASHED` included, and views those data bytes.
    pub fn try_from_header(rkaf_data: &'a [u8], header: PartitionHeader<'a>) -> (r: Result<
        Partition<'a>,
        DecodeError,
    >)
        ensures
            decoded(r) == resolved(rkaf_data@, header@),
            r is Ok <==> header.file_offset + header.file_size <= rkaf_data@.len(),
            r is Err ==> r == Err::<Partition<'a>, _>(DecodeError::PartitionOutOfBounds),
    {
        match region(rkaf_data, header.file_offset, header.file_size) {
            Some(data) => Ok(
                Partition {
                    name: header.name,
                    path: header.path,
                    flash_offset: header.flash_offset,
                    use_space: header.use_space,
                    data,
                },
            ),
            None => Err(DecodeError::PartitionOutOfBounds),
        }
    }

    /// Whether this partition is written to the device: whether its flash
    /// offset is anything but `NOT_FLASHED`.
    pub fn is_flashed(&self) -> (flashed: bool)
        ensures
            flashed == self@.is_flashed(),
    {
        self.flash_offset != NOT_FLASHED
    }
}

/// Decodes an archive from the start of `buffer`.
///
/// The result is exactly `archive_of(buffer@)`: on success the header and
/// one partition for each entry, in the order of the entries; otherwise
/// the first defect in the order header too short, wrong signature,
/// declared size beyond the buffer, negative partition count, then the
/// entries one by one. A failing entry fails the whole archive.
pub fn decode_archive<'a>(buffer: &'a [u8]) -> (r: Result<Rkaf<'a>, DecodeError>)
    ensures
        decoded(r) == archive_of(buffer@),
        r matches Ok(archive) ==> archive@.well_formed(),
{
    let header = RkafHeader::decode(buffer)?;
    if !bytes_are(header.magic.as_slice(), &RKAF_MAGIC) {
        return Err(DecodeError::BadMagic);
    }
    if header.size as usize > buffer.len() {
        return Err(DecodeError::DeclaredSizeExceedsBuffer);
    }
    if header.num_partition < 0 {
        return Err(DecodeError::NegativePartitionCount);
    }
    let count = header.num_partition;
    let mut partitions: Vec<Partition<'a>> = Vec::new();
    let mut offset: usize = RKAF_HEADER_SIZE;
    let mut index: i32 = 0;
    assert(partition_views(partitions@) =~= Seq::empty());
    while index < count
        invariant
            checked_header_of(buffer@) == Ok::<_, DecodeError>(header@),
            count == header.num_partition,
            0 <= index <= count,
            offset == entry_offset(index as int),
            offset <= buffer@.len(),
            partitions@.len() == index,
            partitions_of(buffer@, index as nat) == Ok::<_, DecodeError>(
                partition_views(partitions@),
            ),
        decreases count - index,
    {
        let ghost before = partitions@;
        let entry = match PartitionHeader::decode(buffer, &mut offset) {
            Ok(entry) => entry,
            Err(e) => {
                proof {
                    lemma_first_failure_stands(buffer@, (index + 1) as nat, count as nat);
                }
                return Err(e);
            },
        };
        let partition = match Partition::try_from_header(buffer, entry) {
            Ok(partition) => partition,
            Err(e) => {
                proof {
                    lemma_first_failure_stands(buffer@, (index + 1) as nat, count as nat);
                }
                return Err(e);
            },
        };
        partitions.push(partition);
        index += 1;
        proof {
            assert(partition_views(partitions@) =~= partition_views(before).push(partition@));
        }
    }
    proof {
        vstd::array::array_len_matches_n(&header.model);
        vstd::array::array_len_matches_n(&header.manufacturer);
    }
    Ok(Rkaf { header, partitions })
}

/// Once an entry has failed, decoding more entries fails in the same way.
pub proof fn lemma_first_failure_stands(buf: Seq<u8>, failed: nat, count: nat)
    requires
        failed <= count,
        partitions_of(buf, failed) is Err,
    ensures
        partitions_of(buf, count) == partitions_of(buf, failed),
    decreases count,
{
    if failed < count {
        lemma_first_failure_stands(buf, failed, (count - 1) as nat);
    }
}

/// Entries that decode come out all, and in their order on disk: the
/// list has one partition for each entry, and the partition at each index
/// is the one that the entry at that index resolves to.
pub proof fn lemma_partitions_in_disk_order(buf: Seq<u8>, count: nat)
    ensures
        partitions_of(buf, count) matches Ok(partitions) ==> {
            &&& partitions.len() == count
            &&& forall|i: int|
                0 <= i < count ==> partition_at(buf, i) == Ok::<_, DecodeError>(
                    #[trigger] partitions[i],
                )
        },
    decreases count,
{
    if count > 0 {
        lemma_partitions_in_disk_order(buf, (count - 1) as nat);
    }
}

/// Where every one of the first `count` entries decodes, so does the
/// list of them.
pub proof fn lemma_all_entries_decode(buf: Seq<u8>, count: nat)
    requires
        forall|i: int| 0 <= i < count ==> (#[trigger] partition_at(buf, i)) is Ok,
    ensures
        partitions_of(buf, count) is Ok,
    decreases count,
{
    if count > 0 {
        lemma_all_entries_decode(buf, (count - 1) as nat);
    }
}

/// The first entry that fails decides the whole archive: its error is the
/// archive's, and no partition is returned.
pub proof fn lemma_failing_entry_fails_archive(buf: Seq<u8>, index: int)
    requires
        checked_header_of(buf) is Ok,
        0 <= index < rkaf_header_of(buf).num_partition,
        forall|i: int| 0 <= i < index ==> (#[trigger] partition_at(buf, i)) is Ok,
        partition_at(buf, index) is Err,
    ensures
        archive_of(buf) is Err,
        archive_of(buf)->Err_0 == partition_at(buf, index)->Err_0,
{
    lemma_all_entries_decode(buf, index as nat);
    lemma_first_failure_stands(
        buf,
        (index + 1) as nat,
        rkaf_header_of(buf).num_partition as nat,
    );
}

/// An entry whose data region ends past the archive buffer fails the
/// archive with `PartitionOutOfBounds`, where the header and the entries
/// before it are in order.
pub proof fn lemma_entry_out_of_bounds_rejected(buf: Seq<u8>, index: int)
    requires
        checked_header_of(buf) is Ok,
        0 <= index < rkaf_header_of(buf).num_partition,
        forall|i: int| 0 <= i < index ==> (#[trigger] partition_at(buf, i)) is Ok,
        partition_header_at(buf, entry_offset(index)) matches Ok(entry) && entry.file_offset
            + entry.file_size > buf.len(),
    ensures
        archive_of(buf) == Err::<RkafView, _>(DecodeError::PartitionOutOfBounds),
{
    lemma_failing_entry_fails_archive(buf, index);
}

/// An archive that decodes has exactly as many partitions as its header
/// counts, in the order of the entries on disk, each with its data inside
/// the buffer.
pub proof fn lemma_archive_partitions_in_disk_order(buf: Seq<u8>)
    ensures
        archive_of(buf) matches Ok(archive) ==> {
            &&& archive.header == rkaf_header_of(buf)
            &&& archive.header.size <= buf.len()
            &&& archive.header.num_partition >= 0
            &&& archive.partitions.len() == archive.header.num_partition
            &&& forall|i: int|
                0 <= i < archive.partitions.len() ==> {
                    &&& partition_at(buf, i) == Ok::<_, DecodeError>(
                        #[trigger] archive.partitions[i],
                    )
                    &&& partition_header_at(buf, entry_offset(i)) matches Ok(entry)
                        && entry.file_offset + entry.file_size <= buf.len()
                }
        },
{
    if checked_header_of(buf) is Ok {
        lemma_partitions_in_disk_order(buf, rkaf_header_of(buf).num_partition as nat);
    }
}

/// The flash offset never decides whether an entry resolves, and it
/// passes through unchanged: an entry marked `NOT_FLASHED` resolves like
/// any other and is still marked so.
pub proof fn lemma_flash_offset_passes_through(archive: Seq<u8>, header: PartitionHeaderView)
    ensures
        resolved(archive, header) is Ok <==> header.file_offset + header.file_size
            <= archive.len(),
        resolved(archive, header) matches Ok(partition) ==> partition.flash_offset
            == header.flash_offset,
        resolved(archive, header) matches Ok(partition) ==> (header.flash_offset == NOT_FLASHED
            <==> !partition.is_flashed()),
{
}

/// Decoding one buffer twice gives results that hold the same.
pub proof fn lemma_archive_deterministic(
    buf: Seq<u8>,
    first: Result<Rkaf, DecodeError>,
    second: Result<Rkaf, DecodeError>,
)
    requires
        decoded(first) == archive_of(buf),
        decoded(second) == archive_of(buf),
    ensures
        decoded(first) == decoded(second),
{
}

/// The fields of a partition entry before they are written to disk. The
/// name and the path are the bytes of their text.
pub struct EntryFields {
    pub name: Seq<u8>,
    pub path: Seq<u8>,
    pub file_offset: u32,
    pub flash_offset: u32,
    pub use_space: u32,
    pub file_size: u32,
}

impl EntryFields {
    /// Whether the entry can be written: the name and the path fit their
    /// fields, hold no NUL and are valid UTF-8.
    pub open spec fn well_formed(self) -> bool {
        &&& self.name.len() <= 32
        &&& self.path.len() <= 64
        &&& forall|i: int| 0 <= i < self.name.len() ==> self.name[i] != 0
        &&& forall|i: int| 0 <= i < self.path.len() ==> self.path[i] != 0
        &&& valid_utf8(self.name)
        &&& valid_utf8(self.path)
    }

    /// The 112 bytes of the entry on disk.
    pub open spec fn bytes(self) -> Seq<u8> {
        text_field(self.name, 32) + text_field(self.path, 64) + u32_le_bytes(self.file_offset)
            + u32_le_bytes(self.flash_offset) + u32_le_bytes(self.use_space) + u32_le_bytes(
            self.file_size,
        )
    }

    /// The entry as a decoder sees it.
    pub open spec fn header(self) -> PartitionHeaderView {
        PartitionHeaderView {
            name: decode_utf8(self.name),
            path: decode_utf8(self.path),
            file_offset: self.file_offset,
            flash_offset: self.flash_offset,
            use_space: self.use_space,
            file_size: self.file_size,
        }
    }
}

/// A part of a region of a buffer is the part of the buffer at the same
/// place.
proof fn lemma_part_of_region(buf: Seq<u8>, at: int, width: int, start: int, len: int)
    requires
        0 <= at,
        at + width <= buf.len(),
        0 <= start,
        0 <= len,
        start + len <= width,
    ensures
        bytes_at(buf, at + start, len) == bytes_at(buf, at, width).subrange(start, start + len),
{
    assert(bytes_at(buf, at + start, len) =~= bytes_at(buf, at, width).subrange(
        start,
        start + len,
    ));
}

/// Four bytes that hold a value read as that value wherever they stand.
proof fn lemma_u32_le_at(buf: Seq<u8>, at: int, value: u32)
    requires
        0 <= at,
        at + 4 <= buf.len(),
        bytes_at(buf, at, 4) == u32_le_bytes(value),
    ensures
        u32_le(buf, at) == value,
{
    lemma_u32_le_of_bytes(value);
    let field = bytes_at(buf, at, 4);
    assert(field[0] == buf[at] && field[1] == buf[at + 1] && field[2] == buf[at + 2] && field[3]
        == buf[at + 3]);
}

/// An entry that was written to disk is read back field by field.
pub proof fn lemma_entry_recovered(buf: Seq<u8>, at: int, entry: EntryFields)
    requires
        0 <= at,
        at + PARTITION_ENTRY_SIZE <= buf.len(),
        bytes_at(buf, at, PARTITION_ENTRY_SIZE as int) == entry.bytes(),
        entry.well_formed(),
    ensures
        partition_header_at(buf, at) == Ok::<_, DecodeError>(entry.header()),
{
    let on_disk = entry.bytes();
    lemma_text_field_recovered(entry.name, 32);
    lemma_text_field_recovered(entry.path, 64);
    lemma_u32_le_of_bytes(entry.file_offset);
    lemma_u32_le_of_bytes(entry.flash_offset);
    lemma_u32_le_of_bytes(entry.use_space);
    lemma_u32_le_of_bytes(entry.file_size);
    assert(on_disk.subrange(0, 32) =~= text_field(entry.name, 32));
    assert(on_disk.subrange(32, 96) =~= text_field(entry.path, 64));
    assert(on_disk.subrange(96, 100) =~= u32_le_bytes(entry.file_offset));
    assert(on_disk.subrange(100, 104) =~= u32_le_bytes(entry.flash_offset));
    assert(on_disk.subrange(104, 108) =~= u32_le_bytes(entry.use_space));
    assert(on_disk.subrange(108, 112) =~= u32_le_bytes(entry.file_size));
    lemma_part_of_region(buf, at, 112, 0, 32);
    lemma_part_of_region(buf, at, 112, 32, 64);
    lemma_part_of_region(buf, at, 112, 96, 4);
    lemma_part_of_region(buf, at, 112, 100, 4);
    lemma_part_of_region(buf, at, 112, 104, 4);
    lemma_part_of_region(buf, at, 112, 108, 4);
    lemma_u32_le_at(buf, at + 96, entry.file_offset);
    lemma_u32_le_at(buf, at + 100, entry.flash_offset);
    lemma_u32_le_at(buf, at + 104, entry.use_space);
    lemma_u32_le_at(buf, at + 108, entry.file_size);
}

/// Round trip: entries written one after another behind an archive header
/// that counts them decode to one partition each, in the order in which
/// they were written, where each entry's data region lies inside the
/// buffer.
pub proof fn lemma_entries_round_trip(buf: Seq<u8>, entries: Seq<EntryFields>)
    requires
        checked_header_of(buf) is Ok,
        rkaf_header_of(buf).num_partition == entries.len(),
        entry_offset(entries.len() as int) <= buf.len(),
        forall|i: int|
            0 <= i < entries.len() ==> {
                &&& (#[trigger] entries[i]).well_formed()
                &&& bytes_at(buf, entry_offset(i), PARTITION_ENTRY_SIZE as int)
                    == entries[i].bytes()
                &&& entries[i].file_offset + entries[i].file_size <= buf.len()
            },
    ensures
        archive_of(buf) matches Ok(archive) && {
            &&& archive.partitions.len() == entries.len()
            &&& forall|i: int|
                0 <= i < entries.len() ==> resolved(buf, entries[i].header()) == Ok::<
                    _,
                    DecodeError,
                >(#[trigger] archive.partitions[i])
        },
{
    assert forall|i: int| 0 <= i < entries.len() implies (#[trigger] partition_at(buf, i)) is Ok
        && partition_at(buf, i) == resolved(buf, entries[i].header()) by {
        lemma_entry_recovered(buf, entry_offset(i), entries[i]);
    }
    lemma_all_entries_decode(buf, entries.len());
    lemma_partitions_in_disk_order(buf, entries.len());
}

} // verus!
