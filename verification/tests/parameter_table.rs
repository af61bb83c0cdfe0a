use rkimage::parameter_table::{
    decode_parameter_table, names_parameter_partition, PARAMETER_NAME, PARM_MAGIC,
};
use rkimage::rkaf::{decode_archive, Partition};
use rkimage::rkfw::decode_container;
use rkimage::DecodeError;

/// Signature, size, payload and checksum field, one after another.
fn table(payload: &[u8], checksum: [u8; 4]) -> Vec<u8> {
    let mut buf = b"PARM".to_vec();
    buf.extend((payload.len() as u32).to_le_bytes());
    buf.extend(payload);
    buf.extend(checksum);
    buf
}

fn partition<'a>(name: &'a str, data: &'a [u8]) -> Partition<'a> {
    Partition { name, path: "parameter.txt", flash_offset: 0, use_space: 0, data }
}

#[test]
fn constants_of_the_table_are_those_of_the_format() {
    assert_eq!(&PARM_MAGIC, b"PARM");
    assert_eq!(&PARAMETER_NAME, b"parameter");
}

#[test]
fn payload_is_recovered_exactly() {
    let payload = b"FIRMWARE_VER:8.1\nMACHINE_MODEL:RK3399\n";
    let buf = table(payload, [0xde, 0xad, 0xbe, 0xef]);
    let parsed = decode_parameter_table(&buf).unwrap();
    assert_eq!(parsed.size, 38);
    assert_eq!(parsed.data, &payload[..]);
    assert_eq!(parsed.data.as_ptr(), buf[8..].as_ptr());
    assert_eq!(parsed.checksum, 0xefbe_adde);
}

#[test]
fn checksum_content_does_not_matter() {
    let payload = b"CMDLINE: console=ttyFIQ0";
    for checksum in [[0u8; 4], [0xff; 4], [1, 2, 3, 4], *b"PARM"] {
        let buf = table(payload, checksum);
        let parsed = decode_parameter_table(&buf).unwrap();
        assert_eq!(parsed.size, payload.len() as u32);
        assert_eq!(parsed.data, &payload[..]);
        assert_eq!(parsed.checksum, u32::from_le_bytes(checksum));
    }
}

#[test]
fn empty_payload_decodes() {
    let buf = table(b"", [9, 9, 9, 9]);
    assert_eq!(buf.len(), 12);
    let parsed = decode_parameter_table(&buf).unwrap();
    assert_eq!(parsed.size, 0);
    assert!(parsed.data.is_empty());
    assert_eq!(parsed.checksum, 0x0909_0909);
}

#[test]
fn bytes_after_the_checksum_are_ignored() {
    let mut buf = table(b"abc", [1, 0, 0, 0]);
    buf.extend(b"trailing padding");
    let parsed = decode_parameter_table(&buf).unwrap();
    assert_eq!(parsed.data, b"abc");
    assert_eq!(parsed.checksum, 1);
}

#[test]
fn payload_may_hold_any_bytes() {
    let payload = [0x00u8, 0xff, 0x80, b'P', b'A', b'R', b'M', 0x00];
    let buf = table(&payload, [0; 4]);
    assert_eq!(decode_parameter_table(&buf).unwrap().data, &payload[..]);
}

#[test]
fn table_with_wrong_magic_is_bad_magic() {
    let mut buf = table(b"abc", [0; 4]);
    buf[3] = b'N';
    assert_eq!(decode_parameter_table(&buf).unwrap_err(), DecodeError::BadMagic);
    assert_eq!(decode_parameter_table(b"RKAF").unwrap_err(), DecodeError::BadMagic);
    assert_eq!(decode_parameter_table(b"parm\0\0\0\0\0\0\0\0").unwrap_err(), DecodeError::BadMagic);
}

#[test]
fn table_cut_inside_a_fixed_field_is_truncated() {
    let buf = table(b"abc", [0; 4]);
    assert_eq!(decode_parameter_table(&[]).unwrap_err(), DecodeError::TruncatedInput);
    assert_eq!(decode_parameter_table(&buf[..3]).unwrap_err(), DecodeError::TruncatedInput);
    assert_eq!(decode_parameter_table(&buf[..4]).unwrap_err(), DecodeError::TruncatedInput);
    assert_eq!(decode_parameter_table(&buf[..7]).unwrap_err(), DecodeError::TruncatedInput);
}

#[test]
fn table_without_its_whole_checksum_is_truncated() {
    let buf = table(b"abc", [0; 4]);
    assert_eq!(buf.len(), 15);
    assert_eq!(decode_parameter_table(&buf[..11]).unwrap_err(), DecodeError::TruncatedInput);
    assert_eq!(decode_parameter_table(&buf[..14]).unwrap_err(), DecodeError::TruncatedInput);
    assert!(decode_parameter_table(&buf[..15]).is_ok());
}

#[test]
fn size_beyond_the_remaining_bytes_is_rejected() {
    let buf = table(b"abc", [0; 4]);
    assert_eq!(
        decode_parameter_table(&buf[..10]).unwrap_err(),
        DecodeError::DeclaredSizeExceedsBuffer
    );
    assert_eq!(
        decode_parameter_table(&buf[..8]).unwrap_err(),
        DecodeError::DeclaredSizeExceedsBuffer
    );
    let mut huge = table(b"abc", [0; 4]);
    huge[4..8].copy_from_slice(&0xffff_ffffu32.to_le_bytes());
    assert_eq!(decode_parameter_table(&huge).unwrap_err(), DecodeError::DeclaredSizeExceedsBuffer);
    let mut just_over = table(b"abc", [0; 4]);
    just_over[4..8].copy_from_slice(&8u32.to_le_bytes());
    assert_eq!(
        decode_parameter_table(&just_over).unwrap_err(),
        DecodeError::DeclaredSizeExceedsBuffer
    );
}

#[test]
fn size_that_swallows_the_checksum_is_truncated() {
    let mut buf = table(b"abc", [0; 4]);
    buf[4..8].copy_from_slice(&7u32.to_le_bytes());
    assert_eq!(decode_parameter_table(&buf).unwrap_err(), DecodeError::TruncatedInput);
    buf[4..8].copy_from_slice(&4u32.to_le_bytes());
    assert_eq!(decode_parameter_table(&buf).unwrap_err(), DecodeError::TruncatedInput);
}

#[test]
fn only_the_exact_name_marks_the_parameter_partition() {
    assert!(names_parameter_partition("parameter"));
    assert!(!names_parameter_partition("parameters"));
    assert!(!names_parameter_partition("paramete"));
    assert!(!names_parameter_partition("Parameter"));
    assert!(!names_parameter_partition("parametes"));
    assert!(!names_parameter_partition(""));
    assert!(!names_parameter_partition("boot"));
    assert!(!names_parameter_partition("param\u{e9}ter"));
}

#[test]
fn parameter_partition_yields_its_table() {
    let data = table(b"MAGIC: 0x5041524B", [4, 3, 2, 1]);
    let part = partition("parameter", &data);
    let parsed = part.parameter_table().unwrap().unwrap();
    assert_eq!(parsed.size, 17);
    assert_eq!(parsed.data, b"MAGIC: 0x5041524B");
    assert_eq!(parsed.checksum, 0x0102_0304);
}

#[test]
fn other_partitions_yield_no_table() {
    let data = table(b"MAGIC: 0x5041524B", [4, 3, 2, 1]);
    assert!(partition("boot", &data).parameter_table().is_none());
    assert!(partition("parameter2", &data).parameter_table().is_none());
    assert!(partition("", &data).parameter_table().is_none());
}

#[test]
fn parameter_partition_with_bad_data_yields_the_error() {
    let part = partition("parameter", b"not a table");
    assert_eq!(part.parameter_table().unwrap().unwrap_err(), DecodeError::BadMagic);
    let short = partition("parameter", b"PA");
    assert_eq!(short.parameter_table().unwrap().unwrap_err(), DecodeError::TruncatedInput);
}

#[test]
fn decoding_a_table_twice_gives_equal_results() {
    let buf = table(b"same bytes", [5, 6, 7, 8]);
    let first = decode_parameter_table(&buf).unwrap();
    let second = decode_parameter_table(&buf).unwrap();
    assert_eq!(first.size, second.size);
    assert_eq!(first.data, second.data);
    assert_eq!(first.checksum, second.checksum);
}

#[test]
fn image_decodes_through_all_three_layers() {
    let payload = b"CMDLINE: mtdparts=rk29xxnand:0x2000@0x2000(uboot)";
    let param = table(payload, [0xaa, 0xbb, 0xcc, 0xdd]);

    let mut archive = vec![0u8; 140 + 2 * 112];
    archive[0..4].copy_from_slice(b"RKAF");
    archive[136..140].copy_from_slice(&2i32.to_le_bytes());
    let param_at = archive.len();
    archive.extend(&param);
    let boot_at = archive.len();
    archive.extend(b"\x7fELFboot");
    let total = archive.len() as u32;
    archive[4..8].copy_from_slice(&total.to_le_bytes());
    let entries: [(&[u8], usize, usize, u32); 2] =
        [(b"parameter", param_at, param.len(), 0), (b"boot", boot_at, 8, 0x4000)];
    for (i, (name, at, len, flash)) in entries.iter().enumerate() {
        let base = 140 + 112 * i;
        archive[base..base + name.len()].copy_from_slice(name);
        archive[base + 32..base + 32 + name.len()].copy_from_slice(name);
        archive[base + 96..base + 100].copy_from_slice(&(*at as u32).to_le_bytes());
        archive[base + 100..base + 104].copy_from_slice(&flash.to_le_bytes());
        archive[base + 108..base + 112].copy_from_slice(&(*len as u32).to_le_bytes());
    }

    let mut image = vec![0u8; 102];
    image[0..4].copy_from_slice(b"RKFW");
    image[4..6].copy_from_slice(&0x66u16.to_le_bytes());
    image[25..29].copy_from_slice(&102u32.to_le_bytes());
    image[29..33].copy_from_slice(&16u32.to_le_bytes());
    image[33..37].copy_from_slice(&118u32.to_le_bytes());
    image[37..41].copy_from_slice(&total.to_le_bytes());
    image.extend([0x5au8; 16]);
    image.extend(&archive);

    let rkfw = decode_container(&image).unwrap();
    assert_eq!(rkfw.boot_data, &[0x5au8; 16][..]);
    assert_eq!(rkfw.firmware_data, &archive[..]);
    let rkaf = decode_archive(rkfw.firmware_data).unwrap();
    assert_eq!(rkaf.partitions.len(), 2);
    assert_eq!(rkaf.partitions[0].name, "parameter");
    assert_eq!(rkaf.partitions[1].name, "boot");
    assert_eq!(rkaf.partitions[1].data, b"\x7fELFboot");
    assert!(rkaf.partitions[1].parameter_table().is_none());
    let parsed = rkaf.partitions[0].parameter_table().unwrap().unwrap();
    assert_eq!(parsed.data, &payload[..]);
    assert_eq!(parsed.checksum, 0xddcc_bbaa);
}
