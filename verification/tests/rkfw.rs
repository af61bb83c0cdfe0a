use rkimage::rkfw::{decode_container, BuildTime, RkfwHeader, RKFW_HEADER_LEN, RKFW_MAGIC};
use rkimage::DecodeError;

fn put_u16(buf: &mut [u8], at: usize, value: u16) {
    buf[at..at + 2].copy_from_slice(&value.to_le_bytes());
}

fn put_u32(buf: &mut [u8], at: usize, value: u32) {
    buf[at..at + 4].copy_from_slice(&value.to_le_bytes());
}

/// A container of `len` bytes with a header in order and the four region
/// fields as given.
fn container(len: usize, boot: (u32, u32), firmware: (u32, u32)) -> Vec<u8> {
    let mut buf = vec![0u8; len];
    buf[0..4].copy_from_slice(b"RKFW");
    put_u16(&mut buf, 4, 0x66);
    put_u32(&mut buf, 25, boot.0);
    put_u32(&mut buf, 29, boot.1);
    put_u32(&mut buf, 33, firmware.0);
    put_u32(&mut buf, 37, firmware.1);
    buf
}

#[test]
fn constants_are_those_of_the_format() {
    assert_eq!(&RKFW_MAGIC, b"RKFW");
    assert_eq!(RKFW_HEADER_LEN, 102);
}

#[test]
fn header_only_container_has_empty_views() {
    let buf = container(102, (0, 0), (102, 0));
    assert_eq!(buf.len(), 102);
    let rkfw = decode_container(&buf).unwrap();
    assert_eq!(rkfw.header.magic, *b"RKFW");
    assert_eq!(rkfw.header.header_len, 0x66);
    assert_eq!(rkfw.header.boot_offset, 0);
    assert_eq!(rkfw.header.boot_size, 0);
    assert_eq!(rkfw.header.firmware_offset, 102);
    assert_eq!(rkfw.header.firmware_size, 0);
    assert!(rkfw.boot_data.is_empty());
    assert!(rkfw.firmware_data.is_empty());
}

#[test]
fn every_header_field_is_read_from_its_place() {
    let mut buf = container(200, (102, 40), (150, 50));
    put_u32(&mut buf, 6, 0x0102_0304);
    put_u32(&mut buf, 10, 0x0a0b_0c0d);
    put_u16(&mut buf, 14, 2024);
    buf[16] = 2;
    buf[17] = 29;
    buf[18] = 23;
    buf[19] = 59;
    buf[20] = 58;
    put_u32(&mut buf, 21, 0x3326_8801);
    for i in 0..61 {
        buf[41 + i] = i as u8 + 1;
    }
    for i in 102..200 {
        buf[i] = i as u8;
    }
    let rkfw = decode_container(&buf).unwrap();
    let header: &RkfwHeader = &rkfw.header;
    assert_eq!(header.magic, [0x52, 0x4b, 0x46, 0x57]);
    assert_eq!(header.header_len, 102);
    assert_eq!(header.version, 0x0102_0304);
    assert_eq!(header.merge_version, 0x0a0b_0c0d);
    assert_eq!(
        header.build_time,
        BuildTime { year: 2024, month: 2, day: 29, hour: 23, minute: 59, second: 58 }
    );
    assert_eq!(header.chip_type, 0x3326_8801);
    assert_eq!(header.boot_offset, 102);
    assert_eq!(header.boot_size, 40);
    assert_eq!(header.firmware_offset, 150);
    assert_eq!(header.firmware_size, 50);
    let mut reserved = [0u8; 61];
    for i in 0..61 {
        reserved[i] = i as u8 + 1;
    }
    assert_eq!(header.reserved, reserved);
    assert_eq!(rkfw.boot_data, &buf[102..142]);
    assert_eq!(rkfw.firmware_data, &buf[150..200]);
}

#[test]
fn views_borrow_from_the_buffer() {
    let buf = container(120, (104, 6), (110, 10));
    let rkfw = decode_container(&buf).unwrap();
    assert_eq!(rkfw.boot_data.as_ptr(), buf[104..].as_ptr());
    assert_eq!(rkfw.boot_data.len(), 6);
    assert_eq!(rkfw.firmware_data.as_ptr(), buf[110..].as_ptr());
    assert_eq!(rkfw.firmware_data.len(), 10);
}

#[test]
fn regions_may_overlap_the_header_and_each_other() {
    let buf = container(102, (0, 102), (4, 2));
    let rkfw = decode_container(&buf).unwrap();
    assert_eq!(rkfw.boot_data, &buf[..]);
    assert_eq!(rkfw.firmware_data, &[0x66u8, 0x00][..]);
}

#[test]
fn wrong_magic_is_bad_magic() {
    let mut buf = container(102, (0, 0), (102, 0));
    buf[0..4].copy_from_slice(b"RKAF");
    assert_eq!(decode_container(&buf).unwrap_err(), DecodeError::BadMagic);
    let mut last = container(102, (0, 0), (102, 0));
    last[3] = b'w';
    assert_eq!(decode_container(&last).unwrap_err(), DecodeError::BadMagic);
    let zeros = vec![0u8; 4096];
    assert_eq!(decode_container(&zeros).unwrap_err(), DecodeError::BadMagic);
}

#[test]
fn wrong_magic_comes_before_every_later_check() {
    let mut buf = container(102, (500, 500), (0xffff_ffff, 0xffff_ffff));
    buf[0] = b'X';
    put_u16(&mut buf, 4, 0x67);
    assert_eq!(decode_container(&buf).unwrap_err(), DecodeError::BadMagic);
}

#[test]
fn buffer_shorter_than_the_header_is_truncated() {
    let whole = container(102, (0, 0), (102, 0));
    assert_eq!(decode_container(&whole[..101]).unwrap_err(), DecodeError::TruncatedInput);
    assert_eq!(decode_container(&whole[..41]).unwrap_err(), DecodeError::TruncatedInput);
    assert_eq!(decode_container(&whole[..4]).unwrap_err(), DecodeError::TruncatedInput);
    assert_eq!(decode_container(&[]).unwrap_err(), DecodeError::TruncatedInput);
    assert_eq!(decode_container(b"XXXX").unwrap_err(), DecodeError::TruncatedInput);
}

#[test]
fn wrong_declared_header_length_is_rejected() {
    let mut buf = container(102, (0, 0), (102, 0));
    put_u16(&mut buf, 4, 0x65);
    assert_eq!(decode_container(&buf).unwrap_err(), DecodeError::BadHeaderLength);
    put_u16(&mut buf, 4, 0x6600);
    assert_eq!(decode_container(&buf).unwrap_err(), DecodeError::BadHeaderLength);
    put_u16(&mut buf, 4, 0);
    assert_eq!(decode_container(&buf).unwrap_err(), DecodeError::BadHeaderLength);
}

#[test]
fn declared_header_length_comes_before_the_regions() {
    let mut buf = container(102, (500, 500), (0, 0));
    put_u16(&mut buf, 4, 0x67);
    assert_eq!(decode_container(&buf).unwrap_err(), DecodeError::BadHeaderLength);
}

#[test]
fn boot_region_past_the_buffer_is_out_of_bounds() {
    let offset_past = container(102, (103, 0), (0, 0));
    assert_eq!(decode_container(&offset_past).unwrap_err(), DecodeError::OffsetOutOfBounds);
    let end_past = container(102, (100, 3), (0, 0));
    assert_eq!(decode_container(&end_past).unwrap_err(), DecodeError::OffsetOutOfBounds);
    let size_past = container(102, (0, 103), (0, 0));
    assert_eq!(decode_container(&size_past).unwrap_err(), DecodeError::OffsetOutOfBounds);
}

#[test]
fn firmware_region_past_the_buffer_is_out_of_bounds() {
    let offset_past = container(102, (0, 0), (103, 0));
    assert_eq!(decode_container(&offset_past).unwrap_err(), DecodeError::OffsetOutOfBounds);
    let end_past = container(102, (0, 0), (102, 1));
    assert_eq!(decode_container(&end_past).unwrap_err(), DecodeError::OffsetOutOfBounds);
    let size_past = container(102, (0, 0), (0, 0xffff_ffff));
    assert_eq!(decode_container(&size_past).unwrap_err(), DecodeError::OffsetOutOfBounds);
}

#[test]
fn region_sum_that_would_wrap_is_out_of_bounds() {
    let boot = container(102, (0xffff_ffff, 1), (0, 0));
    assert_eq!(decode_container(&boot).unwrap_err(), DecodeError::OffsetOutOfBounds);
    let boot_to_small_sum = container(200, (0xffff_ff00, 0x0000_0164), (0, 0));
    assert_eq!(decode_container(&boot_to_small_sum).unwrap_err(), DecodeError::OffsetOutOfBounds);
    let firmware = container(200, (0, 0), (0x8000_0000, 0x8000_0010));
    assert_eq!(decode_container(&firmware).unwrap_err(), DecodeError::OffsetOutOfBounds);
}

#[test]
fn region_that_ends_with_the_buffer_is_in_bounds() {
    let buf = container(150, (102, 48), (150, 0));
    let rkfw = decode_container(&buf).unwrap();
    assert_eq!(rkfw.boot_data.len(), 48);
    assert_eq!(rkfw.firmware_data.len(), 0);
}

#[test]
fn decoding_twice_gives_equal_results() {
    let mut buf = container(180, (102, 30), (132, 48));
    for i in 102..180 {
        buf[i] = (i * 7) as u8;
    }
    let first = decode_container(&buf).unwrap();
    let second = decode_container(&buf).unwrap();
    assert_eq!(first.header.magic, second.header.magic);
    assert_eq!(first.header.header_len, second.header.header_len);
    assert_eq!(first.header.version, second.header.version);
    assert_eq!(first.header.merge_version, second.header.merge_version);
    assert_eq!(first.header.build_time, second.header.build_time);
    assert_eq!(first.header.chip_type, second.header.chip_type);
    assert_eq!(first.header.boot_offset, second.header.boot_offset);
    assert_eq!(first.header.boot_size, second.header.boot_size);
    assert_eq!(first.header.firmware_offset, second.header.firmware_offset);
    assert_eq!(first.header.firmware_size, second.header.firmware_size);
    assert_eq!(first.header.reserved, second.header.reserved);
    assert_eq!(first.boot_data, second.boot_data);
    assert_eq!(first.firmware_data, second.firmware_data);
    let bad = vec![0u8; 102];
    assert_eq!(decode_container(&bad).unwrap_err(), decode_container(&bad).unwrap_err());
}

#[test]
fn header_decode_judges_nothing() {
    let mut buf = vec![0xabu8; 102];
    put_u16(&mut buf, 4, 0x1234);
    let header = RkfwHeader::decode(&buf).unwrap();
    assert_eq!(header.magic, [0xab; 4]);
    assert_eq!(header.header_len, 0x1234);
    assert_eq!(header.version, 0xabab_abab);
    assert_eq!(header.build_time.year, 0xabab);
    assert_eq!(header.build_time.second, 0xab);
    assert_eq!(RkfwHeader::decode(&buf[..101]).unwrap_err(), DecodeError::TruncatedInput);
}

#[test]
fn build_time_decode_reads_seven_bytes() {
    let bytes = [0xffu8, 0xe8, 0x07, 12, 31, 1, 2, 3, 0xff];
    let mut at = 1usize;
    let time = BuildTime::decode(&bytes, &mut at).unwrap();
    assert_eq!(
        time,
        BuildTime { year: 2024, month: 12, day: 31, hour: 1, minute: 2, second: 3 }
    );
    assert_eq!(at, 8);
    let mut late = 3usize;
    assert_eq!(BuildTime::decode(&bytes, &mut late).unwrap_err(), DecodeError::TruncatedInput);
    assert_eq!(late, 3);
}
