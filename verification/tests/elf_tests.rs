use uf2_sync::elf::extract_segments;
use uf2_sync::SyncError;

fn put_u16_le(buf: &mut Vec<u8>, off: usize, v: u16) {
    buf[off] = (v & 0xFF) as u8;
    buf[off + 1] = (v >> 8) as u8;
}

fn put_u32_le(buf: &mut Vec<u8>, off: usize, v: u32) {
    for i in 0..4 {
        buf[off + i] = ((v >> (8 * i)) & 0xFF) as u8;
    }
}

fn put_u64_le(buf: &mut Vec<u8>, off: usize, v: u64) {
    for i in 0..8 {
        buf[off + i] = ((v >> (8 * i)) & 0xFF) as u8;
    }
}

/// A 32-bit little-endian image with two program header entries: one
/// loadable with 4 file bytes at physical address `0x0800_0000`, one
/// non-loadable.
fn image_32le(load_filesz: u32, load_offset: u32) -> Vec<u8> {
    let mut buf = vec![0u8; 120];
    buf[0] = 0x7F;
    buf[1] = b'E';
    buf[2] = b'L';
    buf[3] = b'F';
    buf[4] = 1; // 32-bit
    buf[5] = 1; // little-endian
    buf[6] = 1;
    put_u32_le(&mut buf, 28, 52); // program header table offset
    put_u16_le(&mut buf, 42, 32); // entry size
    put_u16_le(&mut buf, 44, 2); // entry count
    // entry 0: loadable
    put_u32_le(&mut buf, 52, 1); // PT_LOAD
    put_u32_le(&mut buf, 56, load_offset);
    put_u32_le(&mut buf, 64, 0x0800_0000); // physical address
    put_u32_le(&mut buf, 68, load_filesz);
    // entry 1: a note, not loadable
    put_u32_le(&mut buf, 84, 4);
    // segment data
    buf[116] = 0xDE;
    buf[117] = 0xAD;
    buf[118] = 0xBE;
    buf[119] = 0xEF;
    buf
}

#[test]
fn extracts_loadable_segment_32le() {
    let img = image_32le(4, 116);
    let segs = extract_segments(&img).unwrap();
    assert_eq!(segs.len(), 1);
    assert_eq!(segs[0].target_address, 0x0800_0000);
    assert_eq!(segs[0].bytes, vec![0xDE, 0xAD, 0xBE, 0xEF]);
}

#[test]
fn skips_zero_sized_entries() {
    let img = image_32le(0, 116);
    let segs = extract_segments(&img).unwrap();
    assert!(segs.is_empty());
}

#[test]
fn unrecognized_input_yields_no_segments() {
    assert!(extract_segments(b"hello world").unwrap().is_empty());
    assert!(extract_segments(&[]).unwrap().is_empty());
    let mut near = vec![0u8; 60];
    near[0] = 0x7F; // magic incomplete
    assert!(extract_segments(&near).unwrap().is_empty());
}

#[test]
fn out_of_bounds_segment_bytes_are_malformed() {
    let img = image_32le(400, 116); // 116 + 400 > 120
    assert_eq!(extract_segments(&img).unwrap_err(), SyncError::MalformedImage);
}

#[test]
fn out_of_bounds_header_table_is_malformed() {
    let mut img = image_32le(4, 116);
    put_u32_le(&mut img, 28, 110); // table would run past the buffer
    assert_eq!(extract_segments(&img).unwrap_err(), SyncError::MalformedImage);
}

#[test]
fn undersized_header_entries_are_malformed() {
    let mut img = image_32le(4, 116);
    put_u16_le(&mut img, 42, 16); // entries too small to hold the fields
    assert_eq!(extract_segments(&img).unwrap_err(), SyncError::MalformedImage);
}

#[test]
fn extracts_loadable_segment_64le() {
    let mut buf = vec![0u8; 130];
    buf[0] = 0x7F;
    buf[1] = b'E';
    buf[2] = b'L';
    buf[3] = b'F';
    buf[4] = 2; // 64-bit
    buf[5] = 1; // little-endian
    put_u64_le(&mut buf, 32, 64); // program header table offset
    put_u16_le(&mut buf, 54, 56); // entry size
    put_u16_le(&mut buf, 56, 1); // entry count
    put_u32_le(&mut buf, 64, 1); // PT_LOAD
    put_u64_le(&mut buf, 72, 124); // file offset of bytes
    put_u64_le(&mut buf, 88, 0x2000_0000); // physical address
    put_u64_le(&mut buf, 96, 6); // file size
    for i in 0..6 {
        buf[124 + i] = i as u8 + 1;
    }
    let segs = extract_segments(&buf).unwrap();
    assert_eq!(segs.len(), 1);
    assert_eq!(segs[0].target_address, 0x2000_0000);
    assert_eq!(segs[0].bytes, vec![1, 2, 3, 4, 5, 6]);
}
