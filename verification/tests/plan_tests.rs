use uf2_sync::plan::{chunk_queries, pad_to_page, page_checksums, write_plan, writes_for_plan};

#[test]
fn padding_600_bytes_to_256_pages() {
    let bytes: Vec<u8> = (0..600u32).map(|i| (i % 251) as u8).collect();
    let padded = pad_to_page(&bytes, 256).unwrap();
    assert_eq!(padded.len(), 768);
    assert_eq!(&padded[..600], &bytes[..]);
    assert!(padded[600..].iter().all(|&b| b == 0));
}

#[test]
fn padding_exact_multiple_is_unchanged() {
    let bytes = vec![7u8; 512];
    let padded = pad_to_page(&bytes, 256).unwrap();
    assert_eq!(padded, bytes);
}

#[test]
fn padding_short_segment_gives_one_page() {
    let bytes = vec![1u8, 2, 3];
    let padded = pad_to_page(&bytes, 256).unwrap();
    assert_eq!(padded.len(), 256);
    assert_eq!(&padded[..3], &[1, 2, 3]);
    assert!(padded[3..].iter().all(|&b| b == 0));
}

#[test]
fn checksum_of_standard_check_value() {
    // The CRC-XMODEM check value: "123456789" digests to 0x31C3.
    let bytes = b"123456789".to_vec();
    let sums = page_checksums(&bytes, 9);
    assert_eq!(sums, vec![0x31C3]);
}

#[test]
fn checksums_differ_per_page() {
    let mut bytes = vec![0u8; 8];
    bytes[4] = 1;
    let sums = page_checksums(&bytes, 4);
    assert_eq!(sums.len(), 2);
    assert_ne!(sums[0], sums[1]);
}

#[test]
fn equal_tables_need_no_writes() {
    let table = vec![0x1111u16, 0x2222, 0x3333];
    let plan = write_plan(&table, &table);
    assert!(plan.is_empty());
}

#[test]
fn single_difference_yields_single_write() {
    let local = vec![0xAAAAu16, 0xBBBB, 0xCCCC];
    let mut device = local.clone();
    device[1] = 0x1234;
    let plan = write_plan(&local, &device);
    assert_eq!(plan, vec![1]);
}

#[test]
fn all_pages_differ_all_are_planned() {
    let local = vec![1u16, 2, 3];
    let device = vec![4u16, 5, 6];
    let plan = write_plan(&local, &device);
    assert_eq!(plan, vec![0, 1, 2]);
}

#[test]
fn chunking_respects_page_bound() {
    // max_pages = 2: five pages take three queries of 2, 2 and 1 pages.
    let queries = chunk_queries(0x1000, 5, 2, 4);
    assert_eq!(queries.len(), 3);
    assert_eq!((queries[0].target_address, queries[0].num_pages), (0x1000, 2));
    assert_eq!((queries[1].target_address, queries[1].num_pages), (0x1008, 2));
    assert_eq!((queries[2].target_address, queries[2].num_pages), (0x1010, 1));
    for q in &queries {
        assert!(q.num_pages >= 1 && q.num_pages <= 2);
    }
}

#[test]
fn chunked_fetch_concatenates_to_unchunked_table() {
    let full = vec![10u16, 20, 30, 40, 50];
    let queries = chunk_queries(0x1000, full.len() as u32, 2, 4);
    let mut fetched: Vec<u16> = Vec::new();
    for q in &queries {
        let first = ((q.target_address - 0x1000) / 4) as usize;
        fetched.extend_from_slice(&full[first..first + q.num_pages as usize]);
    }
    assert_eq!(fetched, full);
}

#[test]
fn single_chunk_when_bound_allows() {
    let queries = chunk_queries(0x2000, 3, 510, 256);
    assert_eq!(queries.len(), 1);
    assert_eq!((queries[0].target_address, queries[0].num_pages), (0x2000, 3));
}

#[test]
fn writes_carry_page_addresses_and_bytes() {
    let bytes: Vec<u8> = (0..600u32).map(|i| (i % 251) as u8).collect();
    let padded = pad_to_page(&bytes, 256).unwrap();
    let plan = vec![1usize];
    let writes = writes_for_plan(0x0800_0000, &padded, 256, &plan);
    assert_eq!(writes.len(), 1);
    assert_eq!(writes[0].target_address, 0x0800_0100);
    assert_eq!(writes[0].data, padded[256..512].to_vec());
}
