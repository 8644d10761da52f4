use uf2_sync::engine::{Action, DeviceCapabilities, DeviceMode, Event, SyncEngine};
use uf2_sync::plan::{pad_to_page, page_checksums};
use uf2_sync::{Segment, SyncError};

fn caps_bootloader() -> DeviceCapabilities {
    DeviceCapabilities {
        mode: DeviceMode::Bootloader,
        flash_page_size: 256,
        max_message_size: 1024,
    }
}

fn segment_600() -> (Segment, Vec<u8>, Vec<u16>) {
    let bytes: Vec<u8> = (0..600u32).map(|i| (i % 251) as u8).collect();
    let padded = pad_to_page(&bytes, 256).unwrap();
    let local = page_checksums(&padded, 256);
    (Segment { target_address: 0x0800_0000, bytes }, padded, local)
}

#[test]
fn end_to_end_single_differing_page() {
    let (seg, padded, local) = segment_600();
    assert_eq!(padded.len(), 768);
    assert_eq!(local.len(), 3);
    let mut device = local.clone();
    device[1] = device[1].wrapping_add(1);

    let mut eng = SyncEngine::new(vec![seg]);
    let a = eng.step(Event::Start).unwrap();
    assert!(matches!(a, Action::QueryInfo));
    let a = eng.step(Event::Info { caps: caps_bootloader() }).unwrap();
    match a {
        Action::QueryChecksums { target_address, num_pages } => {
            assert_eq!(target_address, 0x0800_0000);
            assert_eq!(num_pages, 3);
        },
        _ => panic!("expected a checksum query"),
    }
    let a = eng.step(Event::Checksums { table: device }).unwrap();
    match a {
        Action::WritePage { target_address, data } => {
            assert_eq!(target_address, 0x0800_0100);
            assert_eq!(data, padded[256..512].to_vec());
        },
        _ => panic!("expected exactly one page write"),
    }
    let a = eng.step(Event::Ack).unwrap();
    assert!(matches!(a, Action::ResetToApplication));
    let a = eng.step(Event::ResetSent).unwrap();
    assert!(matches!(a, Action::Done));
}

#[test]
fn unchanged_device_gets_zero_writes() {
    let (seg, _padded, local) = segment_600();
    let mut eng = SyncEngine::new(vec![seg]);
    eng.step(Event::Start).unwrap();
    let a = eng.step(Event::Info { caps: caps_bootloader() }).unwrap();
    assert!(matches!(a, Action::QueryChecksums { .. }));
    let a = eng.step(Event::Checksums { table: local }).unwrap();
    assert!(matches!(a, Action::ResetToApplication));
    let a = eng.step(Event::ResetSent).unwrap();
    assert!(matches!(a, Action::Done));
}

#[test]
fn sync_is_idempotent_across_runs() {
    // First run: one page differs and is rewritten. The device then holds
    // the local image, so a second run issues zero page writes.
    let (seg, _padded, local) = segment_600();
    let seg2 = Segment { target_address: seg.target_address, bytes: seg.bytes.clone() };
    let mut device = local.clone();
    device[2] = !device[2];

    let mut eng = SyncEngine::new(vec![seg]);
    eng.step(Event::Start).unwrap();
    eng.step(Event::Info { caps: caps_bootloader() }).unwrap();
    let a = eng.step(Event::Checksums { table: device }).unwrap();
    let mut writes = 0;
    let mut a = a;
    while let Action::WritePage { target_address, ref data } = a {
        // The device applies the whole-page write; its checksum table now
        // matches the local one for that page.
        assert_eq!((target_address - 0x0800_0000) % 256, 0);
        let page = ((target_address - 0x0800_0000) / 256) as usize;
        let applied = page_checksums(data, 256);
        assert_eq!(applied[0], local[page]);
        writes += 1;
        a = eng.step(Event::Ack).unwrap();
    }
    assert_eq!(writes, 1);
    assert!(matches!(a, Action::ResetToApplication));

    let mut second = SyncEngine::new(vec![seg2]);
    second.step(Event::Start).unwrap();
    second.step(Event::Info { caps: caps_bootloader() }).unwrap();
    let a = second.step(Event::Checksums { table: local }).unwrap();
    assert!(
        matches!(a, Action::ResetToApplication),
        "second run must issue zero writes"
    );
}

#[test]
fn application_mode_arms_exactly_once_before_queries() {
    let (seg, _padded, local) = segment_600();
    let caps = DeviceCapabilities {
        mode: DeviceMode::Application,
        flash_page_size: 256,
        max_message_size: 1024,
    };
    let mut eng = SyncEngine::new(vec![seg]);
    eng.step(Event::Start).unwrap();
    let a = eng.step(Event::Info { caps }).unwrap();
    assert!(matches!(a, Action::ArmBootloader), "arming precedes any query");
    let a = eng.step(Event::Ack).unwrap();
    assert!(matches!(a, Action::QueryChecksums { .. }));
    let a = eng.step(Event::Checksums { table: local }).unwrap();
    assert!(
        !matches!(a, Action::ArmBootloader),
        "arming happens exactly once"
    );
}

#[test]
fn bootloader_mode_never_arms() {
    let (seg, _padded, local) = segment_600();
    let mut eng = SyncEngine::new(vec![seg]);
    eng.step(Event::Start).unwrap();
    let a = eng.step(Event::Info { caps: caps_bootloader() }).unwrap();
    assert!(matches!(a, Action::QueryChecksums { .. }));
    let a = eng.step(Event::Checksums { table: local }).unwrap();
    assert!(matches!(a, Action::ResetToApplication));
}

#[test]
fn chunked_queries_cover_all_pages_in_order() {
    // Page size 4, 5 pages, max_message_size 8: at most 8/2-2 = 2 pages per
    // query, so the engine issues queries of 2, 2 and 1 pages.
    let bytes: Vec<u8> = (0..20u32).map(|i| i as u8).collect();
    let padded = pad_to_page(&bytes, 4).unwrap();
    let local = page_checksums(&padded, 4);
    let caps = DeviceCapabilities {
        mode: DeviceMode::Bootloader,
        flash_page_size: 4,
        max_message_size: 8,
    };
    let mut eng = SyncEngine::new(vec![Segment { target_address: 0x1000, bytes }]);
    eng.step(Event::Start).unwrap();
    let mut a = eng.step(Event::Info { caps }).unwrap();
    let mut starts = Vec::new();
    let mut counts = Vec::new();
    loop {
        match a {
            Action::QueryChecksums { target_address, num_pages } => {
                assert!(num_pages >= 1 && num_pages <= 2);
                starts.push(target_address);
                counts.push(num_pages);
                let first = ((target_address - 0x1000) / 4) as usize;
                let chunk = local[first..first + num_pages as usize].to_vec();
                a = eng.step(Event::Checksums { table: chunk }).unwrap();
            },
            Action::ResetToApplication => break,
            _ => panic!("unexpected action"),
        }
    }
    assert_eq!(starts, vec![0x1000, 0x1008, 0x1010]);
    assert_eq!(counts, vec![2, 2, 1]);
}

#[test]
fn short_checksum_table_is_a_protocol_error() {
    let (seg, _padded, local) = segment_600();
    let mut eng = SyncEngine::new(vec![seg]);
    eng.step(Event::Start).unwrap();
    let a = eng.step(Event::Info { caps: caps_bootloader() }).unwrap();
    assert!(matches!(a, Action::QueryChecksums { .. }));
    let short = local[..2].to_vec();
    let e = eng.step(Event::Checksums { table: short }).unwrap_err();
    assert_eq!(e, SyncError::ProtocolError);
}

#[test]
fn overlong_checksum_table_is_a_protocol_error() {
    let (seg, _padded, local) = segment_600();
    let mut eng = SyncEngine::new(vec![seg]);
    eng.step(Event::Start).unwrap();
    eng.step(Event::Info { caps: caps_bootloader() }).unwrap();
    let mut long = local.clone();
    long.push(0xBEEF);
    let e = eng.step(Event::Checksums { table: long }).unwrap_err();
    assert_eq!(e, SyncError::ProtocolError);
}

#[test]
fn zero_page_size_is_rejected() {
    let (seg, _padded, _local) = segment_600();
    let caps = DeviceCapabilities {
        mode: DeviceMode::Bootloader,
        flash_page_size: 0,
        max_message_size: 1024,
    };
    let mut eng = SyncEngine::new(vec![seg]);
    eng.step(Event::Start).unwrap();
    let e = eng.step(Event::Info { caps }).unwrap_err();
    assert_eq!(e, SyncError::InvalidDeviceCapabilities);
}

#[test]
fn tiny_message_size_is_rejected() {
    let (seg, _padded, _local) = segment_600();
    let caps = DeviceCapabilities {
        mode: DeviceMode::Bootloader,
        flash_page_size: 256,
        max_message_size: 4,
    };
    let mut eng = SyncEngine::new(vec![seg]);
    eng.step(Event::Start).unwrap();
    let e = eng.step(Event::Info { caps }).unwrap_err();
    assert_eq!(e, SyncError::InvalidDeviceCapabilities);
}

#[test]
fn segment_past_address_space_is_malformed() {
    let seg = Segment { target_address: 0xFFFF_FF00, bytes: vec![0u8; 512] };
    let mut eng = SyncEngine::new(vec![seg]);
    eng.step(Event::Start).unwrap();
    let e = eng.step(Event::Info { caps: caps_bootloader() }).unwrap_err();
    assert_eq!(e, SyncError::MalformedImage);
}

#[test]
fn empty_run_resets_straight_away() {
    let mut eng = SyncEngine::new(Vec::new());
    eng.step(Event::Start).unwrap();
    let a = eng.step(Event::Info { caps: caps_bootloader() }).unwrap();
    assert!(matches!(a, Action::ResetToApplication));
    let a = eng.step(Event::ResetSent).unwrap();
    assert!(matches!(a, Action::Done));
}

#[test]
fn two_segments_are_synced_in_order() {
    let bytes_a: Vec<u8> = vec![0xAA; 4];
    let bytes_b: Vec<u8> = vec![0xBB; 4];
    let local_a = page_checksums(&pad_to_page(&bytes_a, 4).unwrap(), 4);
    let local_b = page_checksums(&pad_to_page(&bytes_b, 4).unwrap(), 4);
    let caps = DeviceCapabilities {
        mode: DeviceMode::Bootloader,
        flash_page_size: 4,
        max_message_size: 64,
    };
    let segs = vec![
        Segment { target_address: 0x100, bytes: bytes_a.clone() },
        Segment { target_address: 0x200, bytes: bytes_b.clone() },
    ];
    let mut eng = SyncEngine::new(segs);
    eng.step(Event::Start).unwrap();
    let a = eng.step(Event::Info { caps }).unwrap();
    match a {
        Action::QueryChecksums { target_address, .. } => assert_eq!(target_address, 0x100),
        _ => panic!("expected first segment's query"),
    }
    // First segment matches: no write, straight to the second segment.
    let a = eng.step(Event::Checksums { table: local_a }).unwrap();
    match a {
        Action::QueryChecksums { target_address, .. } => assert_eq!(target_address, 0x200),
        _ => panic!("expected second segment's query"),
    }
    // Second segment differs: its one page is written, then the reset.
    let stale = vec![local_b[0].wrapping_add(1)];
    let a = eng.step(Event::Checksums { table: stale }).unwrap();
    match a {
        Action::WritePage { target_address, data } => {
            assert_eq!(target_address, 0x200);
            assert_eq!(data, bytes_b);
        },
        _ => panic!("expected a write for the second segment"),
    }
    let a = eng.step(Event::Ack).unwrap();
    assert!(matches!(a, Action::ResetToApplication));
}
