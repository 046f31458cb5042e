use pci::capability::{ChainKind, ChainWalk, malformed_start};
use pci::config::{ConfigReadFailure, ConfigReadLevel, ConfigSegment, ConfigSpaceSnapshot};
use pci::field::{
    PciCapabilityChainStatus, PciCapabilityKind, PciCapabilityMalformedReason, PciCapabilityState, PciField,
    PciFieldUnavailableReason,
};
use pci::reader::{BlockRead, ConfigSpaceReader};
use pci::scan::{CapabilityScan, capabilities_from_report};
use pci::decoders::PciCapabilityContent;

fn full_snapshot(image: Vec<u8>) -> ConfigSpaceSnapshot {
    ConfigSpaceSnapshot {
        requested: 0..image.len() as u32,
        segments: vec![ConfigSegment { offset: 0, bytes: image }],
        failures: vec![],
    }
}

/// A device whose standard list holds power management at 0x40 and MSI at
/// 0x50, and whose extended list holds AER at 0x100.
fn sample_image() -> Vec<u8> {
    let mut image = vec![0u8; 0x1000];
    image[0x00] = 0x86;
    image[0x01] = 0x80;
    image[0x06] = 0x10;
    image[0x34] = 0x40;
    image[0x40] = 0x01;
    image[0x41] = 0x50;
    image[0x42] = 0x03;
    image[0x44] = 0x08;
    image[0x50] = 0x05;
    image[0x51] = 0x00;
    image[0x52] = 0x01;
    image[0x54] = 0x00;
    image[0x55] = 0x10;
    image[0x56] = 0xe0;
    image[0x57] = 0xfe;
    image[0x58] = 0x34;
    image[0x59] = 0x12;
    image[0x100] = 0x01;
    image[0x101] = 0x00;
    image[0x102] = 0x01;
    image[0x103] = 0x00;
    image
}

fn run_scan(image: &[u8], fails: impl Fn(u32, u32) -> bool) -> (Option<PciField<pci::field::PciCapabilityReport>>, ConfigSpaceSnapshot) {
    let mut scan = CapabilityScan::new();
    let mut steps = 0;
    while let Some(block) = scan.next_read() {
        steps += 1;
        assert!(steps < 10_000);
        let start = block.offset as usize;
        let end = start + block.length as usize;
        if fails(block.offset, block.length) || end > image.len() {
            scan.complete_read(None);
        } else {
            scan.complete_read(Some(image[start..end].to_vec()));
        }
    }
    let snapshot = scan.snapshot().clone();
    (scan.into_result(), snapshot)
}

#[test]
fn read_level_ranges() {
    assert_eq!(ConfigReadLevel::Header.range(), 0..0x40);
    assert_eq!(ConfigReadLevel::Standard.range(), 0..0x100);
    assert_eq!(ConfigReadLevel::Extended.range(), 0..0x1000);
}

#[test]
fn snapshot_read_inside_and_across_segments() {
    let snapshot = ConfigSpaceSnapshot {
        requested: 0..0x40,
        segments: vec![
            ConfigSegment { offset: 0, bytes: vec![1, 2, 3, 4] },
            ConfigSegment { offset: 8, bytes: vec![9, 10] },
        ],
        failures: vec![ConfigReadFailure { offset: 4, length: 4, reason: PciFieldUnavailableReason::ReadError }],
    };
    assert_eq!(snapshot.read(1, 2), Ok(vec![2, 3]));
    assert_eq!(snapshot.read(8, 2), Ok(vec![9, 10]));
    assert_eq!(
        snapshot.read(2, 4),
        Err(ConfigReadFailure { offset: 4, length: 4, reason: PciFieldUnavailableReason::ReadError })
    );
    assert_eq!(
        snapshot.read(10, 2),
        Err(ConfigReadFailure { offset: 10, length: 2, reason: PciFieldUnavailableReason::ReadError })
    );
    assert_eq!(
        snapshot.read(0, 0),
        Err(ConfigReadFailure { offset: 0, length: 0, reason: PciFieldUnavailableReason::ReadError })
    );
}

#[test]
fn insert_segment_merges_neighbours() {
    let mut reader = ConfigSpaceReader::new(0..0x100);
    for (offset, bytes) in [(0u32, vec![1u8, 2]), (4, vec![5, 6]), (2, vec![3, 4])] {
        reader.begin_fetch(offset, bytes.len() as u32);
        assert_eq!(reader.next_block(), Some(BlockRead { offset, length: bytes.len() as u32 }));
        reader.complete_block(Some(bytes));
        assert_eq!(reader.next_block(), None);
    }
    assert_eq!(reader.snapshot().segments, vec![ConfigSegment { offset: 0, bytes: vec![1, 2, 3, 4, 5, 6] }]);

    let mut apart = ConfigSpaceReader::new(0..0x100);
    for (offset, bytes) in [(0u32, vec![1u8]), (4, vec![7])] {
        apart.begin_fetch(offset, 1);
        apart.next_block();
        apart.complete_block(Some(bytes));
    }
    assert_eq!(
        apart.snapshot().segments,
        vec![ConfigSegment { offset: 0, bytes: vec![1] }, ConfigSegment { offset: 4, bytes: vec![7] }]
    );
}

#[test]
fn reader_reads_a_range_in_one_block() {
    let mut reader = ConfigSpaceReader::new(0..0x100);
    reader.begin_fetch(0, 0x10);
    let block = reader.next_block().unwrap();
    assert_eq!(block, BlockRead { offset: 0, length: 0x10 });
    reader.complete_block(Some((0u8..0x10).collect()));
    assert_eq!(reader.next_block(), None);
    assert_eq!(reader.fetch_result(), Ok(()));
    assert_eq!(reader.read_fetched(4, 2), Ok(vec![4, 5]));
    assert_eq!(reader.snapshot().segments, vec![ConfigSegment { offset: 0, bytes: (0u8..0x10).collect() }]);
}

#[test]
fn reader_splits_a_failed_block_before_recording_a_failure() {
    let mut reader = ConfigSpaceReader::new(0..0x100);
    reader.begin_fetch(0, 0x40);
    assert_eq!(reader.next_block(), Some(BlockRead { offset: 0, length: 0x40 }));
    reader.complete_block(None);
    assert_eq!(reader.next_block(), Some(BlockRead { offset: 0, length: 0x20 }));
    reader.complete_block(Some(vec![0xaa; 0x20]));
    assert_eq!(reader.next_block(), Some(BlockRead { offset: 0x20, length: 0x20 }));
    reader.complete_block(None);
    assert_eq!(reader.next_block(), Some(BlockRead { offset: 0x20, length: 0x10 }));
    reader.complete_block(None);
    assert_eq!(reader.next_block(), Some(BlockRead { offset: 0x30, length: 0x10 }));
    reader.complete_block(Some(vec![0xbb; 0x10]));
    assert_eq!(reader.next_block(), None);
    let failure = ConfigReadFailure { offset: 0x20, length: 0x10, reason: PciFieldUnavailableReason::ReadError };
    assert_eq!(reader.fetch_result(), Err(failure));
    assert_eq!(reader.snapshot().failures, vec![failure]);
    assert_eq!(reader.read_fetched(0, 2), Err(failure));
    assert_eq!(reader.snapshot().read(0x30, 1), Ok(vec![0xbb]));
}

#[test]
fn reader_treats_short_data_as_a_failed_read() {
    let mut reader = ConfigSpaceReader::new(0..0x100);
    reader.begin_fetch(0x10, 4);
    assert_eq!(reader.next_block(), Some(BlockRead { offset: 0x10, length: 4 }));
    reader.complete_block(Some(vec![1, 2]));
    assert_eq!(reader.next_block(), None);
    assert_eq!(
        reader.fetch_result(),
        Err(ConfigReadFailure { offset: 0x10, length: 4, reason: PciFieldUnavailableReason::ReadError })
    );
}

#[test]
fn reader_refuses_an_empty_range() {
    let mut reader = ConfigSpaceReader::new(0..0x100);
    reader.begin_fetch(8, 0);
    assert_eq!(reader.next_block(), None);
    assert_eq!(
        reader.fetch_result(),
        Err(ConfigReadFailure { offset: 8, length: 0, reason: PciFieldUnavailableReason::ReadError })
    );
}

#[test]
fn reader_reads_only_the_gaps() {
    let mut reader = ConfigSpaceReader::new(0..0x100);
    reader.begin_fetch(4, 4);
    reader.next_block();
    reader.complete_block(Some(vec![4, 5, 6, 7]));
    assert_eq!(reader.next_block(), None);
    reader.begin_fetch(0, 0x10);
    assert_eq!(reader.next_block(), Some(BlockRead { offset: 0, length: 4 }));
    reader.complete_block(Some(vec![0, 1, 2, 3]));
    assert_eq!(reader.next_block(), Some(BlockRead { offset: 8, length: 8 }));
    reader.complete_block(Some(vec![8, 9, 10, 11, 12, 13, 14, 15]));
    assert_eq!(reader.next_block(), None);
    assert_eq!(reader.read_fetched(0, 0x10), Ok((0u8..0x10).collect()));
}

#[test]
fn standard_walk_lists_the_chain() {
    let snapshot = full_snapshot(sample_image());
    let mut walk = ChainWalk::standard(&snapshot);
    let mut guard = 0;
    while walk.pending_read().is_some() {
        walk.advance(&snapshot);
        guard += 1;
        assert!(guard < 100);
    }
    let discovery = walk.into_discovery().unwrap();
    assert_eq!(discovery.status, PciCapabilityChainStatus::Complete);
    assert_eq!(discovery.capabilities.len(), 2);
    assert_eq!(discovery.capabilities[0].id, 0x01);
    assert_eq!(discovery.capabilities[0].offset, 0x40);
    assert_eq!(discovery.capabilities[0].next, Some(0x50));
    assert_eq!(discovery.capabilities[1].id, 0x05);
    assert_eq!(discovery.capabilities[1].next, None);
    assert_eq!(discovery.capabilities[1].kind, PciCapabilityKind::Standard);
}

fn walk_to_end(kind_standard: bool, snapshot: &ConfigSpaceSnapshot) -> pci::capability::ChainDiscovery {
    let mut walk = if kind_standard { ChainWalk::standard(snapshot) } else { ChainWalk::extended() };
    let mut guard = 0;
    while walk.pending_read().is_some() {
        walk.advance(snapshot);
        guard += 1;
        assert!(guard < 1000);
    }
    walk.into_discovery().unwrap()
}

#[test]
fn standard_walk_detects_a_cycle() {
    let mut image = sample_image();
    image[0x51] = 0x40;
    image[0x41] = 0x50;
    let discovery = walk_to_end(true, &full_snapshot(image));
    assert_eq!(discovery.capabilities.len(), 2);
    assert_eq!(
        discovery.status,
        PciCapabilityChainStatus::Malformed(PciCapabilityMalformedReason::CycleDetected)
    );
}

#[test]
fn standard_walk_reports_bad_pointers() {
    let mut image = sample_image();
    image[0x41] = 0x52;
    let discovery = walk_to_end(true, &full_snapshot(image.clone()));
    assert_eq!(discovery.capabilities.len(), 1);
    assert_eq!(
        discovery.status,
        PciCapabilityChainStatus::Malformed(PciCapabilityMalformedReason::MisalignedOffset)
    );
    image[0x41] = 0x20;
    let discovery = walk_to_end(true, &full_snapshot(image.clone()));
    assert_eq!(
        discovery.status,
        PciCapabilityChainStatus::Malformed(PciCapabilityMalformedReason::OffsetOutOfRange)
    );
    image[0x41] = 0x60;
    let discovery = walk_to_end(true, &full_snapshot(image));
    assert_eq!(discovery.capabilities.len(), 1);
    assert_eq!(
        discovery.status,
        PciCapabilityChainStatus::Malformed(PciCapabilityMalformedReason::MissingHeader)
    );
}

#[test]
fn standard_walk_without_capabilities() {
    let mut image = sample_image();
    image[0x06] = 0x00;
    let discovery = walk_to_end(true, &full_snapshot(image.clone()));
    assert_eq!(discovery.status, PciCapabilityChainStatus::NotPresent);
    image[0x06] = 0x10;
    image[0x34] = 0x00;
    let discovery = walk_to_end(true, &full_snapshot(image));
    assert_eq!(
        discovery.status,
        PciCapabilityChainStatus::Malformed(PciCapabilityMalformedReason::InvalidNextPointer)
    );
    let empty = ConfigSpaceSnapshot { requested: 0..0x40, segments: vec![], failures: vec![] };
    let discovery = walk_to_end(true, &empty);
    assert_eq!(
        discovery.status,
        PciCapabilityChainStatus::Unavailable(PciFieldUnavailableReason::ReadError)
    );
}

#[test]
fn extended_walk_of_an_absent_list() {
    let image = vec![0u8; 0x1000];
    let discovery = walk_to_end(false, &full_snapshot(image));
    assert_eq!(discovery.status, PciCapabilityChainStatus::NotPresent);
    assert!(discovery.capabilities.is_empty());
}

#[test]
fn extended_walk_lists_the_chain() {
    let mut image = sample_image();
    image[0x102] = 0x01;
    image[0x103] = 0x14;
    image[0x140] = 0x03;
    image[0x142] = 0x01;
    let discovery = walk_to_end(false, &full_snapshot(image));
    assert_eq!(discovery.status, PciCapabilityChainStatus::Complete);
    assert_eq!(discovery.capabilities.len(), 2);
    assert_eq!(discovery.capabilities[0].next, Some(0x140));
    assert_eq!(discovery.capabilities[1].id, 0x03);
    assert_eq!(discovery.capabilities[1].kind, PciCapabilityKind::Extended);
}

#[test]
fn malformed_start_reasons() {
    assert_eq!(
        malformed_start(ChainKind::Standard, 0),
        PciCapabilityChainStatus::Malformed(PciCapabilityMalformedReason::InvalidNextPointer)
    );
    assert_eq!(
        malformed_start(ChainKind::Standard, 0x20),
        PciCapabilityChainStatus::Malformed(PciCapabilityMalformedReason::OffsetOutOfRange)
    );
    assert_eq!(
        malformed_start(ChainKind::Extended, 0x102),
        PciCapabilityChainStatus::Malformed(PciCapabilityMalformedReason::MisalignedOffset)
    );
}

#[test]
fn scan_discovers_and_decodes_standard_capabilities() {
    let image = sample_image();
    let (result, snapshot) = run_scan(&image, |_, _| false);
    let report = match result {
        Some(PciField::Available(report)) => report,
        other => panic!("unexpected {other:?}"),
    };
    assert_eq!(report.standard_status, PciCapabilityChainStatus::Complete);
    assert_eq!(report.extended_status, PciCapabilityChainStatus::Complete);
    assert_eq!(report.standard.len(), 2);
    match &report.standard[0].content {
        Some(PciCapabilityContent::Pm(pm)) => {
            assert_eq!(pm.version, 3);
            assert!(pm.no_soft_reset);
            assert_eq!(pm.power_state, 0);
        }
        other => panic!("unexpected {other:?}"),
    }
    match &report.standard[1].content {
        Some(PciCapabilityContent::Msi(msi)) => {
            assert!(msi.enable);
            assert!(!msi.is_64_bit);
            assert_eq!(msi.address, 0xfee0_1000);
            assert_eq!(msi.data, 0x1234);
        }
        other => panic!("unexpected {other:?}"),
    }
    assert_eq!(report.extended.len(), 1);
    assert_eq!(report.extended[0].id, 0x0001);
    assert_eq!(report.extended[0].content, None);
    assert_eq!(snapshot.read(0, 2), Ok(vec![0x86, 0x80]));
}

#[test]
fn scan_with_an_unreadable_header() {
    let image = sample_image();
    let (result, _) = run_scan(&image, |offset, _| offset < 0x40);
    assert_eq!(
        result,
        Some(PciField::Unavailable { reason: PciFieldUnavailableReason::ReadError })
    );
}

#[test]
fn scan_without_any_list_is_not_applicable() {
    let image = vec![0u8; 0x1000];
    let (result, _) = run_scan(&image, |_, _| false);
    assert_eq!(result, Some(PciField::NotApplicable));
}

#[test]
fn scan_marks_unreadable_registers_truncated() {
    let image = sample_image();
    let (result, _) = run_scan(&image, |offset, length| offset < 0x60 && offset + length > 0x52 && offset >= 0x50);
    let report = match result {
        Some(PciField::Available(report)) => report,
        other => panic!("unexpected {other:?}"),
    };
    assert_eq!(report.standard.len(), 2);
    assert!(report.standard[0].content.is_some());
    assert_eq!(report.standard[1].state, PciCapabilityState::Truncated);
    assert_eq!(report.standard[1].content, None);
}

#[test]
fn capabilities_field_from_report() {
    let report = pci::field::PciCapabilityReport {
        standard: vec![],
        extended: vec![],
        standard_status: PciCapabilityChainStatus::Unavailable(PciFieldUnavailableReason::PermissionDenied),
        extended_status: PciCapabilityChainStatus::NotPresent,
    };
    assert_eq!(
        capabilities_from_report(report.clone(), false),
        PciField::Unavailable { reason: PciFieldUnavailableReason::PermissionDenied }
    );
    let absent = pci::field::PciCapabilityReport {
        standard_status: PciCapabilityChainStatus::NotPresent,
        ..report.clone()
    };
    assert_eq!(capabilities_from_report(absent.clone(), true), PciField::NotApplicable);
    assert_eq!(
        capabilities_from_report(absent.clone(), false),
        PciField::Unavailable { reason: PciFieldUnavailableReason::ReadError }
    );
    let present = pci::field::PciCapabilityReport {
        standard_status: PciCapabilityChainStatus::Complete,
        ..absent
    };
    assert_eq!(capabilities_from_report(present.clone(), true), PciField::Available(present));
}

#[test]
fn scan_fetches_vendor_payloads() {
    let mut image = vec![0u8; 0x1000];
    image[0x06] = 0x10;
    image[0x34] = 0x40;
    image[0x40] = 0x09;
    image[0x41] = 0x00;
    image[0x42] = 0x60;
    for (k, byte) in image[0x43..0xa3].iter_mut().enumerate() {
        *byte = k as u8 + 1;
    }
    let (result, snapshot) = run_scan(&image, |_, _| false);
    let report = match result {
        Some(PciField::Available(report)) => report,
        other => panic!("unexpected {other:?}"),
    };
    assert_eq!(report.standard.len(), 1);
    assert_eq!(report.standard[0].id, 0x09);
    assert_eq!(snapshot.read(0x9f, 4), Ok(vec![0x5d, 0x5e, 0x5f, 0x60]));
    assert!(snapshot.read(0xa3, 1).is_err());
    assert!(snapshot.read(0xc0, 1).is_err());
}
