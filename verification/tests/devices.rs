use pci::details::{
    PciDeviceDetails, PciInspection, PciResource, RawDeviceInfo, check_scan_fields, details_from_raw,
    inspect_known_fields, unavailable, INSPECT_FIELDS, REQUIRED_INSPECT_FIELDS, SCAN_FIELDS,
};
use pci::config::{ConfigReadFailure, ConfigSegment, ConfigSpaceSnapshot};
use pci::device::{PciAddress, PciAddressParseError, PciDevice, PciSnapshot, parse_hex};
use pci::error::PciError;
use pci::field::{PciCapabilityChainStatus, PciCapabilityReport, PciField, PciFieldUnavailableReason};
use pci::header::{PciBarKind, PciBarType};
use pci::output::{render_inspection_text, render_text};
use pci::order::address_order;

fn address(domain: u16, bus: u8, slot: u8, function: u8) -> PciAddress {
    PciAddress { domain, bus, slot, function }
}

fn device(a: PciAddress, class_id: u16, name: &str) -> PciDevice {
    PciDevice {
        address: a,
        vendor_id: 0x8086,
        device_id: 0x1234,
        class_id,
        vendor_name: "Intel".to_string(),
        device_name: name.to_string(),
        class_name: "Class".to_string(),
    }
}

#[test]
fn address_text_form() {
    assert_eq!(address(0, 0, 0x1f, 3).to_string(), "0000:00:1f.3");
    assert_eq!(address(0xabcd, 0xef, 0x01, 7).to_string(), "abcd:ef:01.7");
    assert_eq!(address(1, 2, 3, 12).to_string(), "0001:02:03.12");
}

#[test]
fn parse_address() {
    assert_eq!(PciAddress::from_str("0000:00:1f.3"), Ok(address(0, 0, 0x1f, 3)));
    assert_eq!(PciAddress::from_str("ABCD:EF:1F.7"), Ok(address(0xabcd, 0xef, 0x1f, 7)));
    assert_eq!(PciAddress::from_str("0000:00:1f"), Err(PciAddressParseError));
    assert_eq!(PciAddress::from_str("0000-00:1f.3"), Err(PciAddressParseError));
    assert_eq!(PciAddress::from_str("0000:00:1f:3"), Err(PciAddressParseError));
    assert_eq!(PciAddress::from_str("000g:00:1f.3"), Err(PciAddressParseError));
    assert_eq!(PciAddress::from_str("0000:00:20.3"), Err(PciAddressParseError));
    assert_eq!(PciAddress::from_str("0000:00:1f.8"), Err(PciAddressParseError));
    assert_eq!(PciAddressParseError.message(), "Invalid PCI address; expected dddd:bb:ss.f");
    assert_eq!("0001:02:03.4".parse::<PciAddress>(), Ok(address(1, 2, 3, 4)));
}

#[test]
fn parse_inverts_text() {
    for a in [address(0, 0, 0, 0), address(0xffff, 0xff, 0x1f, 7), address(0x12, 0x3a, 0x0b, 5)] {
        assert_eq!(PciAddress::from_str(&a.to_string()), Ok(a));
    }
}

#[test]
fn parse_hex_digits() {
    assert_eq!(parse_hex(b"1f"), Ok(0x1f));
    assert_eq!(parse_hex(b"FfFf"), Ok(0xffff));
    assert_eq!(parse_hex(b""), Ok(0));
    assert_eq!(parse_hex(b"1x"), Err(PciAddressParseError));
}

#[test]
fn error_messages() {
    assert_eq!(PciError::Allocation.message(), "failed to allocate libpci context");
    assert_eq!(
        PciError::DeviceInfo { address: address(0, 3, 0, 1), known_fields: 0x21, requested_fields: 0x1f1037 }.message(),
        "failed to fill PCI device 0000:03:00.1: known fields=0x00000021, requested fields=0x001f1037"
    );
    assert_eq!(
        PciError::DeviceNotFound { address: address(0, 3, 0, 1) }.message(),
        "PCI device 0000:03:00.1 not found"
    );
    assert_eq!(PciError::Message("boom".to_string()).message(), "boom");
}

#[test]
fn fill_checks() {
    let a = address(0, 1, 2, 3);
    assert_eq!(INSPECT_FIELDS, 0x001e_1037);
    assert_eq!(REQUIRED_INSPECT_FIELDS, 0x21);
    assert!(matches!(inspect_known_fields(a, 0x21), Ok(0x21)));
    match inspect_known_fields(a, -1) {
        Err(PciError::DeviceInfo { address, known_fields, requested_fields }) => {
            assert_eq!(address, a);
            assert_eq!(known_fields, 0xffff_ffff);
            assert_eq!(requested_fields, INSPECT_FIELDS);
        }
        other => panic!("unexpected {other:?}"),
    }
    match inspect_known_fields(a, 0x01) {
        Err(PciError::DeviceInfo { known_fields, requested_fields, .. }) => {
            assert_eq!(known_fields, 0x01);
            assert_eq!(requested_fields, REQUIRED_INSPECT_FIELDS);
        }
        other => panic!("unexpected {other:?}"),
    }
    assert!(check_scan_fields(a, 0x21).is_ok());
    match check_scan_fields(a, 0x20) {
        Err(PciError::DeviceInfo { requested_fields, .. }) => assert_eq!(requested_fields, SCAN_FIELDS),
        other => panic!("unexpected {other:?}"),
    }
}

fn raw(known_fields: u32) -> RawDeviceInfo {
    RawDeviceInfo {
        known_fields,
        revision: 0x04,
        programming_interface: 0x30,
        subsystem_vendor_id: 0x17aa,
        subsystem_device_id: 0x2233,
        parent: Some(address(0, 0, 0x1c, 0)),
        irq: 16,
        driver: Some("xhci_hcd".to_string()),
        base_addr: [0xfe20_000c, 0xe001, 0, 0, 0, 0],
        size: [0x1_0000, 0x20, 0, 0, 0, 0],
        flags: [0x0014_0204, 0x0004_0101, 0, 0, 0, 0],
    }
}

fn header_snapshot() -> ConfigSpaceSnapshot {
    let mut bytes = vec![0u8; 0x40];
    bytes[0x04] = 0x06;
    bytes[0x06] = 0x10;
    bytes[0x10] = 0x0c;
    bytes[0x14] = 0x01;
    ConfigSpaceSnapshot { requested: 0..0x40, segments: vec![ConfigSegment { offset: 0, bytes }], failures: vec![] }
}

#[test]
fn details_when_everything_is_known() {
    let details = details_from_raw(raw(INSPECT_FIELDS), PciField::NotApplicable, &header_snapshot());
    assert_eq!(details.revision, PciField::Available(0x04));
    assert_eq!(details.programming_interface, PciField::Available(0x30));
    assert_eq!(details.subsystem_vendor_id, PciField::Available(0x17aa));
    assert_eq!(details.subsystem_device_id, PciField::Available(0x2233));
    assert_eq!(details.parent, PciField::Available(address(0, 0, 0x1c, 0)));
    assert_eq!(details.irq, PciField::Available(16));
    assert_eq!(details.driver, PciField::Available("xhci_hcd".to_string()));
    assert_eq!(
        details.resources,
        PciField::Available(vec![
            PciResource {
                index: 0,
                start: 0xfe20_0000,
                size: 0x1_0000,
                flags: 0x0014_0204,
                bar_type: Some(PciBarType { kind: PciBarKind::Memory, is_64_bit: true, prefetchable: true }),
            },
            PciResource {
                index: 1,
                start: 0xe000,
                size: 0x20,
                flags: 0x0004_0101,
                bar_type: Some(PciBarType { kind: PciBarKind::Io, is_64_bit: false, prefetchable: false }),
            },
        ])
    );
    match details.command {
        PciField::Available(command) => {
            assert!(command.memory_space);
            assert!(command.bus_master);
            assert!(!command.io_space);
        }
        other => panic!("unexpected {other:?}"),
    }
    match details.status {
        PciField::Available(status) => assert!(status.capabilities_list),
        other => panic!("unexpected {other:?}"),
    }
    assert_eq!(details.capabilities, PciField::NotApplicable);
}

#[test]
fn details_when_little_is_known() {
    let mut info = raw(0x21);
    info.irq = -1;
    let empty = ConfigSpaceSnapshot { requested: 0..0x40, segments: vec![], failures: vec![] };
    let details = details_from_raw(info, PciField::NotApplicable, &empty);
    assert_eq!(details.revision, unavailable());
    assert_eq!(details.parent, unavailable());
    assert_eq!(details.irq, unavailable());
    assert_eq!(details.driver, unavailable());
    assert_eq!(details.resources, unavailable());
    assert_eq!(details.command, PciField::Unavailable { reason: PciFieldUnavailableReason::ReadError });

    let mut info = raw(INSPECT_FIELDS);
    info.irq = -1;
    info.parent = None;
    info.driver = None;
    info.base_addr = [0; 6];
    info.size = [0; 6];
    info.flags = [0; 6];
    let details = details_from_raw(info, PciField::NotApplicable, &empty);
    assert_eq!(details.irq, PciField::NotApplicable);
    assert_eq!(details.parent, PciField::NotApplicable);
    assert_eq!(details.driver, PciField::Unavailable { reason: PciFieldUnavailableReason::NotBound });
    assert_eq!(details.resources, PciField::NotApplicable);
}

#[test]
fn device_list_in_address_order() {
    let snapshot = PciSnapshot::from_devices(vec![
        device(address(0, 2, 0, 0), 0x0200, "Net"),
        device(address(0, 0, 0x1f, 3), 0x0403, "Audio"),
        device(address(0, 0, 0, 0), 0x0600, "Host"),
    ]);
    assert_eq!(snapshot.devices().len(), 3);
    assert_eq!(address_order(snapshot.devices()), vec![2, 1, 0]);
    assert_eq!(
        render_text(&snapshot),
        "0000:00:00.0 vendor=0x8086 device=0x1234 class=0x0600 Intel / Host / Class\n\
         0000:00:1f.3 vendor=0x8086 device=0x1234 class=0x0403 Intel / Audio / Class\n\
         0000:02:00.0 vendor=0x8086 device=0x1234 class=0x0200 Intel / Net / Class\n"
    );
}

#[test]
fn address_order_is_stable() {
    let devices = vec![
        device(address(0, 1, 0, 0), 0, "b"),
        device(address(0, 0, 0, 0), 0, "a"),
        device(address(0, 1, 0, 0), 0, "c"),
    ];
    assert_eq!(address_order(&devices), vec![1, 0, 2]);
}

fn sample_inspection() -> PciInspection {
    let report = PciCapabilityReport {
        standard: vec![pci::field::PciCapability {
            id: 0x10,
            kind: pci::field::PciCapabilityKind::Standard,
            offset: 0x40,
            next: None,
            state: pci::field::PciCapabilityState::Valid,
            content: None,
        }],
        extended: vec![],
        standard_status: PciCapabilityChainStatus::Complete,
        extended_status: PciCapabilityChainStatus::NotPresent,
    };
    PciInspection {
        device: device(address(0, 0, 0x14, 0), 0x0c03, "USB"),
        details: PciDeviceDetails {
            revision: PciField::Available(4),
            programming_interface: PciField::Available(0x30),
            subsystem_vendor_id: PciField::Available(0x17aa),
            subsystem_device_id: PciField::NotApplicable,
            parent: PciField::NotApplicable,
            irq: PciField::Unavailable { reason: PciFieldUnavailableReason::Unknown },
            driver: PciField::Available("xhci_hcd".to_string()),
            resources: PciField::Available(vec![PciResource {
                index: 0,
                start: 0xfe20_0000,
                size: 0x1_0000,
                flags: 0x0014_0204,
                bar_type: None,
            }]),
            capabilities: PciField::Available(report),
            command: PciField::NotApplicable,
            status: PciField::NotApplicable,
        },
    }
}

#[test]
fn inspection_as_text() {
    let text = render_inspection_text(&sample_inspection(), None);
    assert_eq!(
        text,
        "PCI device 0000:00:14.0\n\
         \x20 vendor: 0x8086 Intel\n\
         \x20 device: 0x1234 USB\n\
         \x20 class: 0x0c03 Class\n\
         \x20 revision: 4\n\
         \x20 programming interface: 48\n\
         \x20 subsystem vendor: 0x17aa\n\
         \x20 subsystem device: <not-applicable>\n\
         \x20 parent: <not_available>\n\
         \x20 irq: <unavailable: Unknown>\n\
         \x20 driver: xhci_hcd\n\
         \x20 resources:\n\
         \x20   BAR0 start=0xfe200000 size=0x10000 flags=0x140204\n\
         \x20 capabilities:\n\
         \x20   standard: chain=complete\n\
         \x20     standard id=0x0010 offset=0x040 next=none state=Valid\n\
         \x20   extended: chain=not-present\n"
    );
}

#[test]
fn inspection_with_config_space() {
    let config = ConfigSpaceSnapshot {
        requested: 0..0x40,
        segments: vec![ConfigSegment { offset: 0, bytes: (0u8..18).collect() }],
        failures: vec![ConfigReadFailure { offset: 0x20, length: 0x20, reason: PciFieldUnavailableReason::ReadError }],
    };
    let text = render_inspection_text(&sample_inspection(), Some(&config));
    assert!(text.ends_with(
        "config-space:\n\
         \x20 requested: 0x000..0x040\n\
         \x20 0000: 00 01 02 03 04 05 06 07 08 09 0a 0b 0c 0d 0e 0f\n\
         \x20 0010: 10 11\n\
         \x20 unavailable: 0x020..0x040 <ReadError>\n"
    ));
}
