use pci::decoders::pcie::decode_pcie;
use pci::decoders::sriov::{SriovVfBar, SriovVfBarKind, decode_sriov};
use pci::config::{ConfigSegment, ConfigSpaceSnapshot};
use pci::decoders::aer::decode_aer;
use pci::decoders::msi::decode_msi;
use pci::decoders::msix::decode_msix;
use pci::decoders::pm::decode_pm;
use pci::decoders::vendor::decode_vendor_specific;
use pci::decoders::{decode_capability, decodes, PciCapabilityContent};
use pci::field::PciCapabilityKind;
use pci::header::{PciBarKind, PciBarType, decode_bar_type, decode_command, decode_status};
use pci::names::capability_name;

fn snapshot(image: Vec<u8>) -> ConfigSpaceSnapshot {
    ConfigSpaceSnapshot {
        requested: 0..image.len() as u32,
        segments: vec![ConfigSegment { offset: 0, bytes: image }],
        failures: vec![],
    }
}

fn put_u16(image: &mut [u8], at: usize, v: u16) {
    image[at..at + 2].copy_from_slice(&v.to_le_bytes());
}

fn put_u32(image: &mut [u8], at: usize, v: u32) {
    image[at..at + 4].copy_from_slice(&v.to_le_bytes());
}

#[test]
fn power_management_registers() {
    let mut image = vec![0u8; 0x100];
    put_u16(&mut image, 0x42, 0xcac3);
    put_u16(&mut image, 0x44, 0x8103);
    let pm = decode_pm(&snapshot(image), 0x40).unwrap();
    assert_eq!(pm.version, 3);
    assert!(!pm.pme_clock);
    assert!(!pm.dsi);
    assert_eq!(pm.aux_current, 3);
    assert!(pm.d1_support);
    assert!(!pm.d2_support);
    assert_eq!(pm.pme_support, 0x19);
    assert_eq!(pm.power_state, 3);
    assert!(!pm.no_soft_reset);
    assert!(pm.pme_enable);
    assert_eq!(pm.data_select, 0);
    assert!(pm.pme_status);
}

#[test]
fn power_management_unreadable() {
    let partial = ConfigSpaceSnapshot {
        requested: 0..0x100,
        segments: vec![ConfigSegment { offset: 0, bytes: vec![0; 0x44] }],
        failures: vec![],
    };
    assert_eq!(decode_pm(&partial, 0x40), None);
}

#[test]
fn msi_with_64_bit_address() {
    let mut image = vec![0u8; 0x100];
    put_u16(&mut image, 0x52, 0x0187);
    put_u32(&mut image, 0x54, 0xfee0_0000);
    put_u32(&mut image, 0x58, 0x0000_0001);
    put_u16(&mut image, 0x5c, 0x4021);
    let msi = decode_msi(&snapshot(image), 0x50).unwrap();
    assert!(msi.enable);
    assert_eq!(msi.multiple_message_capable, 3);
    assert_eq!(msi.multiple_message_enable, 0);
    assert!(msi.is_64_bit);
    assert!(msi.per_vector_masking);
    assert_eq!(msi.address, 0x1_fee0_0000);
    assert_eq!(msi.data, 0x4021);
}

#[test]
fn msix_table_and_pba() {
    let mut image = vec![0u8; 0x100];
    put_u16(&mut image, 0x72, 0xc00f);
    put_u32(&mut image, 0x74, 0x0000_2004);
    put_u32(&mut image, 0x78, 0x0000_3004);
    let msix = decode_msix(&snapshot(image), 0x70).unwrap();
    assert!(msix.enable);
    assert!(msix.masked);
    assert_eq!(msix.count, 16);
    assert_eq!(msix.table_bar, 4);
    assert_eq!(msix.table_offset, 0x2000);
    assert_eq!(msix.pba_bar, 4);
    assert_eq!(msix.pba_offset, 0x3000);
}

#[test]
fn aer_of_an_endpoint() {
    let mut image = vec![0u8; 0x1000];
    put_u32(&mut image, 0x100, 0x0002_0001);
    put_u32(&mut image, 0x104, 0x10);
    put_u32(&mut image, 0x108, 0x20);
    put_u32(&mut image, 0x10c, 0x30);
    put_u32(&mut image, 0x110, 0x40);
    put_u32(&mut image, 0x114, 0x50);
    put_u32(&mut image, 0x118, 0x0000_0a00);
    put_u32(&mut image, 0x11c, 1);
    put_u32(&mut image, 0x128, 4);
    let aer = decode_aer(&snapshot(image), 0x100).unwrap();
    assert_eq!(aer.version, 2);
    assert_eq!(aer.ue_status, 0x10);
    assert_eq!(aer.ue_mask, 0x20);
    assert_eq!(aer.ue_severity, 0x30);
    assert_eq!(aer.ce_status, 0x40);
    assert_eq!(aer.ce_mask, 0x50);
    assert_eq!(aer.first_error_pointer, 0x0a);
    assert_eq!(aer.header_log, [1, 0, 0, 4]);
    assert_eq!(aer.root, None);
}

#[test]
fn vendor_specific_payload() {
    let mut image = vec![0u8; 0x100];
    image[0x82] = 3;
    image[0x83] = 0xaa;
    image[0x84] = 0xbb;
    image[0x85] = 0xcc;
    let v = decode_vendor_specific(&snapshot(image), 0x80).unwrap();
    assert_eq!(v.length, 3);
    assert_eq!(v.data, vec![0xaa, 0xbb, 0xcc]);
}

#[test]
fn dispatch_by_kind_and_id() {
    let mut image = vec![0u8; 0x100];
    put_u16(&mut image, 0x42, 0x0003);
    let s = snapshot(image);
    assert!(matches!(decode_capability(&s, PciCapabilityKind::Standard, 0x01, 0x40), Some(PciCapabilityContent::Pm(_))));
    assert!(matches!(
        decode_capability(&s, PciCapabilityKind::Standard, 0x0c, 0x40),
        Some(PciCapabilityContent::HotPlug(_))
    ));
    assert_eq!(decode_capability(&s, PciCapabilityKind::Standard, 0x02, 0x40), None);
    assert_eq!(decode_capability(&s, PciCapabilityKind::Unknown(1), 0x01, 0x40), None);
    assert!(decodes(PciCapabilityKind::Extended, 0x0d));
    assert!(!decodes(PciCapabilityKind::Extended, 0x04));
}

#[test]
fn capability_names() {
    assert_eq!(capability_name(&PciCapabilityKind::Standard, 0x10), "pcie");
    assert_eq!(capability_name(&PciCapabilityKind::Standard, 0x11), "msi-x");
    assert_eq!(capability_name(&PciCapabilityKind::Standard, 0x20), "unknown");
    assert_eq!(capability_name(&PciCapabilityKind::Extended, 0x000d), "sr-iov");
    assert_eq!(capability_name(&PciCapabilityKind::Extended, 0x0023), "doe");
    assert_eq!(capability_name(&PciCapabilityKind::Unknown(5), 0x01), "unknown");
}

#[test]
fn header_registers() {
    let command = decode_command(0x0407);
    assert!(command.io_space && command.memory_space && command.bus_master);
    assert!(command.interrupt_disable);
    assert!(!command.serr_enable);
    let status = decode_status(0x0290);
    assert!(status.capabilities_list);
    assert!(status.capable_fast_back_to_back);
    assert_eq!(status.devsel_timing, 1);
    assert!(!status.detected_parity_error);
    assert_eq!(decode_bar_type(0xe001), PciBarType { kind: PciBarKind::Io, is_64_bit: false, prefetchable: false });
    assert_eq!(
        decode_bar_type(0xfe00_000c),
        PciBarType { kind: PciBarKind::Memory, is_64_bit: true, prefetchable: true }
    );
    assert_eq!(
        decode_bar_type(0xfe00_0000),
        PciBarType { kind: PciBarKind::Memory, is_64_bit: false, prefetchable: false }
    );
}

#[test]
fn pcie_endpoint_link() {
    let mut image = vec![0u8; 0x100];
    put_u16(&mut image, 0x42, 0x0002);
    put_u32(&mut image, 0x4c, 0x0040_4c43);
    put_u16(&mut image, 0x52, 0x1043);
    let pcie = decode_pcie(&snapshot(image), 0x40).unwrap();
    assert_eq!(pcie.version, 2);
    assert_eq!(pcie.device_type, 0);
    assert!(!pcie.slot_implemented);
    assert_eq!(pcie.lnk_cap.max_speed, 3);
    assert_eq!(pcie.lnk_cap.max_width, 4);
    assert_eq!(pcie.lnk_cap.aspm, 3);
    assert!(pcie.lnk_cap.link_bw_notif == false);
    assert!(pcie.lnk_cap.aspm_opt_compliance);
    assert_eq!(pcie.lnk_sta.speed, 3);
    assert_eq!(pcie.lnk_sta.width, 4);
    assert!(pcie.lnk_sta.slot_clock);
    assert_eq!(pcie.slot_cap, None);
    assert_eq!(pcie.root_ctl, None);
    assert!(pcie.dev_cap2.is_some());
}

#[test]
fn sriov_with_a_64_bit_vf_bar() {
    let mut image = vec![0u8; 0x1000];
    put_u16(&mut image, 0x18e, 8);
    put_u16(&mut image, 0x190, 4);
    put_u16(&mut image, 0x19a, 0x10ed);
    put_u32(&mut image, 0x1a4, 0x0000_000c);
    put_u32(&mut image, 0x1a8, 0x0000_0002);
    put_u32(&mut image, 0x1ac, 0x0000_e001);
    let sriov = decode_sriov(&snapshot(image), 0x180).unwrap();
    assert_eq!(sriov.total_vfs, 8);
    assert_eq!(sriov.num_vfs, 4);
    assert_eq!(sriov.vf_device_id, 0x10ed);
    assert_eq!(
        sriov.vf_bars[0],
        Some(SriovVfBar { kind: SriovVfBarKind::Memory, is_64_bit: true, prefetchable: true, address: 0x2_0000_0000 })
    );
    assert_eq!(sriov.vf_bars[1], None);
    assert_eq!(
        sriov.vf_bars[2],
        Some(SriovVfBar { kind: SriovVfBarKind::Io, is_64_bit: false, prefetchable: false, address: 0xe000 })
    );
    assert_eq!(
        sriov.vf_bars[3],
        Some(SriovVfBar { kind: SriovVfBarKind::Memory, is_64_bit: false, prefetchable: false, address: 0 })
    );
}
