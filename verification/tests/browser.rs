use pci::browser::{Browser, BrowserKey, BrowserMode};
use pci::device::{PciAddress, PciDevice, PciSnapshot};
use pci::model::TreeModel;
use pci::tree::BridgeWindow;

fn address(domain: u16, bus: u8, slot: u8, function: u8) -> PciAddress {
    PciAddress { domain, bus, slot, function }
}

fn device(a: PciAddress, class_id: u16, name: &str) -> PciDevice {
    PciDevice {
        address: a,
        vendor_id: 0x8086,
        device_id: 0x1234,
        class_id,
        vendor_name: "Intel".to_string(),
        device_name: name.to_string(),
        class_name: "Class".to_string(),
    }
}

fn browser() -> Browser {
    let devices = vec![
        device(address(0, 1, 0, 0), 0x0300, "GPU"),
        device(address(0, 0, 1, 0), 0x0604, "Bridge"),
        device(address(0, 0, 0, 0), 0x0600, "Host"),
    ];
    let windows = vec![(address(0, 0, 1, 0), BridgeWindow { secondary: 1, subordinate: 1 })];
    let snapshot = PciSnapshot::from_devices(devices);
    Browser::new(TreeModel::build(&snapshot, &windows))
}

#[test]
fn browser_starts_on_the_first_row() {
    let b = browser();
    assert_eq!(b.visible, vec![0, 1, 2]);
    assert_eq!(b.cursor, 0);
    assert_eq!(b.detail_scroll, 0);
    assert_eq!(b.mode, BrowserMode::Normal);
    assert_eq!(b.filter_input, "");
}

#[test]
fn browser_quits_on_q_and_esc_only_in_normal_mode() {
    let mut b = browser();
    assert!(b.handle_key(BrowserKey::Char('q')));
    assert!(b.handle_key(BrowserKey::Esc));
    assert!(!b.handle_key(BrowserKey::Char('x')));
    assert!(!b.handle_key(BrowserKey::Char('/')));
    assert_eq!(b.mode, BrowserMode::Filter);
    assert!(!b.handle_key(BrowserKey::Char('q')));
    assert_eq!(b.filter_input, "q");
    assert!(!b.handle_key(BrowserKey::Esc));
    assert_eq!(b.mode, BrowserMode::Normal);
    assert_eq!(b.filter_input, "");
}

#[test]
fn browser_moves_the_cursor_saturating() {
    let mut b = browser();
    b.handle_key(BrowserKey::Up);
    assert_eq!(b.cursor, 0);
    b.handle_key(BrowserKey::Char('j'));
    b.handle_key(BrowserKey::Down);
    assert_eq!(b.cursor, 2);
    b.handle_key(BrowserKey::Char('k'));
    assert_eq!(b.cursor, 1);
    b.cursor = usize::MAX;
    b.handle_key(BrowserKey::Down);
    assert_eq!(b.cursor, usize::MAX);
}

#[test]
fn browser_folds_the_row_under_the_cursor() {
    let mut b = browser();
    b.cursor = 2;
    b.handle_key(BrowserKey::Char('l'));
    assert!(b.model.is_expanded(2));
    assert_eq!(b.visible, vec![0, 1, 2, 3]);
    b.handle_key(BrowserKey::Left);
    assert!(!b.model.is_expanded(2));
    assert_eq!(b.visible, vec![0, 1, 2]);
    b.cursor = 0;
    b.handle_key(BrowserKey::Char('h'));
    assert_eq!(b.visible, vec![0]);
    b.handle_key(BrowserKey::Right);
    assert_eq!(b.visible, vec![0, 1, 2]);
    b.cursor = 1;
    b.handle_key(BrowserKey::Right);
    assert!(!b.model.is_expanded(1));
    b.cursor = 7;
    b.handle_key(BrowserKey::Left);
    assert_eq!(b.visible, vec![0, 1, 2]);
    assert!(b.model.is_expanded(0));
}

#[test]
fn browser_scrolls_the_detail_pane_by_pages() {
    let mut b = browser();
    b.handle_key(BrowserKey::PageUp);
    assert_eq!(b.detail_scroll, 0);
    b.handle_key(BrowserKey::PageDown);
    b.handle_key(BrowserKey::PageDown);
    assert_eq!(b.detail_scroll, 20);
    b.handle_key(BrowserKey::PageUp);
    assert_eq!(b.detail_scroll, 10);
    b.detail_scroll = u16::MAX - 3;
    b.handle_key(BrowserKey::PageDown);
    assert_eq!(b.detail_scroll, u16::MAX);
}

#[test]
fn browser_types_and_applies_a_filter() {
    let mut b = browser();
    b.cursor = 2;
    b.handle_key(BrowserKey::Char('/'));
    assert_eq!(b.mode, BrowserMode::Filter);
    for c in "gpux".chars() {
        b.handle_key(BrowserKey::Char(c));
    }
    b.handle_key(BrowserKey::Backspace);
    assert_eq!(b.filter_input, "gpu");
    b.handle_key(BrowserKey::Down);
    assert_eq!(b.cursor, 2);
    assert_eq!(b.visible, vec![0, 1, 2]);
    b.handle_key(BrowserKey::Enter);
    assert_eq!(b.mode, BrowserMode::Normal);
    assert_eq!(b.model.filter, "gpu");
    assert_eq!(b.visible, vec![0, 2, 3]);
    assert_eq!(b.cursor, 0);
    b.handle_key(BrowserKey::Char('/'));
    assert_eq!(b.filter_input, "gpu");
    b.handle_key(BrowserKey::Backspace);
    b.handle_key(BrowserKey::Backspace);
    b.handle_key(BrowserKey::Backspace);
    b.handle_key(BrowserKey::Backspace);
    assert_eq!(b.filter_input, "");
    b.handle_key(BrowserKey::Esc);
    assert_eq!(b.model.filter, "");
    assert_eq!(b.visible, vec![0, 1, 2]);
}
