use pci::styled::{SpanColor, SpanStyle, StyledSpan, parse_ansi};
use pci::model::{row_prefix, rows_have_earlier_parents, split_window_label, top_level_label, tree_viewport};
use pci::cli::ConfigLevel;
use pci::color::{ColorMode, Palette};
use pci::config::ConfigReadLevel;
use pci::device::{PciAddress, PciDevice, PciSnapshot};
use pci::field::{PciField, PciFieldUnavailableReason};
use pci::json::{json_field, json_hex_field, json_parent, json_snapshot};
use pci::model::{TreeModel, model_ends_check};
use pci::styled::colorize_detail;
use pci::tree::{BridgeWindow, bridge_window, owner_bridge, render_tree_text, tree_ends_check};
use pci::config::{ConfigSegment, ConfigSpaceSnapshot};

fn address(domain: u16, bus: u8, slot: u8, function: u8) -> PciAddress {
    PciAddress { domain, bus, slot, function }
}

fn device(a: PciAddress, class_id: u16, name: &str) -> PciDevice {
    PciDevice {
        address: a,
        vendor_id: 0x8086,
        device_id: 0x1234,
        class_id,
        vendor_name: "Intel".to_string(),
        device_name: name.to_string(),
        class_name: "Class".to_string(),
    }
}

fn bridged() -> (Vec<PciDevice>, Vec<(PciAddress, BridgeWindow)>) {
    let devices = vec![
        device(address(0, 1, 0, 0), 0x0300, "GPU"),
        device(address(0, 0, 1, 0), 0x0604, "Bridge"),
        device(address(0, 0, 0, 0), 0x0600, "Host"),
    ];
    let windows = vec![(address(0, 0, 1, 0), BridgeWindow { secondary: 1, subordinate: 1 })];
    (devices, windows)
}

#[test]
fn palette_paints_only_when_enabled() {
    assert!(ColorMode::Always.enabled_for(false));
    assert!(!ColorMode::Never.enabled_for(true));
    assert!(ColorMode::Auto.enabled_for(true));
    assert!(!ColorMode::Auto.enabled_for(false));
    let on = Palette::new(ColorMode::Always, false);
    assert_eq!(on.address("x"), "\x1b[1;36mx\x1b[0m");
    assert_eq!(on.dim("x"), "\x1b[2mx\x1b[0m");
    assert_eq!(on.unavailable("x"), "\x1b[31mx\x1b[0m");
    assert_eq!(on.capability("x"), "\x1b[32mx\x1b[0m");
    let off = Palette::new(ColorMode::Auto, false);
    assert_eq!(off.address("x"), "x");
}

#[test]
fn config_level_to_read_level() {
    assert_eq!(ConfigReadLevel::from(ConfigLevel::Header), ConfigReadLevel::Header);
    assert_eq!(ConfigReadLevel::from(ConfigLevel::Standard), ConfigReadLevel::Standard);
    assert_eq!(ConfigReadLevel::from(ConfigLevel::Extended), ConfigReadLevel::Extended);
}

#[test]
fn bridge_window_from_header() {
    let mut bytes = vec![0u8; 0x40];
    bytes[0x19] = 0x02;
    bytes[0x1a] = 0x05;
    let config = ConfigSpaceSnapshot { requested: 0..0x40, segments: vec![ConfigSegment { offset: 0, bytes }], failures: vec![] };
    assert_eq!(bridge_window(&config), Some(BridgeWindow { secondary: 2, subordinate: 5 }));
    let empty = ConfigSpaceSnapshot { requested: 0..0x40, segments: vec![], failures: vec![] };
    assert_eq!(bridge_window(&empty), None);
}

#[test]
fn owner_is_the_innermost_bridge() {
    let windows = vec![
        (address(0, 0, 1, 0), BridgeWindow { secondary: 1, subordinate: 4 }),
        (address(0, 1, 0, 0), BridgeWindow { secondary: 2, subordinate: 2 }),
    ];
    assert_eq!(owner_bridge(&windows, &device(address(0, 2, 0, 0), 0, "x")), Some(address(0, 1, 0, 0)));
    assert_eq!(owner_bridge(&windows, &device(address(0, 3, 0, 0), 0, "x")), Some(address(0, 0, 1, 0)));
    assert_eq!(owner_bridge(&windows, &device(address(0, 0, 0, 0), 0, "x")), None);
}

#[test]
fn tree_text() {
    let (devices, windows) = bridged();
    let palette = Palette { enabled: false };
    assert_eq!(
        render_tree_text(&devices, &windows, &palette),
        "-[0000:00]-+- 00:00.0 Host\n-[0000:00]-+- 00:01.0 -[01-01] Bridge\n|  +- 01:00.0 GPU\n"
    );
}

#[test]
fn tree_model_folding_and_filtering() {
    let (devices, windows) = bridged();
    let snapshot = PciSnapshot::from_devices(devices);
    let mut model = TreeModel::build(&snapshot, &windows);
    let labels: Vec<&str> = model.rows.iter().map(|row| row.label.as_str()).collect();
    assert_eq!(labels, vec!["0000:00", "00:00.0 Intel Host", "00:01.0 Intel Bridge -[01-01]", "01:00.0 Intel GPU"]);
    assert_eq!(model.parent(3), Some(2));
    assert_eq!(model.parent(0), None);
    assert!(model.is_expanded(0));
    assert_eq!(model.visible_rows(), vec![0, 1, 2]);
    model.expand(2);
    assert_eq!(model.visible_rows(), vec![0, 1, 2, 3]);
    model.expand(1);
    assert!(!model.is_expanded(1));
    model.collapse(0);
    assert_eq!(model.visible_rows(), vec![0]);
    assert_eq!(model.device_counts(), (3, 3));
    model.filter = "gpu".to_string();
    assert_eq!(model.visible_rows(), vec![0, 2, 3]);
    assert_eq!(model.device_counts(), (1, 3));
    model.filter = "INTEL".to_string();
    assert_eq!(model.device_counts(), (3, 3));
}

#[test]
fn detail_colors() {
    assert_eq!(
        colorize_detail("  vendor: 0x8086 Intel\n  irq: <unavailable: Unknown>\r\nplain\n"),
        "\x1b[2m  vendor\x1b[0m: 0x8086 Intel\n\x1b[2m  irq\x1b[0m: \x1b[31m<unavailable: Unknown>\x1b[0m\nplain"
    );
    assert_eq!(colorize_detail(""), "");
}

#[test]
fn json_values() {
    let field = json_field(&PciField::Available(7u8));
    assert_eq!(field.state, "available");
    assert_eq!(field.value, Some(7));
    assert_eq!(field.reason, None);
    let missing = json_hex_field(&PciField::Unavailable { reason: PciFieldUnavailableReason::PermissionDenied });
    assert_eq!(missing.state, "unavailable");
    assert_eq!(missing.reason.as_deref(), Some("PermissionDenied"));
    assert_eq!(json_hex_field(&PciField::Available(0x17aa)).value.as_deref(), Some("0x17aa"));
    assert_eq!(json_parent(&PciField::NotApplicable).state, "not_applicable");
    let (devices, _) = bridged();
    let doc = json_snapshot(&PciSnapshot::from_devices(devices));
    assert_eq!(doc.devices.len(), 3);
    assert_eq!(doc.devices[0].address.display, "0000:00:00.0");
    assert_eq!(doc.devices[2].address.bus, "0x0001");
    assert_eq!(doc.devices[2].vendor_id, "0x8086");
}

#[test]
fn ansi_text_into_styled_runs() {
    let plain = SpanStyle { fg: None, bold: false, dim: false };
    let text = parse_ansi("\x1b[2mlabel\x1b[0m: \x1b[31mbad\x1b[0m\nnext\x1b[Kline\x1b");
    assert_eq!(text.lines.len(), 2);
    assert_eq!(
        text.lines[0],
        vec![
            StyledSpan { text: "label".to_string(), style: SpanStyle { dim: true, ..plain } },
            StyledSpan { text: ": ".to_string(), style: plain },
            StyledSpan { text: "bad".to_string(), style: SpanStyle { fg: Some(SpanColor::Red), ..plain } },
        ]
    );
    assert_eq!(text.lines[1], vec![StyledSpan { text: "nextline\x1b".to_string(), style: plain }]);
    let bold = parse_ansi("\x1b[1;36mx");
    assert_eq!(
        bold.lines[0],
        vec![StyledSpan { text: "x".to_string(), style: SpanStyle { fg: Some(SpanColor::Cyan), bold: true, dim: false } }]
    );
    assert_eq!(parse_ansi("").lines, vec![Vec::<StyledSpan>::new()]);
}

#[test]
fn tree_pane_helpers() {
    let (devices, windows) = bridged();
    let snapshot = PciSnapshot::from_devices(devices);
    let model = TreeModel::build(&snapshot, &windows);
    assert!(rows_have_earlier_parents(&model.rows));
    assert_eq!(top_level_label(&model, &[0, 2, 3], 2), "0000:00");
    assert_eq!(top_level_label(&model, &[0, 2, 3], 5), "devices");
    assert_eq!(tree_viewport(9, 0, 4, 2), (3, 2));
    assert_eq!(tree_viewport(1, 3, 4, 2), (1, 1));
    assert_eq!(tree_viewport(0, 0, 0, 0), (0, 0));
    assert_eq!(row_prefix(2, true, false), "    \u{25b8} ");
    assert_eq!(row_prefix(0, true, true), "\u{25be} ");
    assert_eq!(row_prefix(1, false, true), "    ");
}

#[test]
fn tree_below_a_window_that_leads_to_a_lower_bus() {
    let devices = vec![
        device(address(0, 0, 1, 0), 0x0604, "A"),
        device(address(0, 2, 0, 0), 0x0604, "B"),
        device(address(0, 1, 0, 0), 0x0300, "C"),
    ];
    let windows = vec![
        (address(0, 0, 1, 0), BridgeWindow { secondary: 1, subordinate: 2 }),
        (address(0, 2, 0, 0), BridgeWindow { secondary: 1, subordinate: 1 }),
    ];
    assert!(tree_ends_check(&devices, &windows));
    assert!(model_ends_check(&devices, &windows));
    let palette = Palette { enabled: false };
    assert_eq!(
        render_tree_text(&devices, &windows, &palette),
        "-[0000:00]-+- 00:01.0 -[01-02] A\n|  +- 01:00.0 C\n|  +- 02:00.0 -[01-01] B\n|  |  +- 01:00.0 C\n"
    );
    let model = TreeModel::build(&PciSnapshot::from_devices(devices), &windows);
    let labels: Vec<&str> = model.rows.iter().map(|row| row.label.as_str()).collect();
    assert_eq!(labels, vec!["0000:00", "00:01.0 Intel A -[01-02]", "01:00.0 Intel C"]);
}

#[test]
fn windows_that_lead_back_are_cyclic() {
    let devices = vec![device(address(0, 2, 0, 0), 0x0604, "C"), device(address(0, 1, 0, 0), 0x0604, "B")];
    let looping = vec![
        (address(0, 2, 0, 0), BridgeWindow { secondary: 1, subordinate: 1 }),
        (address(0, 1, 0, 0), BridgeWindow { secondary: 1, subordinate: 1 }),
    ];
    assert!(!tree_ends_check(&devices, &looping));
    assert!(!model_ends_check(&devices, &looping));
    assert!(tree_ends_check(&devices, &[]));
}

#[test]
fn windows_that_the_tree_never_reaches_again() {
    let palette = Palette { enabled: false };
    let unconfigured = vec![device(address(0, 0, 1, 0), 0x0604, "Bridge")];
    let own_bus = vec![(address(0, 0, 1, 0), BridgeWindow { secondary: 0, subordinate: 0 })];
    assert!(tree_ends_check(&unconfigured, &own_bus));
    assert_eq!(render_tree_text(&unconfigured, &own_bus, &palette), "");

    let inverted_devices = vec![device(address(0, 0, 1, 0), 0x0604, "X"), device(address(0, 5, 0, 0), 0x0604, "Y")];
    let inverted = vec![
        (address(0, 0, 1, 0), BridgeWindow { secondary: 5, subordinate: 2 }),
        (address(0, 5, 0, 0), BridgeWindow { secondary: 0, subordinate: 0 }),
    ];
    assert!(tree_ends_check(&inverted_devices, &inverted));
    assert_eq!(
        render_tree_text(&inverted_devices, &inverted, &palette),
        "-[0000:05]-+- 05:00.0 -[00-00] Y\n|  +- 00:01.0 -[05-02] X\n"
    );

    let below_itself = vec![device(address(0, 1, 0, 0), 0x0604, "Bridge")];
    let wide = vec![(address(0, 1, 0, 0), BridgeWindow { secondary: 0, subordinate: 1 })];
    assert!(model_ends_check(&below_itself, &wide));
    assert_eq!(TreeModel::build(&PciSnapshot::from_devices(below_itself), &wide).rows.len(), 0);
}

#[test]
fn window_label_split() {
    assert_eq!(
        split_window_label("00:01.0 Intel Bridge -[01-01]"),
        Some(("00:01.0 Intel Bridge".to_string(), " -[01-01]".to_string()))
    );
    assert_eq!(split_window_label("00:00.0 Intel Host"), None);
    assert_eq!(split_window_label("a -[b -[c"), Some(("a".to_string(), " -[b -[c".to_string())));
    let (devices, windows) = bridged();
    let mut model = TreeModel::build(&PciSnapshot::from_devices(devices), &windows);
    assert!(model.row_open(0));
    assert!(!model.row_open(2));
    model.filter = "x".to_string();
    assert!(model.row_open(2));
}
