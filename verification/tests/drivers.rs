use hw_discovery::driver::Driver;
use hw_discovery::driver_capabilities::{MmioWrite, UartDriver};
use hw_discovery::manager::{CapabilityKind, DriverManager};
use hw_discovery::node::{DeviceTreeNode, ParsingError};
use hw_discovery::ns16550a::Ns16550a;
use hw_discovery::registry::{get_registry, DriverKind, DriverRegistry};
use hw_discovery::shared::share;

fn word(out: &mut Vec<u8>, value: u32) {
    out.extend_from_slice(&value.to_be_bytes());
}

fn begin(out: &mut Vec<u8>, name: &[u8]) {
    word(out, 1);
    out.extend_from_slice(name);
    out.push(0);
    while out.len() % 4 != 0 {
        out.push(0);
    }
}

fn end(out: &mut Vec<u8>) {
    word(out, 2);
}

fn prop(out: &mut Vec<u8>, name_off: u32, value: &[u8]) {
    word(out, 3);
    word(out, value.len() as u32);
    word(out, name_off);
    out.extend_from_slice(value);
    while out.len() % 4 != 0 {
        out.push(0);
    }
}

const COMPATIBLE: u32 = 0;
const REG: u32 = 11;
const STDOUT_PATH: u32 = 15;
const STRINGS: &[u8] = b"compatible\0reg\0stdout-path\0";

fn finish(mut structure: Vec<u8>) -> (Vec<u8>, usize) {
    word(&mut structure, 9);
    let strings = structure.len();
    structure.extend_from_slice(STRINGS);
    (structure, strings)
}

fn reg(base: u32) -> Vec<u8> {
    let mut v = Vec::new();
    v.extend_from_slice(&0u32.to_be_bytes());
    v.extend_from_slice(&base.to_be_bytes());
    v.extend_from_slice(&0u32.to_be_bytes());
    v.extend_from_slice(&0x100u32.to_be_bytes());
    v
}

/// `/soc/serial@10000000` with an NS16550A, `/chosen` with the console path,
/// and some nodes that no driver serves.
fn board() -> (Vec<u8>, usize) {
    let mut s = Vec::new();
    begin(&mut s, b"");
    begin(&mut s, b"chosen");
    prop(&mut s, STDOUT_PATH, b"/soc/serial@10000000\0");
    end(&mut s);
    begin(&mut s, b"soc");
    prop(&mut s, COMPATIBLE, b"simple-bus\0");
    begin(&mut s, b"rtc@101000");
    prop(&mut s, COMPATIBLE, b"google,goldfish-rtc\0");
    prop(&mut s, REG, &reg(0x101000));
    begin(&mut s, b"serial@20000000");
    prop(&mut s, COMPATIBLE, b"ns16550a\0");
    prop(&mut s, REG, &reg(0x2000_0000));
    end(&mut s);
    end(&mut s);
    begin(&mut s, b"serial@10000000");
    prop(&mut s, COMPATIBLE, b"vendor,uart\0ns16550a\0");
    prop(&mut s, REG, &reg(0x1000_0000));
    end(&mut s);
    begin(&mut s, b"serial@30000000");
    prop(&mut s, COMPATIBLE, b"ns16550a\0");
    end(&mut s);
    end(&mut s);
    end(&mut s);
    finish(s)
}

fn single(compatible: &[u8], reg_value: &[u8]) -> (Vec<u8>, usize) {
    let mut s = Vec::new();
    begin(&mut s, b"uart@0");
    prop(&mut s, COMPATIBLE, compatible);
    prop(&mut s, REG, reg_value);
    end(&mut s);
    finish(s)
}

fn base_at(manager: &DriverManager, path: &str) -> Option<usize> {
    manager.get_by_path(path, CapabilityKind::Uart).map(|shared| shared.lock().base())
}

#[test]
fn the_later_of_two_registrations_survives() {
    let mut registry: DriverRegistry<u32> = DriverRegistry::new();
    assert_eq!(registry.get_compatible("ns16550a"), None);
    registry.register_driver(&["ns16550a", "other"], 1);
    assert_eq!(registry.get_compatible("ns16550a"), Some(&1));
    registry.register_driver(&["ns16550a"], 2);
    assert_eq!(registry.get_compatible("ns16550a"), Some(&2));
    assert_eq!(registry.get_compatible("other"), Some(&1));
    assert_eq!(registry.get_compatible("ns16550"), None);
    assert_eq!(registry.get_compatible(""), None);
}

#[test]
fn registering_no_strings_changes_nothing() {
    let mut registry: DriverRegistry<u32> = DriverRegistry::new();
    registry.register_driver(&[], 1);
    assert_eq!(registry.get_compatible(""), None);
}

#[test]
fn the_built_in_registry_knows_the_ns16550a() {
    let registry = get_registry();
    assert_eq!(registry.get_compatible("ns16550a"), Some(&DriverKind::Ns16550a));
    assert_eq!(registry.get_compatible("ns16550"), None);
    assert_eq!(Ns16550a::compatible(), &["ns16550a"]);
    assert_eq!(DriverKind::Ns16550a.compatible(), &["ns16550a"]);
}

#[test]
fn load_drivers_binds_the_console() {
    let (blob, strings) = board();
    let root = DeviceTreeNode::parse(&blob, 0, strings).unwrap();
    let mut manager = DriverManager::new();
    assert_eq!(manager.load_drivers(&root), Ok(()));

    let chosen = root.get_child("chosen").unwrap().unwrap();
    let stdout_path = chosen.get_property("stdout-path").unwrap().unwrap().value_str().unwrap();
    assert_eq!(stdout_path, "/soc/serial@10000000");
    let uart = manager.get_by_path(stdout_path, CapabilityKind::Uart).unwrap();
    let write = uart.lock().put_char('A');
    assert_eq!(write, MmioWrite { address: 0x1000_0000, value: 0x41 });
}

#[test]
fn load_drivers_goes_on_below_unbound_nodes() {
    let (blob, strings) = board();
    let root = DeviceTreeNode::parse(&blob, 0, strings).unwrap();
    let mut manager = DriverManager::default();
    manager.load_drivers(&root).unwrap();
    // no driver serves these
    assert_eq!(base_at(&manager, "/soc"), None);
    assert_eq!(base_at(&manager, "/chosen"), None);
    assert_eq!(base_at(&manager, "/soc/rtc@101000"), None);
    // the driver is known, but the node has no `reg`
    assert_eq!(base_at(&manager, "/soc/serial@30000000"), None);
    // a child of an unbound node and a later sibling of one are bound
    assert_eq!(base_at(&manager, "/soc/rtc@101000/serial@20000000"), Some(0x2000_0000));
    assert_eq!(base_at(&manager, "/soc/serial@10000000"), Some(0x1000_0000));
    // paths are exact
    assert_eq!(base_at(&manager, "/soc/serial"), None);
    assert_eq!(base_at(&manager, "soc/serial@10000000"), None);
    assert_eq!(base_at(&manager, "/soc/serial@10000000/"), None);
    assert_eq!(base_at(&manager, "/"), None);
}

#[test]
fn the_root_itself_is_never_bound() {
    let (blob, strings) = single(b"ns16550a\0", &reg(0x9000));
    let root = DeviceTreeNode::parse(&blob, 0, strings).unwrap();
    let mut manager = DriverManager::new();
    manager.load_drivers(&root).unwrap();
    assert_eq!(base_at(&manager, "/uart@0"), None);
    assert_eq!(base_at(&manager, ""), None);
    // tried directly, the node is bound
    assert_eq!(manager.try_init_driver(&root, "/uart@0"), Ok(true));
    assert_eq!(base_at(&manager, "/uart@0"), Some(0x9000));
}

#[test]
fn compatible_strings_are_tried_in_order() {
    for value in [
        &b"ns16550a\0"[..],
        b"ns16550a",
        b"x\0ns16550a\0y\0",
        b"\0\0ns16550a",
        b"\xff\xfe\0ns16550a\0",
    ] {
        let (blob, strings) = single(value, &reg(0x4000));
        let node = DeviceTreeNode::parse(&blob, 0, strings).unwrap();
        let mut manager = DriverManager::new();
        assert_eq!(manager.try_init_driver(&node, "/p"), Ok(true));
        assert_eq!(base_at(&manager, "/p"), Some(0x4000));
    }
    for value in [&b""[..], b"\0", b"ns16550\0", b"ns16550a0\0", b"NS16550A\0", b"ns16550a\xff\0"] {
        let (blob, strings) = single(value, &reg(0x4000));
        let node = DeviceTreeNode::parse(&blob, 0, strings).unwrap();
        let mut manager = DriverManager::new();
        assert_eq!(manager.try_init_driver(&node, "/p"), Ok(false));
        assert_eq!(base_at(&manager, "/p"), None);
    }
}

#[test]
fn a_node_without_compatible_is_left_alone() {
    let mut s = Vec::new();
    begin(&mut s, b"uart@0");
    prop(&mut s, REG, &reg(0x4000));
    end(&mut s);
    let (blob, strings) = finish(s);
    let node = DeviceTreeNode::parse(&blob, 0, strings).unwrap();
    let mut manager = DriverManager::new();
    assert_eq!(manager.try_init_driver(&node, "/uart@0"), Ok(false));
    assert_eq!(base_at(&manager, "/uart@0"), None);
}

#[test]
fn the_base_is_the_second_word_of_reg() {
    let (blob, strings) = single(b"ns16550a\0", &[0, 0, 0, 1, 0x12, 0x34, 0x56, 0x78]);
    let node = DeviceTreeNode::parse(&blob, 0, strings).unwrap();
    assert_eq!(Ns16550a::from_node(&node).map(|d| d.base()), Some(0x1234_5678));
    for short in [&[][..], &[1, 2, 3], &[0, 0, 0, 1], &[0, 0, 0, 1, 2, 3, 4]] {
        let (blob, strings) = single(b"ns16550a\0", short);
        let node = DeviceTreeNode::parse(&blob, 0, strings).unwrap();
        assert!(Ns16550a::from_node(&node).is_none());
        let mut manager = DriverManager::new();
        assert!(!Ns16550a::try_initialize(&node, "/uart@0", &mut manager));
        assert!(!DriverKind::Ns16550a.try_initialize(&node, "/uart@0", &mut manager));
        assert_eq!(base_at(&manager, "/uart@0"), None);
    }
}

#[test]
fn a_broken_property_ends_the_walk() {
    let mut s = Vec::new();
    begin(&mut s, b"");
    begin(&mut s, b"first");
    prop(&mut s, COMPATIBLE, b"ns16550a\0");
    prop(&mut s, REG, &reg(0x1000));
    end(&mut s);
    begin(&mut s, b"second");
    prop(&mut s, 5000, b"x\0");
    end(&mut s);
    begin(&mut s, b"third");
    prop(&mut s, COMPATIBLE, b"ns16550a\0");
    prop(&mut s, REG, &reg(0x3000));
    end(&mut s);
    end(&mut s);
    let (blob, strings) = finish(s);
    let root = DeviceTreeNode::parse(&blob, 0, strings).unwrap();
    let mut manager = DriverManager::new();
    assert_eq!(manager.load_drivers(&root), Err(ParsingError::MalformedTree));
    assert_eq!(base_at(&manager, "/first"), Some(0x1000));
    assert_eq!(base_at(&manager, "/third"), None);
}

#[test]
fn capabilities_are_shared_and_replaced() {
    let mut manager = DriverManager::new();
    assert!(manager.get_by_path("/a", CapabilityKind::Uart).is_none());
    let (blob, strings) = single(b"ns16550a\0", &reg(0x1111));
    let node = DeviceTreeNode::parse(&blob, 0, strings).unwrap();
    let first = share(Ns16550a::from_node(&node).unwrap());
    manager.register_capability("/a", CapabilityKind::Uart, first.clone());
    let got = manager.get_by_path("/a", CapabilityKind::Uart).unwrap();
    assert!(std::sync::Arc::ptr_eq(&got, &first));
    assert!(manager.get_by_path("/b", CapabilityKind::Uart).is_none());

    let (blob, strings) = single(b"ns16550a\0", &reg(0x2222));
    let node = DeviceTreeNode::parse(&blob, 0, strings).unwrap();
    let second = share(Ns16550a::from_node(&node).unwrap());
    manager.register_capability("/a", CapabilityKind::Uart, second.clone());
    manager.register_capability("/b", CapabilityKind::Uart, first.clone());
    let got = manager.get_by_path("/a", CapabilityKind::Uart).unwrap();
    assert!(std::sync::Arc::ptr_eq(&got, &second));
    assert_eq!(got.lock().base(), 0x2222);
    assert_eq!(base_at(&manager, "/b"), Some(0x1111));
}

#[test]
fn put_char_sends_the_low_byte_to_the_base() {
    let (blob, strings) = single(b"ns16550a\0", &reg(0x1000_0000));
    let node = DeviceTreeNode::parse(&blob, 0, strings).unwrap();
    let mut uart = Ns16550a::from_node(&node).unwrap();
    assert_eq!(uart.put_char('\n'), MmioWrite { address: 0x1000_0000, value: 10 });
    assert_eq!(uart.put_char('\u{e9}'), MmioWrite { address: 0x1000_0000, value: 0xe9 });
    assert_eq!(uart.put_char('\u{20ac}'), MmioWrite { address: 0x1000_0000, value: 0xac });
    assert_eq!(uart.put_char('\u{10ffff}'), MmioWrite { address: 0x1000_0000, value: 0xff });
    let writes = uart.write_str("ok\u{100}");
    assert_eq!(
        writes,
        vec![
            MmioWrite { address: 0x1000_0000, value: b'o' },
            MmioWrite { address: 0x1000_0000, value: b'k' },
            MmioWrite { address: 0x1000_0000, value: 0 },
        ]
    );
    assert!(uart.write_str("").is_empty());
}
