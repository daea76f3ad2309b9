use hw_discovery::children::ChildNodeIter;
use hw_discovery::node::{DeviceTreeNode, ParsingError};
use hw_discovery::properties::PropertyIter;
use hw_discovery::tokens::{read_token, skip_nops, Tokens};
use hw_discovery::wire::{advance, find_nul, pad_to_word, read_u32, read_u64};

fn word(out: &mut Vec<u8>, value: u32) {
    out.extend_from_slice(&value.to_be_bytes());
}

fn begin(out: &mut Vec<u8>, name: &[u8]) {
    word(out, 1);
    out.extend_from_slice(name);
    out.push(0);
    while out.len() % 4 != 0 {
        out.push(0);
    }
}

fn end(out: &mut Vec<u8>) {
    word(out, 2);
}

fn nop(out: &mut Vec<u8>) {
    word(out, 4);
}

fn prop(out: &mut Vec<u8>, name_off: u32, value: &[u8]) {
    word(out, 3);
    word(out, value.len() as u32);
    word(out, name_off);
    out.extend_from_slice(value);
    while out.len() % 4 != 0 {
        out.push(0);
    }
}

/// A structure block followed by a strings block that holds "alpha", "beta",
/// "gamma" at offsets 0, 6 and 11. Returns the blob and the offset of the
/// strings block.
fn with_strings(structure: Vec<u8>) -> (Vec<u8>, usize) {
    let mut blob = structure;
    let strings = blob.len();
    blob.extend_from_slice(b"alpha\0beta\0gamma\0");
    (blob, strings)
}

fn sample_tree() -> (Vec<u8>, usize) {
    let mut s = Vec::new();
    begin(&mut s, b"soc");
    prop(&mut s, 0, b"one\0");
    nop(&mut s);
    prop(&mut s, 6, &[1, 2, 3, 4, 5]);
    prop(&mut s, 11, b"");
    begin(&mut s, b"serial@10000000");
    prop(&mut s, 0, b"x\0");
    begin(&mut s, b"deep");
    begin(&mut s, b"deeper");
    end(&mut s);
    end(&mut s);
    end(&mut s);
    nop(&mut s);
    nop(&mut s);
    begin(&mut s, b"timer@2000");
    end(&mut s);
    begin(&mut s, b"plain");
    prop(&mut s, 6, b"y\0");
    end(&mut s);
    end(&mut s);
    word(&mut s, 9);
    with_strings(s)
}

#[test]
fn tokens_have_their_wire_values() {
    assert_eq!(Tokens::try_from(1), Ok(Tokens::BeginNode));
    assert_eq!(Tokens::try_from(2), Ok(Tokens::EndNode));
    assert_eq!(Tokens::try_from(3), Ok(Tokens::Property));
    assert_eq!(Tokens::try_from(4), Ok(Tokens::Nop));
    assert_eq!(Tokens::try_from(9), Ok(Tokens::End));
    assert_eq!(Tokens::try_from(0), Err(ParsingError::InvalidToken));
    assert_eq!(Tokens::try_from(5), Err(ParsingError::InvalidToken));
    assert_eq!(Tokens::try_from(0x0100_0000), Err(ParsingError::InvalidToken));
}

#[test]
fn words_are_big_endian() {
    let blob = [0xd0, 0x0d, 0xfe, 0xed, 0x01, 0x02, 0x03, 0x04, 0xff];
    assert_eq!(read_u32(&blob, 0), Some(0xd00dfeed));
    assert_eq!(read_u32(&blob, 4), Some(0x01020304));
    assert_eq!(read_u32(&blob, 5), Some(0x020304ff));
    assert_eq!(read_u32(&blob, 6), None);
    assert_eq!(read_u32(&blob, usize::MAX), None);
    assert_eq!(read_u64(&blob, 0), Some(0xd00dfeed01020304));
    assert_eq!(read_u64(&blob, 1), Some(0x0dfeed01020304ff));
    assert_eq!(read_u64(&blob, 2), None);
}

#[test]
fn wire_helpers_give_exact_values() {
    assert_eq!(pad_to_word(0), 0);
    assert_eq!(pad_to_word(1), 4);
    assert_eq!(pad_to_word(4), 4);
    assert_eq!(pad_to_word(5), 8);
    let blob = [1u8, 2, 0, 3, 0, 9, 9, 9];
    assert_eq!(find_nul(&blob, 0), Some(2));
    assert_eq!(find_nul(&blob, 3), Some(4));
    assert_eq!(find_nul(&blob, 5), None);
    assert_eq!(find_nul(&blob, 100), None);
    assert_eq!(advance(&blob, 0, 4), Some(4));
    assert_eq!(advance(&blob, 0, 5), None);
    assert_eq!(advance(&blob, 9, 0), None);
}

#[test]
fn skip_nops_stops_at_the_first_other_token() {
    let mut s = Vec::new();
    nop(&mut s);
    nop(&mut s);
    word(&mut s, 2);
    assert_eq!(skip_nops(&s, 0), Ok(8));
    assert_eq!(skip_nops(&s, 4), Ok(8));
    assert_eq!(skip_nops(&s, 8), Ok(8));
    assert_eq!(read_token(&s, 8), Ok(Tokens::EndNode));
    assert_eq!(skip_nops(&s, 12), Err(ParsingError::MalformedTree));
    let mut bad = Vec::new();
    nop(&mut bad);
    word(&mut bad, 7);
    assert_eq!(skip_nops(&bad, 0), Err(ParsingError::InvalidToken));
}

#[test]
fn parse_reads_name_and_end() {
    let (blob, strings) = sample_tree();
    let node = DeviceTreeNode::parse(&blob, 0, strings).unwrap();
    assert_eq!(node.full_name(), "soc");
    assert_eq!(node.name(), "soc");
    assert_eq!(node.address(), None);
    // the node's EndNode is the token before the terminator
    assert_eq!(node.end(), strings - 8);
    assert_eq!(read_token(&blob, node.end()), Ok(Tokens::EndNode));
}

#[test]
fn parse_skips_leading_nops() {
    let mut s = Vec::new();
    nop(&mut s);
    nop(&mut s);
    begin(&mut s, b"a");
    end(&mut s);
    let node = DeviceTreeNode::parse(&s, 0, 0).unwrap();
    assert_eq!(node.full_name(), "a");
    assert_eq!(node.end(), 16);
}

#[test]
fn name_and_address_split_at_the_first_at_sign() {
    let mut s = Vec::new();
    begin(&mut s, b"serial@10000000");
    end(&mut s);
    let node = DeviceTreeNode::parse(&s, 0, 0).unwrap();
    assert_eq!(node.full_name(), "serial@10000000");
    assert_eq!(node.name(), "serial");
    assert_eq!(node.address(), Some("10000000"));

    let mut s = Vec::new();
    begin(&mut s, b"a@b@c");
    end(&mut s);
    let node = DeviceTreeNode::parse(&s, 0, 0).unwrap();
    assert_eq!(node.name(), "a");
    assert_eq!(node.address(), Some("b@c"));

    let mut s = Vec::new();
    begin(&mut s, b"@");
    end(&mut s);
    let node = DeviceTreeNode::parse(&s, 0, 0).unwrap();
    assert_eq!(node.name(), "");
    assert_eq!(node.address(), Some(""));

    let mut s = Vec::new();
    begin(&mut s, b"");
    end(&mut s);
    let node = DeviceTreeNode::parse(&s, 0, 0).unwrap();
    assert_eq!(node.full_name(), "");
    assert_eq!(node.name(), "");
    assert_eq!(node.address(), None);
}

#[test]
fn parse_reports_each_error() {
    // not a BeginNode
    let mut s = Vec::new();
    end(&mut s);
    assert_eq!(
        DeviceTreeNode::parse(&s, 0, 0).err(),
        Some(ParsingError::UnexpectedToken { expected: Tokens::BeginNode, found: Tokens::EndNode })
    );
    let mut s = Vec::new();
    nop(&mut s);
    word(&mut s, 3);
    assert_eq!(
        DeviceTreeNode::parse(&s, 0, 0).err(),
        Some(ParsingError::UnexpectedToken { expected: Tokens::BeginNode, found: Tokens::Property })
    );
    // a word that is no token
    let mut s = Vec::new();
    word(&mut s, 6);
    assert_eq!(DeviceTreeNode::parse(&s, 0, 0).err(), Some(ParsingError::InvalidToken));
    let mut s = Vec::new();
    begin(&mut s, b"a");
    word(&mut s, 0xdead);
    assert_eq!(DeviceTreeNode::parse(&s, 0, 0).err(), Some(ParsingError::InvalidToken));
    // the terminator before the node is closed
    let mut s = Vec::new();
    begin(&mut s, b"a");
    begin(&mut s, b"b");
    end(&mut s);
    word(&mut s, 9);
    assert_eq!(DeviceTreeNode::parse(&s, 0, 0).err(), Some(ParsingError::EarlyEnd));
    // the blob ends early
    let mut s = Vec::new();
    begin(&mut s, b"a");
    assert_eq!(DeviceTreeNode::parse(&s, 0, 0).err(), Some(ParsingError::MalformedTree));
    assert_eq!(DeviceTreeNode::parse(&[], 0, 0).err(), Some(ParsingError::MalformedTree));
    assert_eq!(DeviceTreeNode::parse(&s, 1000, 0).err(), Some(ParsingError::MalformedTree));
    let mut s = Vec::new();
    word(&mut s, 1);
    s.extend_from_slice(b"abcd");
    assert_eq!(DeviceTreeNode::parse(&s, 0, 0).err(), Some(ParsingError::MalformedTree));
    // a property whose length runs past the blob
    let mut s = Vec::new();
    begin(&mut s, b"a");
    word(&mut s, 3);
    word(&mut s, 0xffff_ffff);
    word(&mut s, 0);
    end(&mut s);
    assert_eq!(DeviceTreeNode::parse(&s, 0, 0).err(), Some(ParsingError::MalformedTree));
    // a name that is not UTF-8
    let mut s = Vec::new();
    begin(&mut s, &[0x66, 0xff, 0x6f]);
    end(&mut s);
    let err = DeviceTreeNode::parse(&s, 0, 0).err().unwrap();
    let expected = core::str::from_utf8(&[0x66, 0xff, 0x6f]).err().unwrap();
    assert_eq!(err, ParsingError::InvalidUtf8NodeName(expected));
}

#[test]
fn nested_names_need_not_be_text_to_be_stepped_over() {
    let mut s = Vec::new();
    begin(&mut s, b"a");
    begin(&mut s, &[0xff]);
    end(&mut s);
    begin(&mut s, b"b");
    end(&mut s);
    end(&mut s);
    let node = DeviceTreeNode::parse(&s, 0, 0).unwrap();
    assert_eq!(node.end(), s.len() - 4);
    // the child itself cannot be decoded, and the cursor says so
    let mut kids = node.children();
    assert!(matches!(kids.next(), Err(ParsingError::InvalidUtf8NodeName(_))));
    assert!(matches!(kids.next(), Ok(None)));
}

#[test]
fn properties_come_in_declaration_order() {
    let (blob, strings) = sample_tree();
    let node = DeviceTreeNode::parse(&blob, 0, strings).unwrap();
    let mut props = node.properties();
    let p = props.next().unwrap().unwrap();
    assert_eq!(p.name(), "alpha");
    assert_eq!(p.raw_value(), b"one\0");
    assert_eq!(p.value_str(), Some("one"));
    let p = props.next().unwrap().unwrap();
    assert_eq!(p.name, "beta");
    assert_eq!(p.value, &[1, 2, 3, 4, 5]);
    assert_eq!(p.value_str(), None);
    let p = props.next().unwrap().unwrap();
    assert_eq!(p.name(), "gamma");
    assert_eq!(p.raw_value(), b"");
    assert_eq!(p.value_str(), None);
    assert!(props.next().unwrap().is_none());
    assert!(props.next().unwrap().is_none());
    // a fresh cursor starts over
    let mut again = node.properties();
    assert_eq!(again.next().unwrap().unwrap().name(), "alpha");
}

#[test]
fn children_come_in_declaration_order_without_grandchildren() {
    let (blob, strings) = sample_tree();
    let node = DeviceTreeNode::parse(&blob, 0, strings).unwrap();
    let mut kids = node.children();
    let mut names = Vec::new();
    while let Some(kid) = kids.next().unwrap() {
        names.push(kid.full_name());
    }
    assert_eq!(names, vec!["serial@10000000", "timer@2000", "plain"]);
    assert!(kids.next().unwrap().is_none());

    let serial = node.children().next().unwrap().unwrap();
    let mut props = serial.properties();
    assert_eq!(props.next().unwrap().unwrap().value_str(), Some("x"));
    assert!(props.next().unwrap().is_none());
    let mut deep = serial.children();
    let d = deep.next().unwrap().unwrap();
    assert_eq!(d.full_name(), "deep");
    assert!(deep.next().unwrap().is_none());
    let mut deeper = d.children();
    assert_eq!(deeper.next().unwrap().unwrap().full_name(), "deeper");
    assert!(deeper.next().unwrap().is_none());
}

#[test]
fn a_node_without_properties_or_children_yields_nothing() {
    let mut s = Vec::new();
    begin(&mut s, b"leaf");
    end(&mut s);
    let node = DeviceTreeNode::parse(&s, 0, 0).unwrap();
    assert!(node.properties().next().unwrap().is_none());
    assert!(node.children().next().unwrap().is_none());
    assert!(node.get_child("x").unwrap().is_none());
    assert!(node.get_property("x").unwrap().is_none());
}

#[test]
fn a_node_with_children_only_has_no_properties() {
    let mut s = Vec::new();
    begin(&mut s, b"a");
    begin(&mut s, b"b");
    prop(&mut s, 0, b"v\0");
    end(&mut s);
    end(&mut s);
    let (blob, strings) = with_strings(s);
    let node = DeviceTreeNode::parse(&blob, 0, strings).unwrap();
    assert!(node.properties().next().unwrap().is_none());
    let b = node.get_child("b").unwrap().unwrap();
    assert_eq!(b.get_property("alpha").unwrap().unwrap().value_str(), Some("v"));
}

#[test]
fn get_child_matches_the_name_without_unit_address() {
    let (blob, strings) = sample_tree();
    let node = DeviceTreeNode::parse(&blob, 0, strings).unwrap();
    assert_eq!(node.get_child("serial").unwrap().unwrap().full_name(), "serial@10000000");
    assert_eq!(node.get_child("timer").unwrap().unwrap().address(), Some("2000"));
    assert_eq!(node.get_child("plain").unwrap().unwrap().full_name(), "plain");
    assert!(node.get_child("serial@10000000").unwrap().is_none());
    assert!(node.get_child("deep").unwrap().is_none());
    assert!(node.get_child("").unwrap().is_none());
}

#[test]
fn get_property_finds_by_name() {
    let (blob, strings) = sample_tree();
    let node = DeviceTreeNode::parse(&blob, 0, strings).unwrap();
    assert_eq!(node.get_property("beta").unwrap().unwrap().raw_value(), &[1, 2, 3, 4, 5]);
    assert_eq!(node.get_property("gamma").unwrap().unwrap().raw_value().len(), 0);
    assert!(node.get_property("delta").unwrap().is_none());
    assert!(node.get_property("alph").unwrap().is_none());
}

#[test]
fn cursors_restart_from_an_offset() {
    let (blob, strings) = sample_tree();
    let node = DeviceTreeNode::parse(&blob, 0, strings).unwrap();
    let first = node.children().next().unwrap().unwrap();
    let mut rest = ChildNodeIter::new(&blob, Some(first.end() + 4), strings);
    assert_eq!(rest.next().unwrap().unwrap().full_name(), "timer@2000");
    let mut none = ChildNodeIter::new(&blob, None, strings);
    assert!(none.next().unwrap().is_none());
    let mut props = PropertyIter::new(&blob, Some(8), strings);
    assert_eq!(props.next().unwrap().unwrap().name(), "alpha");
    let mut none = PropertyIter::new(&blob, None, strings);
    assert!(none.next().unwrap().is_none());
}

#[test]
fn a_broken_property_record_is_an_error() {
    // the name offset leads past the blob
    let mut s = Vec::new();
    begin(&mut s, b"a");
    prop(&mut s, 1000, b"v\0");
    end(&mut s);
    let (blob, strings) = with_strings(s);
    let node = DeviceTreeNode::parse(&blob, 0, strings).unwrap();
    let mut props = node.properties();
    assert_eq!(props.next().err(), Some(ParsingError::MalformedTree));
    assert!(props.next().unwrap().is_none());
    assert_eq!(node.get_property("alpha").err(), Some(ParsingError::MalformedTree));
    // the name is not UTF-8
    let mut s = Vec::new();
    begin(&mut s, b"a");
    prop(&mut s, 0, b"v\0");
    end(&mut s);
    let strings = s.len();
    s.extend_from_slice(&[0xc0, 0x00]);
    let node = DeviceTreeNode::parse(&s, 0, strings).unwrap();
    assert!(matches!(
        node.properties().next(),
        Err(ParsingError::InvalidUtf8NodeName(_))
    ));
    // an invalid token where a property may stand
    let mut s = Vec::new();
    word(&mut s, 4);
    word(&mut s, 8);
    let mut props = PropertyIter::new(&s, Some(0), 0);
    assert_eq!(props.next().err(), Some(ParsingError::InvalidToken));
    let mut kids = ChildNodeIter::new(&s, Some(0), 0);
    assert_eq!(kids.next().err(), Some(ParsingError::InvalidToken));
}
