use hw_discovery::node::ParsingError;
use hw_discovery::reader::{DtbInitError, DtbReader, Header, DTB_VERSION, HEADER_SIZE, MAGIC_VALUE};
use hw_discovery::reserve_entry::MemoryReserveEntryIter;

fn word(out: &mut Vec<u8>, value: u32) {
    out.extend_from_slice(&value.to_be_bytes());
}

fn begin(out: &mut Vec<u8>, name: &[u8]) {
    word(out, 1);
    out.extend_from_slice(name);
    out.push(0);
    while out.len() % 4 != 0 {
        out.push(0);
    }
}

fn end(out: &mut Vec<u8>) {
    word(out, 2);
}

fn prop(out: &mut Vec<u8>, name_off: u32, value: &[u8]) {
    word(out, 3);
    word(out, value.len() as u32);
    word(out, name_off);
    out.extend_from_slice(value);
    while out.len() % 4 != 0 {
        out.push(0);
    }
}

/// Offsets of the names in `STRINGS`.
const SERIAL0: u32 = 0;
const CONSOLE: u32 = 8;
const EMPTY: u32 = 16;
const BARE: u32 = 22;
const STRINGS: &[u8] = b"serial0\0console\0empty\0bare\0";

fn assemble(header: [u32; 3], reserve: &[(u64, u64)], structure: &[u8], boot_cpu: u32) -> Vec<u8> {
    let [magic, version, last_comp] = header;
    let off_rsv = 40u32;
    let off_struct = off_rsv + 16 * (reserve.len() as u32 + 1);
    let off_strings = off_struct + structure.len() as u32;
    let total = off_strings + STRINGS.len() as u32;
    let mut blob = Vec::new();
    for field in [
        magic,
        total,
        off_struct,
        off_strings,
        off_rsv,
        version,
        last_comp,
        boot_cpu,
        STRINGS.len() as u32,
        structure.len() as u32,
    ] {
        word(&mut blob, field);
    }
    for (address, size) in reserve {
        blob.extend_from_slice(&address.to_be_bytes());
        blob.extend_from_slice(&size.to_be_bytes());
    }
    blob.extend_from_slice(&[0u8; 16]);
    blob.extend_from_slice(structure);
    blob.extend_from_slice(STRINGS);
    blob
}

fn tree(with_cpus: bool, with_aliases: bool) -> Vec<u8> {
    let mut s = Vec::new();
    begin(&mut s, b"");
    if with_aliases {
        begin(&mut s, b"aliases");
        prop(&mut s, SERIAL0, b"/soc/serial@10000000\0");
        prop(&mut s, CONSOLE, b"/soc/uart\0");
        prop(&mut s, EMPTY, b"\0");
        prop(&mut s, BARE, b"soc");
        end(&mut s);
    }
    begin(&mut s, b"soc");
    begin(&mut s, b"serial@10000000");
    end(&mut s);
    begin(&mut s, b"uart");
    begin(&mut s, b"port@1");
    end(&mut s);
    end(&mut s);
    end(&mut s);
    if with_cpus {
        begin(&mut s, b"cpus");
        begin(&mut s, b"cpu@0");
        end(&mut s);
        end(&mut s);
    }
    end(&mut s);
    word(&mut s, 9);
    s
}

fn good_blob() -> Vec<u8> {
    assemble([MAGIC_VALUE, 17, 16], &[], &tree(true, true), 0)
}

#[test]
fn open_round_trips_every_header_field() {
    let structure = tree(true, true);
    let blob = assemble([MAGIC_VALUE, 17, 16], &[(0x8000_0000, 0x1000)], &structure, 3);
    let reader = DtbReader::new(&blob).unwrap();
    let expected = Header {
        magic: 0xd00dfeed,
        totalsize: blob.len() as u32,
        off_dt_struct: 72,
        off_dt_strings: 72 + structure.len() as u32,
        off_mem_rsvmap: 40,
        version: 17,
        last_comp_version: 16,
        boot_cpuid_phys: 3,
        size_dt_strings: STRINGS.len() as u32,
        size_dt_struct: structure.len() as u32,
    };
    assert_eq!(reader.header(), expected);
    assert_eq!(DTB_VERSION, 17);
    assert_eq!(MAGIC_VALUE, 0xd00dfeed);
    assert_eq!(HEADER_SIZE, 40);
}

#[test]
fn open_accepts_the_version_in_either_field() {
    let t = tree(true, false);
    assert!(DtbReader::new(&assemble([MAGIC_VALUE, 17, 2], &[], &t, 0)).is_ok());
    assert!(DtbReader::new(&assemble([MAGIC_VALUE, 18, 17], &[], &t, 0)).is_ok());
    assert_eq!(
        DtbReader::new(&assemble([MAGIC_VALUE, 18, 16], &[], &t, 0)).err(),
        Some(DtbInitError::UnsupportedDtbVersion)
    );
}

#[test]
fn open_rejects_a_wrong_magic_word() {
    let t = tree(true, true);
    assert_eq!(
        DtbReader::new(&assemble([0xfeedd00d, 17, 16], &[], &t, 0)).err(),
        Some(DtbInitError::InvalidHeader { expected: 0xd00dfeed, found: 0xfeedd00d })
    );
    assert_eq!(
        DtbReader::new(&assemble([0, 16, 17], &[], &t, 0)).err(),
        Some(DtbInitError::InvalidHeader { expected: 0xd00dfeed, found: 0 })
    );
    // the version is looked at first
    assert_eq!(
        DtbReader::new(&assemble([0, 16, 16], &[], &t, 0)).err(),
        Some(DtbInitError::UnsupportedDtbVersion)
    );
}

#[test]
fn open_needs_a_whole_header_and_a_root() {
    assert_eq!(
        DtbReader::new(&[]).err(),
        Some(DtbInitError::ParsingError(ParsingError::MalformedTree))
    );
    let blob = good_blob();
    assert_eq!(
        DtbReader::new(&blob[..39]).err(),
        Some(DtbInitError::ParsingError(ParsingError::MalformedTree))
    );
    // header alone: the structure block is missing
    assert_eq!(
        DtbReader::new(&blob[..40]).err(),
        Some(DtbInitError::ParsingError(ParsingError::MalformedTree))
    );
    // the root is never closed
    let mut s = Vec::new();
    begin(&mut s, b"");
    word(&mut s, 9);
    assert_eq!(
        DtbReader::new(&assemble([MAGIC_VALUE, 17, 16], &[], &s, 0)).err(),
        Some(DtbInitError::ParsingError(ParsingError::EarlyEnd))
    );
}

#[test]
fn open_needs_a_cpus_node() {
    assert_eq!(
        DtbReader::new(&assemble([MAGIC_VALUE, 17, 16], &[], &tree(false, true), 0)).err(),
        Some(DtbInitError::NoCpusNode)
    );
    let mut s = Vec::new();
    begin(&mut s, b"");
    end(&mut s);
    assert_eq!(
        DtbReader::new(&assemble([MAGIC_VALUE, 17, 16], &[], &s, 0)).err(),
        Some(DtbInitError::NoCpusNode)
    );
}

#[test]
fn open_reports_a_child_of_the_root_that_cannot_be_decoded() {
    let mut s = Vec::new();
    begin(&mut s, b"");
    begin(&mut s, b"cpus");
    end(&mut s);
    begin(&mut s, &[0x80]);
    end(&mut s);
    end(&mut s);
    let err = DtbReader::new(&assemble([MAGIC_VALUE, 17, 16], &[], &s, 0)).err().unwrap();
    assert!(matches!(
        err,
        DtbInitError::ParsingError(ParsingError::InvalidUtf8NodeName(_))
    ));
}

#[test]
fn root_and_cpus_are_cached() {
    let blob = good_blob();
    let reader = DtbReader::new(&blob).unwrap();
    assert_eq!(reader.root_node().full_name(), "");
    assert_eq!(reader.cpus_node().full_name(), "cpus");
    assert_eq!(reader.cpus_node().get_child("cpu").unwrap().unwrap().address(), Some("0"));
}

#[test]
fn the_last_cpus_node_is_the_one_kept() {
    let mut s = Vec::new();
    begin(&mut s, b"");
    begin(&mut s, b"cpus@1");
    end(&mut s);
    begin(&mut s, b"cpus@2");
    end(&mut s);
    end(&mut s);
    let blob = assemble([MAGIC_VALUE, 17, 16], &[], &s, 0);
    let reader = DtbReader::new(&blob).unwrap();
    assert_eq!(reader.cpus_node().full_name(), "cpus@2");
}

#[test]
fn reserve_entries_stop_at_the_sentinel() {
    let reserve = [(0x8000_0000u64, 0x1000u64), (0, 0x20), (0x1_0000_0000_0000, 0)];
    let blob = assemble([MAGIC_VALUE, 17, 16], &reserve, &tree(true, false), 0);
    let reader = DtbReader::new(&blob).unwrap();
    let mut entries = reader.reserve_entry_iter();
    let mut seen = Vec::new();
    while let Some(entry) = entries.next() {
        seen.push((entry.address(), entry.size()));
    }
    assert_eq!(seen, reserve.to_vec());
    // the cursor stays at the sentinel
    assert!(entries.next().is_none());
    assert!(entries.next().is_none());
}

#[test]
fn an_empty_reservation_block_yields_nothing() {
    let blob = good_blob();
    let reader = DtbReader::new(&blob).unwrap();
    assert!(reader.reserve_entry_iter().next().is_none());
}

#[test]
fn a_reservation_block_cut_short_ends_the_sequence() {
    let mut blob = Vec::new();
    blob.extend_from_slice(&7u64.to_be_bytes());
    blob.extend_from_slice(&9u64.to_be_bytes());
    blob.extend_from_slice(&1u64.to_be_bytes());
    let mut entries = MemoryReserveEntryIter::new(&blob, 0);
    let first = entries.next().unwrap();
    assert_eq!((first.address(), first.size()), (7, 9));
    assert!(entries.next().is_none());
    assert!(MemoryReserveEntryIter::new(&blob, 100).next().is_none());
}

#[test]
fn aliases_resolve_to_their_string_value() {
    let blob = good_blob();
    let reader = DtbReader::new(&blob).unwrap();
    assert_eq!(reader.resolve_alias("serial0").unwrap(), Some("/soc/serial@10000000"));
    assert_eq!(reader.resolve_alias("console").unwrap(), Some("/soc/uart"));
    assert_eq!(reader.resolve_alias("empty").unwrap(), Some(""));
    // a value without a terminator is no string
    assert_eq!(reader.resolve_alias("bare").unwrap(), None);
    assert_eq!(reader.resolve_alias("serial1").unwrap(), None);
    let blob = assemble([MAGIC_VALUE, 17, 16], &[], &tree(true, false), 0);
    let reader = DtbReader::new(&blob).unwrap();
    assert_eq!(reader.resolve_alias("serial0").unwrap(), None);
}

#[test]
fn find_node_root() {
    let blob = good_blob();
    let reader = DtbReader::new(&blob).unwrap();
    let root = reader.find_node("/").unwrap().unwrap();
    assert_eq!(root.full_name(), reader.root_node().full_name());
    assert_eq!(root.end(), reader.root_node().end());
}

#[test]
fn find_node_follows_paths_from_the_root() {
    let blob = good_blob();
    let reader = DtbReader::new(&blob).unwrap();
    assert_eq!(reader.find_node("/soc").unwrap().unwrap().full_name(), "soc");
    assert_eq!(reader.find_node("/soc/uart").unwrap().unwrap().full_name(), "uart");
    assert_eq!(reader.find_node("/soc/uart/port").unwrap().unwrap().full_name(), "port@1");
    assert_eq!(reader.find_node("/soc/serial").unwrap().unwrap().full_name(), "serial@10000000");
    assert_eq!(reader.find_node("/cpus/cpu").unwrap().unwrap().full_name(), "cpu@0");
    assert!(reader.find_node("/nothing").unwrap().is_none());
    assert!(reader.find_node("/soc/nothing/uart").unwrap().is_none());
    assert!(reader.find_node("/soc/").unwrap().is_none());
    assert!(reader.find_node("//soc").unwrap().is_none());
    assert!(reader.find_node("").unwrap().is_none());
}

#[test]
fn find_node_by_alias_is_find_node_by_its_path() {
    let blob = good_blob();
    let reader = DtbReader::new(&blob).unwrap();
    let by_alias = reader.find_node("console").unwrap().unwrap();
    let by_path = reader.find_node("/soc/uart").unwrap().unwrap();
    assert_eq!(by_alias.full_name(), "uart");
    assert_eq!(by_alias.end(), by_path.end());

    // components are matched against names without unit address, so a
    // component that carries one finds nothing, by alias and by path alike
    let by_alias = reader.find_node("serial0").unwrap();
    let by_path = reader.find_node("/soc/serial@10000000").unwrap();
    assert_eq!(by_alias.map(|n| n.end()), by_path.map(|n| n.end()));
    assert!(by_alias.is_none());

    assert!(reader.find_node("empty").unwrap().is_none());
    assert!(reader.find_node("bare").unwrap().is_none());
    assert!(reader.find_node("unknown").unwrap().is_none());
}
