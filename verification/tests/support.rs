use hw_discovery::allocator::{align_up, Allocator, BumpAllocator};
use hw_discovery::dtb::{Dtb, DtbInitError, FdtHeader, FdtReserveEntry, FtdReserveEntryIter};
use hw_discovery::heap;
use hw_discovery::log::{log, parse_log_level, should_log, LogLevel, DEFAULT_LOG_LEVEL};
use hw_discovery::process::{ProcessManager, MAX_PROCESS, SAVED_WORDS, STACK_SIZE};
use hw_discovery::text::{decode, index_of, same_text};
use hw_discovery::time::{Time, NANOS_PER_SECOND, NANOS_PER_TICK, TICKS_PER_SECOND};

#[test]
fn align_up_rounds_to_the_next_multiple() {
    assert_eq!(align_up(0, 8), 0);
    assert_eq!(align_up(1, 8), 8);
    assert_eq!(align_up(8, 8), 8);
    assert_eq!(align_up(9, 8), 16);
    assert_eq!(align_up(0x1001, 0x1000), 0x2000);
    assert_eq!(align_up(17, 1), 17);
    assert_eq!(align_up(usize::MAX - 8, 8), usize::MAX - 7);
}

#[test]
fn bump_allocator_moves_forward_only() {
    let mut a = BumpAllocator::init(0x1003, 0x2000);
    assert_eq!(a.get_available(), 0x2000 - 0x1003);
    assert_eq!(a.allocate(0x10, 8), Ok(0x1008));
    assert_eq!(a.get_available(), 0x2000 - 0x1018);
    assert_eq!(a.allocate(1, 1), Ok(0x1018));
    assert_eq!(a.allocate(0, 0x100), Ok(0x1100));
    a.deallocate(0x1008, 0x10, 8);
    assert_eq!(a.get_available(), 0x2000 - 0x1100);
    // what does not fit is refused and changes nothing
    assert_eq!(a.allocate(0xf01, 1), Err(()));
    assert_eq!(a.allocate(usize::MAX, 1), Err(()));
    assert_eq!(a.allocate(1, 0x4000), Err(()));
    assert_eq!(a.get_available(), 0x2000 - 0x1100);
    assert_eq!(a.allocate(0xf00, 1), Ok(0x1100));
    assert_eq!(a.get_available(), 0);
    assert_eq!(a.allocate(0, 1), Ok(0x2000));
    assert_eq!(a.allocate(1, 1), Err(()));
}

#[test]
fn bump_allocator_refuses_a_bad_alignment() {
    let mut a = BumpAllocator::init(0, 0x1000);
    assert_eq!(a.allocate(8, 0), Err(()));
    assert_eq!(a.allocate(8, 3), Err(()));
    assert_eq!(a.allocate(8, 12), Err(()));
    assert_eq!(a.get_available(), 0x1000);
    let mut high = BumpAllocator::init(usize::MAX - 4, usize::MAX);
    assert_eq!(high.allocate(1, 8), Err(()));
    assert_eq!(high.allocate(1, 1), Ok(usize::MAX - 4));
}

#[test]
fn the_early_heap_hands_out_nothing_before_it_has_memory() {
    let mut a = heap::Allocator::new();
    assert_eq!(a.get_available(), 0);
    assert_eq!(a.allocate(1, 1), Err(()));
    assert_eq!(a.allocate(0, 1), Err(()));
    a.init(0x100, 0x200);
    assert_eq!(a.get_available(), 0x100);
    assert_eq!(a.allocate(0x20, 0x40), Ok(0x100));
    assert_eq!(a.allocate(0x20, 0x40), Ok(0x140));
    assert_eq!(a.get_available(), 0x200 - 0x160);
    a.deallocate(0x100, 0x20, 0x40);
    assert_eq!(a.get_available(), 0x200 - 0x160);
    assert_eq!(a.allocate(0x81, 0x80), Err(()));
    assert_eq!(a.allocate(8, 6), Err(()));
    assert_eq!(a.allocate(0x80, 0x80), Ok(0x180));
    assert_eq!(a.get_available(), 0);
    a.init(0x1000, 0x1010);
    assert_eq!(a.get_available(), 0x10);
}

#[test]
fn log_levels_have_names_and_ranks() {
    assert_eq!(LogLevel::Error.as_str(), "ERROR");
    assert_eq!(LogLevel::Warn.as_str(), "WARN");
    assert_eq!(LogLevel::Info.as_str(), "INFO");
    assert_eq!(LogLevel::Debug.as_str(), "DEBUG");
    assert_eq!(LogLevel::Error.as_u8(), 0);
    assert_eq!(LogLevel::Warn.as_u8(), 1);
    assert_eq!(LogLevel::Info.as_u8(), 2);
    assert_eq!(LogLevel::Debug.as_u8(), 3);
}

#[test]
fn a_logged_line_names_its_level() {
    assert_eq!(log(LogLevel::Info, "Stdout Path: /soc/serial"), "[INFO] Stdout Path: /soc/serial\n");
    assert_eq!(log(LogLevel::Error, ""), "[ERROR] \n");
    assert_eq!(log(LogLevel::Debug, "a\nb"), "[DEBUG] a\nb\n");
    assert_eq!(log(LogLevel::Warn, "\u{e9}"), "[WARN] \u{e9}\n");
}

#[test]
fn the_log_level_is_read_from_its_first_digit() {
    assert_eq!(DEFAULT_LOG_LEVEL, 2);
    assert_eq!(parse_log_level(None), 2);
    assert_eq!(parse_log_level(Some("")), 2);
    assert_eq!(parse_log_level(Some("0")), 0);
    assert_eq!(parse_log_level(Some("3")), 3);
    assert_eq!(parse_log_level(Some("9")), 9);
    assert_eq!(parse_log_level(Some("17")), 1);
    assert_eq!(parse_log_level(Some("debug")), 2);
    assert_eq!(parse_log_level(Some(" 1")), 2);
    assert_eq!(parse_log_level(Some("\u{663}")), 2);
    assert!(should_log(LogLevel::Error, 0));
    assert!(!should_log(LogLevel::Warn, 0));
    assert!(should_log(LogLevel::Info, 2));
    assert!(!should_log(LogLevel::Debug, 2));
    assert!(should_log(LogLevel::Debug, 3));
}

#[test]
fn ticks_are_a_hundred_nanoseconds() {
    assert_eq!(TICKS_PER_SECOND, 10_000_000);
    assert_eq!(NANOS_PER_SECOND, 1_000_000_000);
    assert_eq!(NANOS_PER_TICK, 100);
    assert_eq!(Time::nanos(0), 0);
    assert_eq!(Time::nanos(1), 100);
    assert_eq!(Time::nanos(10_000_000), 1_000_000_000);
    assert_eq!(Time::nanos(u64::MAX / 100), u64::MAX / 100 * 100);
}

#[test]
fn processes_take_the_first_free_slot() {
    let mut table = ProcessManager::default();
    assert!(table.get(0).is_none());
    for expected in 0..MAX_PROCESS {
        assert_eq!(table.new_process(0x8000_0000 + expected), Ok(expected));
    }
    assert_eq!(table.new_process(0x9000_0000), Err("Max processes reached"));
    assert!(table.get(MAX_PROCESS).is_none());
    let p = table.get(3).unwrap();
    assert_eq!(p.pid(), 3);
    assert_eq!(p.stack_pointer(), 0);
    assert_eq!(p.stack().len(), STACK_SIZE);
    assert_eq!(STACK_SIZE, 8192);
    assert_eq!(SAVED_WORDS, 13);
    for (i, word) in p.stack().iter().enumerate() {
        if i == STACK_SIZE - 13 {
            assert_eq!(*word, 0x8000_0003);
        } else {
            assert_eq!(*word, 0);
        }
    }
}

fn header_blob(magic: u32, version: u32, last_comp: u32) -> Vec<u8> {
    let mut blob = Vec::new();
    for field in [magic, 72, 56, 64, 40, version, last_comp, 1, 8, 8] {
        blob.extend_from_slice(&field.to_be_bytes());
    }
    blob.extend_from_slice(&0x8000_0000u64.to_be_bytes());
    blob.extend_from_slice(&0x2000u64.to_be_bytes());
    blob.extend_from_slice(&[0u8; 16]);
    blob
}

#[test]
fn the_header_alone_can_be_read() {
    let blob = header_blob(0xd00dfeed, 17, 16);
    let dtb = Dtb::new(&blob).ok().unwrap();
    assert_eq!(
        dtb.header(),
        FdtHeader {
            magic: 0xd00dfeed,
            totalsize: 72,
            off_dt_struct: 56,
            off_dt_strings: 64,
            off_mem_rsvmap: 40,
            version: 17,
            last_comp_version: 16,
            boot_cpuid_phys: 1,
            size_dt_strings: 8,
            size_dt_struct: 8,
        }
    );
    let mut entries = dtb.reserve_entry_iter();
    assert_eq!(entries.next(), Some(FdtReserveEntry { address: 0x8000_0000, size: 0x2000 }));
    assert_eq!(entries.next(), None);
    assert_eq!(entries.next(), None);
    let mut entries = FtdReserveEntryIter::new(&blob, 56);
    assert_eq!(entries.next(), None);

    assert!(Dtb::new(&header_blob(0xd00dfeed, 3, 17)).is_ok());
    assert_eq!(
        Dtb::new(&header_blob(0xd00dfeed, 16, 18)).err(),
        Some(DtbInitError::UnsupportedDtbVersion)
    );
    assert_eq!(
        Dtb::new(&header_blob(0xedfe0dd0, 17, 17)).err(),
        Some(DtbInitError::InvalidHeader { expected: 0xd00dfeed, found: 0xedfe0dd0 })
    );
    assert_eq!(
        Dtb::new(&header_blob(1, 1, 1)).err(),
        Some(DtbInitError::UnsupportedDtbVersion)
    );
}

#[test]
fn text_helpers_work_on_characters() {
    assert!(same_text("", ""));
    assert!(same_text("cpus", "cpus"));
    assert!(!same_text("cpus", "cpu"));
    assert!(!same_text("cpus", "cpuz"));
    assert!(same_text("\u{e9}t\u{e9}", "\u{e9}t\u{e9}"));
    assert_eq!(index_of("a/b/c", '/', 0), 1);
    assert_eq!(index_of("a/b/c", '/', 1), 1);
    assert_eq!(index_of("a/b/c", '/', 2), 3);
    assert_eq!(index_of("a/b/c", '/', 4), 5);
    assert_eq!(index_of("\u{e9}@x", '@', 0), 1);
    assert_eq!(index_of("", '@', 0), 0);
    assert_eq!(decode(b"soc"), Ok("soc"));
    assert_eq!(decode(&[0xe2, 0x82, 0xac]), Ok("\u{20ac}"));
    assert_eq!(decode(&[0x61, 0x80]).err(), core::str::from_utf8(&[0x61, 0x80]).err());
    assert!(decode(&[0xed, 0xa0, 0x80]).is_err());
}
