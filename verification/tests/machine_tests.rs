use memscan::chunks::ScanConfig;
use memscan::machine::ScanMachine;
use memscan::pattern::{PatternPair, TokenShape};
use memscan::region::{CommitState, MemoryRegion, Protection};

fn machine(chunk_size: usize, scan_ahead: usize, max_region_bytes: usize) -> ScanMachine {
    let config = ScanConfig { chunk_size, scan_ahead, max_region_bytes };
    let shape = TokenShape::new(vec![8, 4, 4]).expect("shape should be accepted");
    let patterns = PatternPair { lead: b"LD:".to_vec(), trail: b":RT".to_vec() };
    ScanMachine::new(config, shape, patterns)
}

fn rw_region(base: usize, size: usize) -> MemoryRegion {
    MemoryRegion { base, size, protect: Protection::ReadWrite, commit: CommitState::Committed }
}

// Serves every wanted read from `page`, failing reads whose region offset
// is listed in `fail_at`, until the machine leaves the reading state.
fn serve_reads(m: &mut ScanMachine, base: usize, page: &[u8], fail_at: &[usize]) -> usize {
    let mut reads = 0;
    while let Some((addr, len)) = m.wanted_read() {
        reads += 1;
        let off = addr - base;
        assert!(off + len <= page.len(), "read beyond the capped region");
        if fail_at.contains(&off) {
            m.on_chunk(None);
        } else {
            m.on_chunk(Some(&page[off..off + len]));
        }
    }
    reads
}

// A page of non-matching noise with one anchored token written at `at`.
fn page_with_token(len: usize, at: usize) -> (Vec<u8>, Vec<u8>) {
    let body = b"deadbeef-cafe-0123".to_vec();
    let mut page = vec![b'z'; len];
    page[at..at + 3].copy_from_slice(b"LD:");
    page[at + 3..at + 21].copy_from_slice(&body);
    page[at + 21..at + 24].copy_from_slice(b":RT");
    (page, body)
}

#[test]
fn guard_and_noaccess_regions_are_never_read() {
    let mut m = machine(64, 29, 1 << 20);
    m.on_opened(true);
    let mut base = 0x1000;
    for protect in [Protection::Guard, Protection::NoAccess] {
        m.on_region(Some(MemoryRegion {
            base,
            size: 0x1000,
            protect,
            commit: CommitState::Committed,
        }));
        // No read is ever wanted against such a region: it was skipped.
        assert!(m.wanted_read().is_none());
        assert!(!m.is_terminal());
        assert!(m.holds_handle());
        base += 0x1000;
    }
}

#[test]
fn reserved_and_free_regions_are_never_read() {
    let mut m = machine(64, 29, 1 << 20);
    m.on_opened(true);
    let mut base = 0x1000;
    for commit in [CommitState::Reserved, CommitState::Free] {
        m.on_region(Some(MemoryRegion {
            base,
            size: 0x1000,
            protect: Protection::ReadWrite,
            commit,
        }));
        assert!(m.wanted_read().is_none());
        assert!(!m.is_terminal());
        base += 0x1000;
    }
}

#[test]
fn readonly_regions_are_never_read() {
    let mut m = machine(64, 29, 1 << 20);
    m.on_opened(true);
    m.on_region(Some(MemoryRegion {
        base: 0x1000,
        size: 0x1000,
        protect: Protection::ReadOnly,
        commit: CommitState::Committed,
    }));
    assert!(m.wanted_read().is_none());
}

#[test]
fn read_failure_does_not_abort_the_scan() {
    let (page, body) = page_with_token(4096, 300);
    let mut m = machine(64, 29, 1 << 20);
    m.on_opened(true);
    m.on_region(Some(rw_region(0x10000, page.len())));
    // The very first window fails to read; the token lies later in the
    // same region and must still be found.
    serve_reads(&mut m, 0x10000, &page, &[0]);
    assert_eq!(m.token(), Some(&body));
    assert!(m.is_terminal());
    assert!(!m.holds_handle());
}

#[test]
fn token_after_several_read_failures_is_still_found() {
    let (page, body) = page_with_token(4096, 2000);
    let mut m = machine(64, 29, 1 << 20);
    m.on_opened(true);
    m.on_region(Some(rw_region(0x10000, page.len())));
    serve_reads(&mut m, 0x10000, &page, &[0, 32, 64, 96]);
    assert_eq!(m.token(), Some(&body));
}

#[test]
fn handle_released_when_token_found_mid_scan() {
    let (page, body) = page_with_token(4096, 128);
    let mut m = machine(64, 29, 1 << 20);
    m.on_opened(true);
    assert!(m.holds_handle());
    m.on_region(Some(rw_region(0x10000, page.len())));
    serve_reads(&mut m, 0x10000, &page, &[]);
    assert_eq!(m.token(), Some(&body));
    assert!(m.is_terminal());
    assert!(!m.holds_handle());
}

#[test]
fn handle_released_when_all_regions_are_exhausted() {
    let page = vec![b'z'; 256];
    let mut m = machine(64, 29, 1 << 20);
    m.on_opened(true);
    m.on_region(Some(rw_region(0x10000, page.len())));
    serve_reads(&mut m, 0x10000, &page, &[]);
    assert!(!m.is_terminal());
    assert!(m.holds_handle());
    m.on_region(None);
    assert!(m.is_terminal());
    assert!(!m.holds_handle());
    assert_eq!(m.token(), None);
}

#[test]
fn open_failure_is_terminal_and_acquired_nothing() {
    let mut m = machine(64, 29, 1 << 20);
    m.on_opened(false);
    assert!(m.is_terminal());
    assert!(!m.holds_handle());
    assert_eq!(m.token(), None);
}

#[test]
fn oversized_region_is_scanned_only_up_to_the_cap() {
    // The region reports 4096 bytes but the cap is 256: the token at 1000
    // is beyond the cap and must not be found, and no read may reach past
    // the cap (serve_reads asserts reads stay inside the page it serves).
    let (page, _) = page_with_token(4096, 1000);
    let mut m = machine(64, 29, 256);
    m.on_opened(true);
    m.on_region(Some(rw_region(0x10000, 4096)));
    serve_reads(&mut m, 0x10000, &page[..256], &[]);
    assert!(!m.is_terminal());
    m.on_region(None);
    assert_eq!(m.token(), None);
}

#[test]
fn region_walk_that_stops_advancing_ends_the_scan() {
    let mut m = machine(64, 29, 1 << 20);
    m.on_opened(true);
    // A region ending at an address not past the query address is a query
    // anomaly: the walk soft-stops rather than looping forever.
    m.on_region(Some(MemoryRegion {
        base: 0,
        size: 0,
        protect: Protection::ReadWrite,
        commit: CommitState::Committed,
    }));
    assert!(m.is_terminal());
    assert!(!m.holds_handle());
}

#[test]
fn region_overflowing_the_address_space_ends_the_scan() {
    let mut m = machine(64, 29, 1 << 20);
    m.on_opened(true);
    m.on_region(Some(rw_region(usize::MAX - 10, 4096)));
    assert!(m.is_terminal());
    assert!(!m.holds_handle());
}

#[test]
fn end_to_end_one_page_scan_finds_token_wherever_it_lands() {
    // One 4096-byte page, chunk size 64, overlap 32 (anchors of width 3
    // plus scan-ahead 29). The anchored token is 24 bytes in all, so any
    // placement fits wholly inside some 64-byte window of the schedule.
    let total = 24;
    let mut at = 0;
    while at + total <= 4096 {
        let (page, body) = page_with_token(4096, at);
        let mut m = machine(64, 29, 1 << 20);
        m.on_opened(true);
        m.on_region(Some(rw_region(0x7f0000, page.len())));
        serve_reads(&mut m, 0x7f0000, &page, &[]);
        assert_eq!(m.token(), Some(&body), "token missed at offset {}", at);
        assert!(!m.holds_handle());
        at += 111;
    }
    // The last possible placement, flush against the page end.
    let (page, body) = page_with_token(4096, 4096 - total);
    let mut m = machine(64, 29, 1 << 20);
    m.on_opened(true);
    m.on_region(Some(rw_region(0x7f0000, page.len())));
    serve_reads(&mut m, 0x7f0000, &page, &[]);
    assert_eq!(m.token(), Some(&body));
}
