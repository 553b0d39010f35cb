use memscan::chunks::ScanConfig;
use memscan::pattern::{PatternPair, TokenShape};
use memscan::region::{CommitState, MemoryRegion, Protection};
use memscan::session::ScanSession;

fn begin_session() -> ScanSession {
    let config = ScanConfig { chunk_size: 64, scan_ahead: 29, max_region_bytes: 1 << 20 };
    let shape = TokenShape::new(vec![8, 4, 4]).expect("shape should be accepted");
    let patterns = PatternPair { lead: b"LD:".to_vec(), trail: b":RT".to_vec() };
    // Process 1 always exists; opening it for reading succeeds on this
    // platform (the handle is just the pid), while actual reads of its
    // memory are expected to fail below.
    ScanSession::begin(1, config, shape, patterns)
}

#[test]
fn exhausting_the_enumeration_releases_the_handle() {
    let mut s = begin_session();
    assert!(!s.is_done());
    assert!(s.has_handle());
    s.feed_region(None);
    assert!(s.is_done());
    assert!(!s.has_handle());
    assert_eq!(s.token(), None);
}

#[test]
fn unreadable_region_degrades_to_not_found() {
    let mut s = begin_session();
    // The first page of the address space is never mapped, so every read
    // of this region fails; the scan must skip past it rather than abort.
    s.feed_region(Some(MemoryRegion {
        base: 0x10,
        size: 128,
        protect: Protection::ReadWrite,
        commit: CommitState::Committed,
    }));
    assert!(!s.is_done());
    assert!(s.has_handle());
    s.feed_region(None);
    assert!(s.is_done());
    assert!(!s.has_handle());
    assert_eq!(s.token(), None);
}

#[test]
fn guarded_region_is_skipped_without_reading() {
    let mut s = begin_session();
    s.feed_region(Some(MemoryRegion {
        base: 0x10,
        size: 128,
        protect: Protection::Guard,
        commit: CommitState::Committed,
    }));
    assert!(!s.is_done());
    s.feed_region(None);
    assert!(s.is_done());
    assert!(!s.has_handle());
}
