use memscan::chunks::{capped_region_size, chunk_step, overlap_for, scan_buffer, ScanConfig};
use memscan::pattern::{PatternPair, TokenShape};

fn shape(groups: Vec<usize>) -> TokenShape {
    TokenShape::new(groups).expect("shape should be accepted")
}

fn patterns(lead: &[u8], trail: &[u8]) -> PatternPair {
    PatternPair { lead: lead.to_vec(), trail: trail.to_vec() }
}

// Anchored token of total length 11: "<<" + "beef-aa" + ">>".
fn boundary_data() -> Vec<u8> {
    let mut data = vec![b'z'; 32];
    data[10..21].copy_from_slice(b"<<beef-aa>>");
    data
}

#[test]
fn token_spanning_chunk_boundary_is_found_with_wide_overlap() {
    let data = boundary_data();
    let s = shape(vec![4, 2]);
    let p = patterns(b"<<", b">>");
    // Chunk 16: the token at 10..21 straddles the first window's end.
    // Overlap 12 >= token length 11, so a later window re-reads it whole.
    let r = scan_buffer(&data, &s, &p, 16, 12, data.len());
    assert_eq!(r, Some(b"beef-aa".to_vec()));
}

#[test]
fn token_spanning_chunk_boundary_is_missed_with_zero_overlap() {
    let data = boundary_data();
    let s = shape(vec![4, 2]);
    let p = patterns(b"<<", b">>");
    // With no overlap the windows are [0,16) and [16,32): neither holds
    // the whole token, so the scan misses it. This pins the overlap
    // invariant: overlap zero forfeits boundary coverage.
    let r = scan_buffer(&data, &s, &p, 16, 0, data.len());
    assert_eq!(r, None);
}

#[test]
fn token_inside_one_chunk_is_found_even_with_zero_overlap() {
    let mut data = vec![b'z'; 32];
    data[2..13].copy_from_slice(b"<<beef-aa>>");
    let s = shape(vec![4, 2]);
    let p = patterns(b"<<", b">>");
    assert_eq!(scan_buffer(&data, &s, &p, 16, 0, data.len()), Some(b"beef-aa".to_vec()));
}

#[test]
fn scan_never_reads_beyond_the_cap() {
    let mut data = vec![b'z'; 64];
    data[40..51].copy_from_slice(b"<<beef-aa>>");
    let s = shape(vec![4, 2]);
    let p = patterns(b"<<", b">>");
    // The token sits past the cap: clamped scanning must not see it.
    assert_eq!(scan_buffer(&data, &s, &p, 16, 12, 32), None);
    // The full buffer finds it.
    assert_eq!(scan_buffer(&data, &s, &p, 16, 12, 64), Some(b"beef-aa".to_vec()));
}

#[test]
fn overlong_match_can_be_missed_at_a_bad_window_phase() {
    // Coverage is owed only to anchored matches of at most overlap + 1
    // bytes. This one is 34 bytes against overlap 32: placed so that it
    // straddles a window end with phase 31 it fits in no window and is
    // missed; one byte later it sits whole in a window and is found.
    let s = shape(vec![27, 2]);
    let p = patterns(b"((", b"))");
    let occurrence = b"((aaaaaaaaaaaaaaaaaaaaaaaaaaa-bb))";
    assert_eq!(occurrence.len(), 34);
    for (at, expect) in [(63, None), (64, Some(b"aaaaaaaaaaaaaaaaaaaaaaaaaaa-bb".to_vec()))] {
        let mut data = vec![b'z'; 160];
        data[at..at + 34].copy_from_slice(occurrence);
        assert_eq!(scan_buffer(&data, &s, &p, 64, 32, data.len()), expect);
    }
}

#[test]
fn region_size_is_clamped_to_the_configured_cap() {
    let config = ScanConfig { chunk_size: 64, scan_ahead: 8, max_region_bytes: 1 << 20 };
    assert_eq!(capped_region_size(100, &config), 100);
    assert_eq!(capped_region_size(1 << 20, &config), 1 << 20);
    assert_eq!(capped_region_size((1 << 20) + 1, &config), 1 << 20);
    assert_eq!(capped_region_size(usize::MAX, &config), 1 << 20);
}

#[test]
fn step_is_consumed_minus_overlap_but_at_least_one() {
    assert_eq!(chunk_step(64, 16), 48);
    assert_eq!(chunk_step(64, 63), 1);
    assert_eq!(chunk_step(64, 64), 1);
    assert_eq!(chunk_step(16, 64), 1);
    assert_eq!(chunk_step(1, 0), 1);
}

#[test]
fn overlap_is_longer_anchor_plus_scan_ahead() {
    let p = patterns(b"LS:", b";END");
    assert_eq!(overlap_for(&p, 28), 32);
    let q = patterns(b"LONGLEAD", b";E");
    assert_eq!(overlap_for(&q, 0), 8);
}
