//! The chunked reader's schedule: a region is covered by successive windows
//! of at most one chunk, each later window re-reading the configured overlap
//! so that a token near a window boundary appears intact in at least one
//! window. The same step is taken whether a window was read or failed.

use vstd::prelude::*;

use crate::pattern::{first_token, groups_wf, match_at, total_len, PatternPair, TokenShape};
use crate::pattern::{lemma_body_len_positive, lemma_first_token_characterizes};

verus! {

/// The scan's tuning constants: how many bytes one read pulls, how many
/// extra bytes each later window re-reads beyond the anchor widths, and the
/// cap on how much of a single region is scanned.
pub struct ScanConfig {
    pub chunk_size: usize,
    pub scan_ahead: usize,
    pub max_region_bytes: usize,
}

impl ScanConfig {
    /// The constants are usable: reads are nonempty and a region cap exists.
    pub open spec fn wf(self) -> bool {
        self.chunk_size >= 1 && self.max_region_bytes >= 1
    }
}

/// The width re-read at the start of each later window: wide enough for
/// either anchor plus the configured scan-ahead, so an anchored token that
/// straddles a window boundary is seen whole in the next window.
pub open spec fn overlap_spec(lead: Seq<u8>, trail: Seq<u8>, scan_ahead: int) -> int {
    if lead.len() >= trail.len() {
        lead.len() + scan_ahead
    } else {
        trail.len() + scan_ahead
    }
}

/// Computes the overlap width: the longer anchor plus the scan-ahead.
pub fn overlap_for(patterns: &PatternPair, scan_ahead: usize) -> (r: usize)
    requires
        patterns.lead@.len() + scan_ahead <= usize::MAX,
        patterns.trail@.len() + scan_ahead <= usize::MAX,
    ensures
        r == overlap_spec(patterns.lead@, patterns.trail@, scan_ahead as int),
{
    let longer = if patterns.lead.len() >= patterns.trail.len() {
        patterns.lead.len()
    } else {
        patterns.trail.len()
    };
    longer + scan_ahead
}

/// Clamps a region's reported size to the configured cap: a region is
/// scanned only up to `min(size, max_region_bytes)`, never beyond.
pub fn capped_region_size(size: usize, config: &ScanConfig) -> (r: usize)
    ensures
        r == if size <= config.max_region_bytes {
            size as int
        } else {
            config.max_region_bytes as int
        },
{
    if size <= config.max_region_bytes {
        size
    } else {
        config.max_region_bytes
    }
}

/// How far the scan advances after consuming (or failing to consume) a
/// window of `consumed` bytes: the window length less the overlap, but at
/// least one byte, so the scan always makes progress.
pub open spec fn step_spec(consumed: int, overlap: int) -> int {
    if consumed - overlap >= 1 {
        consumed - overlap
    } else {
        1
    }
}

/// The length of the window that starts at offset `o` of a region capped at
/// `cap` bytes: a full chunk where one fits, the remainder otherwise.
pub open spec fn window_len_spec(chunk: int, cap: int, o: int) -> int {
    if cap - o < chunk {
        cap - o
    } else {
        chunk
    }
}

/// Advances by the overlap step: `max(1, consumed - overlap)`.
pub fn chunk_step(consumed: usize, overlap: usize) -> (r: usize)
    ensures
        r == step_spec(consumed as int, overlap as int),
        r >= 1,
{
    if consumed > overlap && consumed - overlap >= 1 {
        consumed - overlap
    } else {
        1
    }
}

/// The token found by scanning windows of `data` below `cap`, starting at
/// offset `o`: each window is searched in turn, and the first window that
/// holds an anchored match yields the body of its earliest match.
pub open spec fn scan_from(
    data: Seq<u8>,
    lead: Seq<u8>,
    trail: Seq<u8>,
    groups: Seq<usize>,
    chunk: int,
    overlap: int,
    cap: int,
    o: int,
) -> Option<Seq<u8>>
    decreases cap - o,
{
    if o < 0 || o >= cap || chunk < 1 {
        None
    } else {
        let wlen = window_len_spec(chunk, cap, o);
        match first_token(data.subrange(o, o + wlen), lead, trail, groups) {
            Some(t) => Some(t),
            None => {
                let o2 = o + step_spec(wlen, overlap);
                if o2 >= cap {
                    None
                } else {
                    scan_from(data, lead, trail, groups, chunk, overlap, cap, o2)
                }
            },
        }
    }
}

/// Scans an in-memory buffer exactly as a readable region is scanned: in
/// windows of at most `config.chunk_size` bytes, each later window starting
/// `overlap` bytes before the end of the previous one, over at most the
/// first `cap` bytes. Returns what `scan_from` says: the earliest token of
/// the first window that holds an anchored match.
pub fn scan_buffer(
    data: &[u8],
    shape: &TokenShape,
    patterns: &PatternPair,
    chunk: usize,
    overlap: usize,
    cap: usize,
) -> (r: Option<Vec<u8>>)
    requires
        shape.wf(),
        chunk >= 1,
        cap <= data@.len(),
    ensures
        (r is Some) == (scan_from(
            data@,
            patterns.lead@,
            patterns.trail@,
            shape.groups@,
            chunk as int,
            overlap as int,
            cap as int,
            0,
        ) is Some),
        r matches Some(t) ==> Some(t@) == scan_from(
            data@,
            patterns.lead@,
            patterns.trail@,
            shape.groups@,
            chunk as int,
            overlap as int,
            cap as int,
            0,
        ),
{
    let ghost lead = patterns.lead@;
    let ghost trail = patterns.trail@;
    let ghost groups = shape.groups@;
    let mut offset: usize = 0;
    while offset < cap
        invariant
            shape.wf(),
            chunk >= 1,
            cap <= data@.len(),
            0 <= offset,
            lead == patterns.lead@,
            trail == patterns.trail@,
            groups == shape.groups@,
            scan_from(data@, lead, trail, groups, chunk as int, overlap as int, cap as int, 0)
                == scan_from(
                data@,
                lead,
                trail,
                groups,
                chunk as int,
                overlap as int,
                cap as int,
                offset as int,
            ),
        decreases cap - offset,
    {
        let wlen = if cap - offset < chunk {
            cap - offset
        } else {
            chunk
        };
        let window = vstd::slice::slice_subrange(data, offset, offset + wlen);
        let found = crate::pattern::search_bytes_for_token(window, shape, patterns);
        proof {
            assert(window@ == data@.subrange(offset as int, offset + wlen));
            assert(wlen == window_len_spec(chunk as int, cap as int, offset as int));
        }
        match found {
            Some(token) => {
                return Some(token);
            },
            None => {
                let step = chunk_step(wlen, overlap);
                proof {
                    assert(scan_from(
                        data@,
                        lead,
                        trail,
                        groups,
                        chunk as int,
                        overlap as int,
                        cap as int,
                        offset as int,
                    ) == scan_from(
                        data@,
                        lead,
                        trail,
                        groups,
                        chunk as int,
                        overlap as int,
                        cap as int,
                        offset + step,
                    ));
                }
                offset = offset + step;
            },
        }
    }
    None
}

/// A match that lies wholly inside a window of the region is a match of the
/// window, at the shifted position.
proof fn lemma_match_in_window(
    data: Seq<u8>,
    lead: Seq<u8>,
    trail: Seq<u8>,
    groups: Seq<usize>,
    p: int,
    o: int,
    we: int,
)
    requires
        match_at(data, lead, trail, groups, p),
        crate::pattern::shape_body_len(groups) >= 0,
        0 <= o <= p,
        p + total_len(lead, groups, trail) <= we <= data.len(),
    ensures
        match_at(data.subrange(o, we), lead, trail, groups, p - o),
{
    let w = data.subrange(o, we);
    let tl = total_len(lead, groups, trail);
    let body = crate::pattern::shape_body_len(groups);
    assert(w.subrange(p - o, p - o + lead.len()) =~= data.subrange(p, p + lead.len())) by {
        assert forall|k: int| 0 <= k < lead.len() implies #[trigger] w.subrange(
            p - o,
            p - o + lead.len(),
        )[k] == data.subrange(p, p + lead.len())[k] by {
            assert(w[p - o + k] == data[p + k]);
        }
    }
    assert(w.subrange(p - o + lead.len(), p - o + lead.len() + body) =~= data.subrange(
        p + lead.len(),
        p + lead.len() + body,
    )) by {
        assert forall|k: int| 0 <= k < body implies #[trigger] w.subrange(
            p - o + lead.len(),
            p - o + lead.len() + body,
        )[k] == data.subrange(p + lead.len(), p + lead.len() + body)[k] by {
            assert(w[p - o + lead.len() + k] == data[p + lead.len() + k]);
        }
    }
    assert(w.subrange(p - o + lead.len() + body, p - o + tl) =~= data.subrange(
        p + lead.len() + body,
        p + tl,
    )) by {
        assert forall|k: int| 0 <= k < trail.len() implies #[trigger] w.subrange(
            p - o + lead.len() + body,
            p - o + tl,
        )[k] == data.subrange(p + lead.len() + body, p + tl)[k] by {
            assert(w[p - o + lead.len() + body + k] == data[p + lead.len() + body + k]);
        }
    }
}

/// The overlap invariant (chunk-boundary coverage): when the overlap is
/// wide enough that a whole anchored match fits in `overlap + 1` bytes, a
/// match lying anywhere below the cap is never missed — the window schedule
/// from any offset at or before the match finds some token.
pub proof fn lemma_overlap_covers(
    data: Seq<u8>,
    lead: Seq<u8>,
    trail: Seq<u8>,
    groups: Seq<usize>,
    chunk: int,
    overlap: int,
    cap: int,
    o: int,
    p: int,
)
    requires
        groups_wf(groups),
        cap <= data.len(),
        0 <= overlap < chunk,
        match_at(data, lead, trail, groups, p),
        p + total_len(lead, groups, trail) <= cap,
        total_len(lead, groups, trail) <= overlap + 1,
        0 <= o <= p,
    ensures
        scan_from(data, lead, trail, groups, chunk, overlap, cap, o) is Some,
    decreases p - o,
{
    let tl = total_len(lead, groups, trail);
    lemma_body_len_positive(groups);
    assert(o < cap);
    let wlen = window_len_spec(chunk, cap, o);
    let we = o + wlen;
    let w = data.subrange(o, we);
    if we >= p + tl {
        lemma_match_in_window(data, lead, trail, groups, p, o, we);
        lemma_first_token_characterizes(w, lead, trail, groups);
        assert(match_at(w, lead, trail, groups, p - o));
        assert(first_token(w, lead, trail, groups) is Some);
    } else {
        assert(wlen == chunk);
        match first_token(w, lead, trail, groups) {
            Some(t) => {},
            None => {
                let o2 = o + step_spec(wlen, overlap);
                assert(o2 == o + (chunk - overlap));
                assert(o2 <= p);
                lemma_overlap_covers(data, lead, trail, groups, chunk, overlap, cap, o2, p);
            },
        }
    }
}

/// Region clamping: the scan of a capped region never depends on any byte
/// at or past the cap — two buffers that agree below the cap scan alike.
pub proof fn lemma_scan_ignores_beyond_cap(
    d1: Seq<u8>,
    d2: Seq<u8>,
    lead: Seq<u8>,
    trail: Seq<u8>,
    groups: Seq<usize>,
    chunk: int,
    overlap: int,
    cap: int,
    o: int,
)
    requires
        cap <= d1.len(),
        cap <= d2.len(),
        d1.subrange(0, cap) == d2.subrange(0, cap),
    ensures
        scan_from(d1, lead, trail, groups, chunk, overlap, cap, o) == scan_from(
            d2,
            lead,
            trail,
            groups,
            chunk,
            overlap,
            cap,
            o,
        ),
    decreases cap - o,
{
    if o < 0 || o >= cap || chunk < 1 {
    } else {
        let wlen = window_len_spec(chunk, cap, o);
        assert(d1.subrange(o, o + wlen) =~= d2.subrange(o, o + wlen)) by {
            assert forall|k: int| 0 <= k < wlen implies #[trigger] d1.subrange(o, o + wlen)[k]
                == d2.subrange(o, o + wlen)[k] by {
                assert(d1.subrange(0, cap)[o + k] == d1[o + k]);
                assert(d2.subrange(0, cap)[o + k] == d2[o + k]);
            }
        }
        let o2 = o + step_spec(wlen, overlap);
        if o2 < cap {
            lemma_scan_ignores_beyond_cap(d1, d2, lead, trail, groups, chunk, overlap, cap, o2);
        }
    }
}

} // verus!
