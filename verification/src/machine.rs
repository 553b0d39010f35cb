//! The scan orchestrator as an explicit state machine. One scan moves
//! through `Opening`, then `Enumerating` and `Reading` as regions are
//! reported and chunks are read, and ends in `Found`, `Exhausted` or
//! `OpenFailed`. The process handle is held exactly while enumerating or
//! reading, so every terminal state has released it.

use vstd::prelude::*;

use crate::chunks::{overlap_for, overlap_spec, step_spec, window_len_spec, ScanConfig};
use crate::pattern::{
    first_token, lemma_first_token_shape, search_bytes_for_token, shape_matches, PatternPair,
    TokenShape,
};
use crate::region::{scannable_spec, MemoryRegion};

verus! {

/// Where one scan stands. `Found`, `Exhausted` and `OpenFailed` are
/// terminal; the other states name what the scan waits for next.
pub enum ScanState {
    /// Waiting for the process handle to be opened.
    Opening,
    /// Waiting for the region query at `next_addr`.
    Enumerating { next_addr: usize },
    /// Waiting for the chunk at `base + offset` of the current region,
    /// whose scanned size is capped at `capped` bytes.
    Reading { base: usize, capped: usize, offset: usize, next_addr: usize },
    /// A token was found; the scan is over and the handle released.
    Found { token: Vec<u8> },
    /// Every region was walked without a match; the handle is released.
    Exhausted,
    /// The process could not be opened; no handle was ever acquired.
    OpenFailed,
}

/// The states in which the scan holds the process handle.
pub open spec fn holds_handle_spec(s: ScanState) -> bool {
    s is Enumerating || s is Reading
}

/// The states in which the scan is over.
pub open spec fn is_terminal_spec(s: ScanState) -> bool {
    s is Found || s is Exhausted || s is OpenFailed
}

/// Handle accounting: the handle is held exactly while enumerating or
/// reading, so each of the three terminal outcomes — token found, regions
/// exhausted, open failure — stands with the handle released (and an open
/// failure never acquired one).
pub proof fn lemma_terminal_releases_handle(s: ScanState)
    requires
        is_terminal_spec(s),
    ensures
        !holds_handle_spec(s),
{
}

/// The state the machine takes on a region report while enumerating at
/// `a`: no further region ends the walk; a region whose end overflows the
/// address space or fails to advance the walk is a query anomaly and also
/// ends it; a region that is not scannable is skipped; a scannable region
/// is read from its base, capped at the configured maximum.
pub open spec fn after_region(config: ScanConfig, a: usize, region: Option<MemoryRegion>) -> ScanState {
    match region {
        None => ScanState::Exhausted,
        Some(r) => {
            if r.size > usize::MAX - r.base {
                ScanState::Exhausted
            } else if r.base + r.size <= a {
                ScanState::Exhausted
            } else if !scannable_spec(r) {
                ScanState::Enumerating { next_addr: (r.base + r.size) as usize }
            } else {
                ScanState::Reading {
                    base: r.base,
                    capped: if r.size <= config.max_region_bytes {
                        r.size
                    } else {
                        config.max_region_bytes
                    },
                    offset: 0,
                    next_addr: (r.base + r.size) as usize,
                }
            }
        },
    }
}

/// One scan in progress: the configuration, the pattern sought, the
/// computed overlap width, and where the scan stands.
pub struct ScanMachine {
    pub config: ScanConfig,
    pub shape: TokenShape,
    pub patterns: PatternPair,
    pub overlap: usize,
    pub state: ScanState,
}

/// The two machines agree on everything but the state.
pub open spec fn same_setup(a: ScanMachine, b: ScanMachine) -> bool {
    &&& a.config == b.config
    &&& a.shape == b.shape
    &&& a.patterns == b.patterns
    &&& a.overlap == b.overlap
}

impl ScanMachine {
    /// The machine is well formed: usable configuration and shape, the
    /// overlap as configured, and a reading position strictly inside the
    /// capped region, whose top address fits the address space.
    pub open spec fn wf(self) -> bool {
        &&& self.config.wf()
        &&& self.shape.wf()
        &&& self.overlap == overlap_spec(
            self.patterns.lead@,
            self.patterns.trail@,
            self.config.scan_ahead as int,
        )
        &&& match self.state {
            ScanState::Reading { base, capped, offset, next_addr } => {
                &&& capped <= self.config.max_region_bytes
                &&& offset < capped
                &&& base + capped <= usize::MAX
            },
            _ => true,
        }
    }

    /// Builds a machine about to open the target process.
    pub fn new(config: ScanConfig, shape: TokenShape, patterns: PatternPair) -> (r: ScanMachine)
        requires
            config.wf(),
            shape.wf(),
            patterns.lead@.len() + config.scan_ahead <= usize::MAX,
            patterns.trail@.len() + config.scan_ahead <= usize::MAX,
        ensures
            r.wf(),
            r.state is Opening,
            r.config == config,
            r.shape == shape,
            r.patterns == patterns,
    {
        let overlap = overlap_for(&patterns, config.scan_ahead);
        ScanMachine { config, shape, patterns, overlap, state: ScanState::Opening }
    }

    /// Records whether the process handle was obtained: enumeration starts
    /// at address zero on success, and an open failure is terminal.
    pub fn on_opened(&mut self, ok: bool)
        requires
            old(self).wf(),
            old(self).state is Opening,
        ensures
            final(self).wf(),
            same_setup(*old(self), *final(self)),
            ok ==> final(self).state == (ScanState::Enumerating { next_addr: 0 }),
            !ok ==> final(self).state is OpenFailed,
            holds_handle_spec(final(self).state) == ok,
    {
        if ok {
            self.state = ScanState::Enumerating { next_addr: 0 };
        } else {
            self.state = ScanState::OpenFailed;
        }
    }

    /// Takes the enumerator's answer for the query at the current address.
    /// A region with no-access or guard protection — or any other
    /// unscannable region — is never entered for reading: it is skipped or,
    /// on an anomalous report, ends the walk.
    pub fn on_region(&mut self, region: Option<MemoryRegion>)
        requires
            old(self).wf(),
            old(self).state is Enumerating,
        ensures
            final(self).wf(),
            same_setup(*old(self), *final(self)),
            old(self).state matches ScanState::Enumerating { next_addr } ==> final(self).state
                == after_region(old(self).config, next_addr, region),
            region matches Some(r) && !scannable_spec(r) ==> !(final(self).state is Reading),
            !(final(self).state is Found) && !(final(self).state is OpenFailed),
    {
        let a = match &self.state {
            ScanState::Enumerating { next_addr } => *next_addr,
            _ => {
                proof {
                    assert(false);
                }
                0
            },
        };
        match region {
            None => {
                self.state = ScanState::Exhausted;
            },
            Some(r) => {
                if r.size > usize::MAX - r.base {
                    self.state = ScanState::Exhausted;
                } else if r.base + r.size <= a {
                    self.state = ScanState::Exhausted;
                } else if !crate::region::is_scannable(&r) {
                    self.state = ScanState::Enumerating { next_addr: r.base + r.size };
                } else {
                    let capped = crate::chunks::capped_region_size(r.size, &self.config);
                    self.state = ScanState::Reading {
                        base: r.base,
                        capped,
                        offset: 0,
                        next_addr: r.base + r.size,
                    };
                }
            },
        }
    }

    /// The read the machine waits for: the address and length of the next
    /// window of the current region, or nothing outside the reading state.
    pub fn wanted_read(&self) -> (r: Option<(usize, usize)>)
        requires
            self.wf(),
        ensures
            self.state matches ScanState::Reading { base, capped, offset, next_addr } ==> r
                == Some(
                (
                    (base + offset) as usize,
                    window_len_spec(
                        self.config.chunk_size as int,
                        capped as int,
                        offset as int,
                    ) as usize,
                ),
            ),
            !(self.state is Reading) ==> r is None,
    {
        match &self.state {
            ScanState::Reading { base, capped, offset, next_addr: _ } => {
                let wlen = if *capped - *offset < self.config.chunk_size {
                    *capped - *offset
                } else {
                    self.config.chunk_size
                };
                Some((*base + *offset, wlen))
            },
            _ => None,
        }
    }

    /// Takes the outcome of the wanted read. A window that holds an
    /// anchored match ends the scan with the earliest token of that
    /// window. Otherwise — and equally after a failed read, which is never
    /// terminal — the scan advances by the overlap step, moving to the
    /// next region once the capped size is consumed.
    pub fn on_chunk(&mut self, data: Option<&[u8]>)
        requires
            old(self).wf(),
            old(self).state is Reading,
        ensures
            final(self).wf(),
            same_setup(*old(self), *final(self)),
            old(self).state matches ScanState::Reading { base, capped, offset, next_addr } ==> {
                let wlen = window_len_spec(
                    old(self).config.chunk_size as int,
                    capped as int,
                    offset as int,
                );
                let scanned = match data {
                    Some(d) => first_token(
                        d@,
                        old(self).patterns.lead@,
                        old(self).patterns.trail@,
                        old(self).shape.groups@,
                    ),
                    None => None,
                };
                let o2 = offset + step_spec(wlen, old(self).overlap as int);
                &&& (scanned matches Some(t) ==> final(self).state matches ScanState::Found {
                    token,
                } && token@ == t)
                &&& (scanned is None && o2 >= capped ==> final(self).state == (
                ScanState::Enumerating { next_addr }))
                &&& (scanned is None && o2 < capped ==> final(self).state == (ScanState::Reading {
                    base,
                    capped,
                    offset: o2 as usize,
                    next_addr,
                }))
            },
            data is None ==> !is_terminal_spec(final(self).state),
            final(self).state matches ScanState::Found { token } ==> shape_matches(
                token@,
                old(self).shape.groups@,
            ),
    {
        let (base, capped, offset, next_addr) = match &self.state {
            ScanState::Reading { base, capped, offset, next_addr } => (
                *base,
                *capped,
                *offset,
                *next_addr,
            ),
            _ => {
                proof {
                    assert(false);
                }
                (0usize, 0usize, 0usize, 0usize)
            },
        };
        let wlen = if capped - offset < self.config.chunk_size {
            capped - offset
        } else {
            self.config.chunk_size
        };
        let found = match data {
            Some(d) => {
                let r = search_bytes_for_token(d, &self.shape, &self.patterns);
                proof {
                    if r is Some {
                        lemma_first_token_shape(
                            d@,
                            self.patterns.lead@,
                            self.patterns.trail@,
                            self.shape.groups@,
                        );
                    }
                }
                r
            },
            None => None,
        };
        match found {
            Some(token) => {
                self.state = ScanState::Found { token };
            },
            None => {
                let step = crate::chunks::chunk_step(wlen, self.overlap);
                let o2 = offset + step;
                if o2 >= capped {
                    self.state = ScanState::Enumerating { next_addr };
                } else {
                    self.state = ScanState::Reading { base, capped, offset: o2, next_addr };
                }
            },
        }
    }

    /// Whether the scan is over.
    pub fn is_terminal(&self) -> (r: bool)
        ensures
            r == is_terminal_spec(self.state),
    {
        match &self.state {
            ScanState::Found { token: _ } => true,
            ScanState::Exhausted => true,
            ScanState::OpenFailed => true,
            _ => false,
        }
    }

    /// Whether the machine currently holds the process handle.
    pub fn holds_handle(&self) -> (r: bool)
        ensures
            r == holds_handle_spec(self.state),
    {
        match &self.state {
            ScanState::Enumerating { next_addr: _ } => true,
            ScanState::Reading { base: _, capped: _, offset: _, next_addr: _ } => true,
            _ => false,
        }
    }

    /// The found token, outside the found state nothing.
    pub fn token(&self) -> (r: Option<&Vec<u8>>)
        ensures
            self.state matches ScanState::Found { token } ==> r matches Some(t) && t@ == token@,
            !(self.state is Found) ==> r is None,
    {
        match &self.state {
            ScanState::Found { token } => Some(token),
            _ => None,
        }
    }
}

} // verus!
