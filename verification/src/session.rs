//! One scan against a live process: owns the process handle for the
//! duration of the scan and drives the state machine through the chunk
//! reads itself, so that the handle is provably held exactly while the
//! scan is in progress and released on every terminal outcome. The region
//! reports still come from outside, since walking the address space is an
//! operating-system service.

use vstd::prelude::*;

use crate::chunks::ScanConfig;
use crate::machine::{after_region, holds_handle_spec, is_terminal_spec, ScanMachine, ScanState};
use crate::pattern::{shape_matches, PatternPair, TokenShape};
use crate::region::MemoryRegion;

verus! {

#[verifier::external_type_specification]
#[verifier::external_body]
pub struct ExProcessHandle(read_process_memory::ProcessHandle);

/// Relies on read_process_memory's `TryFrom<Pid> for ProcessHandle`: asks
/// the operating system for a read capability on the process, which it may
/// deny; nothing is promised of the outcome.
#[verifier::external_body]
fn open_process(pid: u32) -> (r: Option<read_process_memory::ProcessHandle>) {
    read_process_memory::ProcessHandle::try_from(pid as read_process_memory::Pid).ok()
}

/// Relies on read_process_memory::copy_address: on success the returned
/// buffer holds exactly `len` bytes copied from the target's address
/// space; what they hold depends on the target and is not promised.
#[verifier::external_body]
fn read_chunk(handle: &read_process_memory::ProcessHandle, addr: usize, len: usize) -> (r: Option<
    Vec<u8>,
>)
    ensures
        r matches Some(b) ==> b@.len() == len,
{
    read_process_memory::copy_address(addr, len, handle).ok()
}

/// A scan of one process, from open to release.
pub struct ScanSession {
    /// The state machine standing for this scan.
    pub machine: ScanMachine,
    /// The read capability, held exactly while the machine says so.
    pub handle: Option<read_process_memory::ProcessHandle>,
}

impl ScanSession {
    /// The session is sound: the machine is well formed and the handle is
    /// held exactly while the machine says it is.
    pub open spec fn wf(self) -> bool {
        &&& self.machine.wf()
        &&& holds_handle_spec(self.machine.state) <==> self.handle is Some
    }

    /// Opens the target process and stands ready to enumerate its regions
    /// from address zero; if the open is denied the session is already
    /// terminal with nothing acquired.
    pub fn begin(pid: u32, config: ScanConfig, shape: TokenShape, patterns: PatternPair) -> (s:
        ScanSession)
        requires
            config.wf(),
            shape.wf(),
            patterns.lead@.len() + config.scan_ahead <= usize::MAX,
            patterns.trail@.len() + config.scan_ahead <= usize::MAX,
        ensures
            s.wf(),
            s.machine.state is Enumerating || s.machine.state is OpenFailed,
            s.machine.state is Enumerating ==> s.machine.state == (ScanState::Enumerating {
                next_addr: 0,
            }),
            s.machine.config == config,
            s.machine.shape == shape,
            s.machine.patterns == patterns,
    {
        let mut machine = ScanMachine::new(config, shape, patterns);
        match open_process(pid) {
            Some(h) => {
                machine.on_opened(true);
                ScanSession { machine, handle: Some(h) }
            },
            None => {
                machine.on_opened(false);
                ScanSession { machine, handle: None }
            },
        }
    }

    /// Feeds the enumerator's answer for the query at the current address,
    /// then reads and scans the region's windows itself until the region
    /// is consumed or a token turns up. A report that no read decides —
    /// no further region, an unscannable one, an anomalous one — has its
    /// outcome pinned by `after_region`: in particular, feeding `None`
    /// ends the scan as `Exhausted`, and an unscannable region is skipped.
    /// A region entered for reading ends in `Found` or moves the walk to
    /// the region's end. Every terminal outcome leaves the handle
    /// released; a found token matches the configured shape.
    pub fn feed_region(&mut self, region: Option<MemoryRegion>)
        requires
            old(self).wf(),
            old(self).machine.state is Enumerating,
        ensures
            final(self).wf(),
            final(self).machine.config == old(self).machine.config,
            final(self).machine.shape == old(self).machine.shape,
            final(self).machine.patterns == old(self).machine.patterns,
            final(self).machine.state is Enumerating || final(self).machine.state is Found
                || final(self).machine.state is Exhausted,
            old(self).machine.state matches ScanState::Enumerating { next_addr } ==> {
                let entered = after_region(old(self).machine.config, next_addr, region);
                &&& (!(entered is Reading) ==> final(self).machine.state == entered)
                &&& (entered matches ScanState::Reading { base, capped, offset, next_addr: na }
                    ==> (final(self).machine.state is Found || final(self).machine.state == (
                ScanState::Enumerating { next_addr: na })))
            },
            is_terminal_spec(final(self).machine.state) ==> final(self).handle is None,
            final(self).machine.state matches ScanState::Found { token } ==> shape_matches(
                token@,
                old(self).machine.shape.groups@,
            ),
    {
        let ghost a = match old(self).machine.state {
            ScanState::Enumerating { next_addr } => next_addr,
            _ => 0,
        };
        let ghost entered = after_region(old(self).machine.config, a, region);
        self.machine.on_region(region);
        loop
            invariant
                self.machine.wf(),
                self.machine.config == old(self).machine.config,
                self.machine.shape == old(self).machine.shape,
                self.machine.patterns == old(self).machine.patterns,
                holds_handle_spec(self.machine.state) ==> self.handle is Some,
                !(self.machine.state is Opening),
                !(self.machine.state is OpenFailed),
                entered == after_region(old(self).machine.config, a, region),
                !(entered is Reading) ==> self.machine.state == entered,
                entered matches ScanState::Reading { base, capped, offset, next_addr: na } ==> (
                self.machine.state is Found || self.machine.state == (ScanState::Enumerating {
                    next_addr: na,
                }) || (self.machine.state matches ScanState::Reading {
                    base: b2,
                    capped: c2,
                    offset: o2,
                    next_addr: n2,
                } && n2 == na)),
                self.machine.state matches ScanState::Found { token } ==> shape_matches(
                    token@,
                    old(self).machine.shape.groups@,
                ),
            ensures
                !(self.machine.state is Reading),
            decreases (match self.machine.state {
                ScanState::Reading { base, capped, offset, next_addr } => capped - offset,
                _ => 0,
            }),
        {
            let wanted = self.machine.wanted_read();
            match wanted {
                Some((addr, len)) => {
                    let data = match &self.handle {
                        Some(h) => read_chunk(h, addr, len),
                        None => {
                            proof {
                                assert(false);
                            }
                            None
                        },
                    };
                    match data {
                        Some(bytes) => {
                            self.machine.on_chunk(Some(bytes.as_slice()));
                        },
                        None => {
                            self.machine.on_chunk(None);
                        },
                    }
                },
                None => {
                    break ;
                },
            }
        }
        if self.machine.is_terminal() {
            self.handle = None;
        }
    }

    /// Whether the scan is over.
    pub fn is_done(&self) -> (r: bool)
        ensures
            r == is_terminal_spec(self.machine.state),
    {
        self.machine.is_terminal()
    }

    /// Whether the session still holds the process handle.
    pub fn has_handle(&self) -> (r: bool)
        ensures
            r == (self.handle is Some),
    {
        match &self.handle {
            Some(_) => true,
            None => false,
        }
    }

    /// The found token, outside the found state nothing.
    pub fn token(&self) -> (r: Option<&Vec<u8>>)
        ensures
            self.machine.state matches ScanState::Found { token } ==> r matches Some(t) && t@
                == token@,
            !(self.machine.state is Found) ==> r is None,
    {
        self.machine.token()
    }
}

} // verus!
