//! Memory regions as the region enumerator reports them: a base address, a
//! size, a protection mode and a commit state. Only committed, nonempty
//! regions with a writable (hence readable) protection are scanned.

use vstd::prelude::*;

verus! {

/// The protection of a region, one mode per region.
#[derive(Clone, Copy, PartialEq, Eq, Structural, Debug)]
pub enum Protection {
    NoAccess,
    Guard,
    ReadOnly,
    ReadWrite,
    WriteCopy,
    Execute,
    ExecuteRead,
    ExecuteReadWrite,
    ExecuteWriteCopy,
}

/// Whether a region's commit state backs it with storage.
#[derive(Clone, Copy, PartialEq, Eq, Structural, Debug)]
pub enum CommitState {
    Committed,
    Reserved,
    Free,
}

/// One region of the target's virtual address space.
#[derive(Clone, Copy, PartialEq, Eq, Structural, Debug)]
pub struct MemoryRegion {
    pub base: usize,
    pub size: usize,
    pub protect: Protection,
    pub commit: CommitState,
}

/// The protections whose pages the scan may read: the read-write family.
/// No-access and guard pages are excluded, as are read-only and
/// execute-only modes, which rarely hold a freshly written token.
pub open spec fn readable_spec(p: Protection) -> bool {
    p is ReadWrite || p is WriteCopy || p is ExecuteReadWrite || p is ExecuteWriteCopy
}

/// Whether the protection admits scanning. See `readable_spec`.
pub fn is_readable(protect: Protection) -> (r: bool)
    ensures
        r == readable_spec(protect),
{
    match protect {
        Protection::ReadWrite => true,
        Protection::WriteCopy => true,
        Protection::ExecuteReadWrite => true,
        Protection::ExecuteWriteCopy => true,
        _ => false,
    }
}

/// A region is scanned only when it is committed, nonempty and readable.
pub open spec fn scannable_spec(r: MemoryRegion) -> bool {
    r.commit is Committed && r.size > 0 && readable_spec(r.protect)
}

/// Whether the region is scanned at all. See `scannable_spec`.
pub fn is_scannable(region: &MemoryRegion) -> (r: bool)
    ensures
        r == scannable_spec(*region),
{
    let committed = match region.commit {
        CommitState::Committed => true,
        _ => false,
    };
    committed && region.size > 0 && is_readable(region.protect)
}

} // verus!
