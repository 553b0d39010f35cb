//! Parsing a region description line, as a platform's region enumerator
//! reports it: two hexadecimal addresses separated by a hyphen, a space,
//! and a permission field of at least four flag bytes. The parse is pure;
//! reading the lines is the platform's affair.

use vstd::prelude::*;

use crate::pattern::{all_hex, is_hex_digit, is_hex_digit_spec};
use crate::region::{CommitState, MemoryRegion, Protection};

verus! {

/// The numeric value of one hexadecimal digit (zero on other bytes).
pub open spec fn hex_val_spec(b: u8) -> int {
    if 48 <= b && b <= 57 {
        b - 48
    } else if 97 <= b && b <= 102 {
        b - 87
    } else if 65 <= b && b <= 70 {
        b - 55
    } else {
        0
    }
}

/// The value of a big-endian hexadecimal numeral.
pub open spec fn hex_value(s: Seq<u8>) -> int
    decreases s.len(),
{
    if s.len() == 0 {
        0
    } else {
        16 * hex_value(s.subrange(0, s.len() - 1)) + hex_val_spec(s[s.len() - 1])
    }
}

/// A byte sequence is a usable hexadecimal numeral: nonempty, hexadecimal
/// throughout, and small enough for a `usize`.
pub open spec fn hex_ok(s: Seq<u8>) -> bool {
    s.len() >= 1 && all_hex(s) && hex_value(s) <= usize::MAX
}

proof fn lemma_hex_value_nonneg(s: Seq<u8>)
    ensures
        hex_value(s) >= 0,
    decreases s.len(),
{
    if s.len() > 0 {
        lemma_hex_value_nonneg(s.subrange(0, s.len() - 1));
    }
}

proof fn lemma_hex_prefix_le(s: Seq<u8>, i: int, j: int)
    requires
        0 <= i <= j <= s.len(),
    ensures
        hex_value(s.subrange(0, i)) <= hex_value(s.subrange(0, j)),
    decreases j - i,
{
    if i < j {
        lemma_hex_prefix_le(s, i + 1, j);
        let p = s.subrange(0, i + 1);
        assert(p.subrange(0, p.len() - 1) =~= s.subrange(0, i));
        assert(p[p.len() - 1] == s[i]);
        lemma_hex_value_nonneg(s.subrange(0, i));
        assert(hex_val_spec(s[i]) >= 0);
    }
}

fn hex_val(b: u8) -> (r: u8)
    ensures
        r == hex_val_spec(b),
        r < 16,
{
    if 48 <= b && b <= 57 {
        b - 48
    } else if 97 <= b && b <= 102 {
        b - 87
    } else if 65 <= b && b <= 70 {
        b - 55
    } else {
        0
    }
}

/// Parses a big-endian hexadecimal numeral: the value exactly when the
/// bytes are a nonempty, all-hexadecimal numeral that fits in a `usize`.
pub fn parse_hex(s: &[u8]) -> (r: Option<usize>)
    ensures
        (r is Some) == hex_ok(s@),
        r matches Some(v) ==> v == hex_value(s@),
{
    if s.len() == 0 {
        return None;
    }
    let mut acc: usize = 0;
    let mut i: usize = 0;
    while i < s.len()
        invariant
            0 <= i <= s@.len(),
            1 <= s@.len(),
            acc == hex_value(s@.subrange(0, i as int)),
            forall|k: int| 0 <= k < i ==> is_hex_digit_spec(s@[k]),
        decreases s.len() - i,
    {
        let b = s[i];
        if !is_hex_digit(b) {
            return None;
        }
        let d = hex_val(b);
        let wide: u128 = 16 * (acc as u128) + (d as u128);
        proof {
            let p = s@.subrange(0, i + 1);
            assert(p.subrange(0, p.len() - 1) =~= s@.subrange(0, i as int));
            assert(p[p.len() - 1] == s@[i as int]);
            assert(hex_value(p) == 16 * (acc as int) + hex_val_spec(s@[i as int]));
        }
        if wide > usize::MAX as u128 {
            proof {
                lemma_hex_prefix_le(s@, i + 1, s@.len() as int);
                assert(s@.subrange(0, s@.len() as int) =~= s@);
            }
            return None;
        }
        acc = wide as usize;
        i = i + 1;
    }
    proof {
        assert(s@.subrange(0, s@.len() as int) =~= s@);
    }
    Some(acc)
}

/// The earliest occurrence of `b` in `s` at or after `from`.
pub open spec fn find_byte(s: Seq<u8>, b: u8, from: int) -> Option<int>
    decreases s.len() - from,
{
    if from < 0 || from >= s.len() {
        None
    } else if s[from] == b {
        Some(from)
    } else {
        find_byte(s, b, from + 1)
    }
}

fn find_byte_exec(s: &[u8], b: u8, from: usize) -> (r: Option<usize>)
    requires
        from <= s@.len(),
    ensures
        match r {
            Some(i) => from <= i < s@.len() && Some(i as int) == find_byte(s@, b, from as int),
            None => find_byte(s@, b, from as int) is None,
        },
{
    let mut i: usize = from;
    while i < s.len()
        invariant
            from <= i <= s@.len(),
            find_byte(s@, b, from as int) == find_byte(s@, b, i as int),
        decreases s.len() - i,
    {
        if s[i] == b {
            return Some(i);
        }
        i = i + 1;
    }
    None
}

/// The protection read off the three flag bytes `r`, `w`, `x` of a
/// permission field: any writable mapping is the read-write family,
/// otherwise readable or executable modes, and no flags at all is
/// no-access.
pub open spec fn perms_protect_spec(r: u8, w: u8, x: u8) -> Protection {
    if w == 119 && x == 120 {
        Protection::ExecuteReadWrite
    } else if w == 119 {
        Protection::ReadWrite
    } else if r == 114 && x == 120 {
        Protection::ExecuteRead
    } else if r == 114 {
        Protection::ReadOnly
    } else if x == 120 {
        Protection::Execute
    } else {
        Protection::NoAccess
    }
}

fn perms_protect(r: u8, w: u8, x: u8) -> (p: Protection)
    ensures
        p == perms_protect_spec(r, w, x),
{
    let writable = w == 119;
    let executable = x == 120;
    let readable = r == 114;
    if writable && executable {
        Protection::ExecuteReadWrite
    } else if writable {
        Protection::ReadWrite
    } else if readable && executable {
        Protection::ExecuteRead
    } else if readable {
        Protection::ReadOnly
    } else if executable {
        Protection::Execute
    } else {
        Protection::NoAccess
    }
}

/// The region a well-formed description line denotes: `base-end perms...`,
/// with both addresses hexadecimal, the end not below the base, and a
/// permission field of at least four bytes after the space. Reported
/// regions are committed by definition.
pub open spec fn maps_line_region(line: Seq<u8>) -> Option<MemoryRegion> {
    match find_byte(line, 45, 0) {
        None => None,
        Some(i) => match find_byte(line, 32, i + 1) {
            None => None,
            Some(j) => {
                if line.len() < j + 5 {
                    None
                } else {
                    let a = line.subrange(0, i);
                    let b = line.subrange(i + 1, j);
                    if !hex_ok(a) || !hex_ok(b) {
                        None
                    } else if hex_value(b) < hex_value(a) {
                        None
                    } else {
                        Some(
                            MemoryRegion {
                                base: hex_value(a) as usize,
                                size: (hex_value(b) - hex_value(a)) as usize,
                                protect: perms_protect_spec(line[j + 1], line[j + 2], line[j + 3]),
                                commit: CommitState::Committed,
                            },
                        )
                    }
                }
            },
        },
    }
}

/// Parses one region description line. The result is exactly
/// `maps_line_region` of the bytes: the region's base, size and
/// protection where the line is well formed, nothing otherwise.
pub fn parse_maps_line(line: &[u8]) -> (r: Option<MemoryRegion>)
    ensures
        r == maps_line_region(line@),
{
    let n = line.len();
    let hyphen = match find_byte_exec(line, 45, 0) {
        Some(i) => i,
        None => {
            return None;
        },
    };
    let space = match find_byte_exec(line, 32, hyphen + 1) {
        Some(j) => j,
        None => {
            return None;
        },
    };
    if n - space < 5 {
        return None;
    }
    let base = match parse_hex(vstd::slice::slice_subrange(line, 0, hyphen)) {
        Some(v) => v,
        None => {
            return None;
        },
    };
    let end = match parse_hex(vstd::slice::slice_subrange(line, hyphen + 1, space)) {
        Some(v) => v,
        None => {
            return None;
        },
    };
    if end < base {
        return None;
    }
    let protect = perms_protect(line[space + 1], line[space + 2], line[space + 3]);
    Some(MemoryRegion { base, size: end - base, protect, commit: CommitState::Committed })
}

} // verus!
