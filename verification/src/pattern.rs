//! The pattern matcher: a pure search over a byte buffer for a token whose
//! body has a hyphenated hexadecimal shape and which sits immediately between
//! a leading and a trailing anchor byte sequence.

use vstd::prelude::*;

verus! {

/// The byte value of '-', the separator between hexadecimal groups.
pub const HYPHEN: u8 = 45;

/// A byte is an ASCII hexadecimal digit: '0'..'9', 'a'..'f' or 'A'..'F'.
pub open spec fn is_hex_digit_spec(b: u8) -> bool {
    (48 <= b && b <= 57) || (97 <= b && b <= 102) || (65 <= b && b <= 70)
}

/// Every byte of `s` is a hexadecimal digit.
pub open spec fn all_hex(s: Seq<u8>) -> bool {
    forall|i: int| 0 <= i < s.len() ==> is_hex_digit_spec(s[i])
}

/// Whether `b` is an ASCII hexadecimal digit.
pub fn is_hex_digit(b: u8) -> (r: bool)
    ensures
        r == is_hex_digit_spec(b),
{
    (48 <= b && b <= 57) || (97 <= b && b <= 102) || (65 <= b && b <= 70)
}

/// The length of a token body with the given group widths, counting one
/// separator after every group (so one more than the body length).
pub open spec fn shape_units(groups: Seq<usize>) -> int
    decreases groups.len(),
{
    if groups.len() == 0 {
        0
    } else {
        groups[0] + 1 + shape_units(groups.skip(1))
    }
}

/// The exact byte length of a token body with the given group widths:
/// the digits of every group plus one hyphen between adjacent groups.
pub open spec fn shape_body_len(groups: Seq<usize>) -> int {
    shape_units(groups) - 1
}

/// Group widths that describe a usable token shape: at least one group,
/// no empty group, and a total that a `usize` can hold.
pub open spec fn groups_wf(groups: Seq<usize>) -> bool {
    &&& groups.len() >= 1
    &&& forall|i: int| 0 <= i < groups.len() ==> groups[i] >= 1
    &&& shape_units(groups) <= usize::MAX
}

/// `s` is exactly a token body of the given shape: hexadecimal groups of the
/// given widths, in order, separated by single hyphens.
pub open spec fn shape_matches(s: Seq<u8>, groups: Seq<usize>) -> bool
    decreases groups.len(),
{
    if groups.len() == 0 {
        false
    } else if groups.len() == 1 {
        s.len() == groups[0] && all_hex(s)
    } else {
        &&& s.len() > groups[0]
        &&& all_hex(s.subrange(0, groups[0] as int))
        &&& s[groups[0] as int] == HYPHEN
        &&& shape_matches(s.subrange(groups[0] + 1, s.len() as int), groups.skip(1))
    }
}

proof fn lemma_units_push(s: Seq<usize>, x: usize)
    ensures
        shape_units(s.push(x)) == shape_units(s) + x + 1,
    decreases s.len(),
{
    let p = s.push(x);
    if s.len() == 0 {
        assert(p.len() == 1);
        assert(p[0] == x);
        assert(p.skip(1) =~= Seq::<usize>::empty());
        assert(shape_units(p.skip(1)) == 0);
        assert(shape_units(p) == p[0] + 1 + shape_units(p.skip(1)));
        assert(shape_units(s) == 0);
    } else {
        lemma_units_push(s.skip(1), x);
        assert(p.skip(1) =~= s.skip(1).push(x));
        assert(p[0] == s[0]);
        assert(shape_units(p) == p[0] + 1 + shape_units(p.skip(1)));
        assert(shape_units(s) == s[0] + 1 + shape_units(s.skip(1)));
    }
}

proof fn lemma_units_lower(groups: Seq<usize>)
    requires
        forall|i: int| 0 <= i < groups.len() ==> groups[i] >= 1,
    ensures
        shape_units(groups) >= 2 * groups.len(),
    decreases groups.len(),
{
    if groups.len() > 0 {
        assert(forall|i: int| 0 <= i < groups.skip(1).len() ==> groups.skip(1)[i] >= 1);
        lemma_units_lower(groups.skip(1));
    }
}

/// A well-formed shape has a token body of at least one byte.
pub proof fn lemma_body_len_positive(groups: Seq<usize>)
    requires
        groups_wf(groups),
    ensures
        shape_body_len(groups) >= 1,
{
    lemma_units_lower(groups);
}

/// The shape of the token body: widths of the hexadecimal groups, in order.
pub struct TokenShape {
    pub groups: Vec<usize>,
}

impl TokenShape {
    /// The shape is usable: see `groups_wf`.
    pub open spec fn wf(self) -> bool {
        groups_wf(self.groups@)
    }

    /// Builds a shape from group widths, rejecting an empty list, an empty
    /// group, and a total too large for a `usize`.
    pub fn new(groups: Vec<usize>) -> (r: Option<TokenShape>)
        ensures
            r is Some <==> groups_wf(groups@),
            r matches Some(s) ==> s.groups@ == groups@,
    {
        if groups.len() == 0 {
            return None;
        }
        let mut acc: usize = 0;
        let mut i: usize = 0;
        while i < groups.len()
            invariant
                0 <= i <= groups.len(),
                acc == shape_units(groups@.subrange(0, i as int)),
                forall|k: int| 0 <= k < i ==> groups@[k] >= 1,
            decreases groups.len() - i,
        {
            let g = groups[i];
            if g == 0 {
                return None;
            }
            if g == usize::MAX || acc > usize::MAX - g - 1 {
                proof {
                    lemma_units_push(groups@.subrange(0, i as int), groups@[i as int]);
                    assert(groups@.subrange(0, i + 1) =~= groups@.subrange(0, i as int).push(
                        groups@[i as int],
                    ));
                    lemma_units_prefix_mono(groups@, i + 1);
                }
                return None;
            }
            proof {
                lemma_units_push(groups@.subrange(0, i as int), groups@[i as int]);
                assert(groups@.subrange(0, i + 1) =~= groups@.subrange(0, i as int).push(
                    groups@[i as int],
                ));
            }
            acc = acc + g + 1;
            i = i + 1;
        }
        proof {
            assert(groups@.subrange(0, groups@.len() as int) =~= groups@);
        }
        Some(TokenShape { groups })
    }

    /// The exact byte length of a token body of this shape.
    pub fn body_len(&self) -> (r: usize)
        requires
            self.wf(),
        ensures
            r == shape_body_len(self.groups@),
    {
        let mut acc: usize = 0;
        let mut i: usize = 0;
        while i < self.groups.len()
            invariant
                0 <= i <= self.groups.len(),
                acc == shape_units(self.groups@.subrange(0, i as int)),
                groups_wf(self.groups@),
            decreases self.groups.len() - i,
        {
            let g = self.groups[i];
            proof {
                lemma_units_push(self.groups@.subrange(0, i as int), self.groups@[i as int]);
                assert(self.groups@.subrange(0, i + 1) =~= self.groups@.subrange(0, i as int).push(
                    self.groups@[i as int],
                ));
                lemma_units_prefix_mono(self.groups@, i + 1);
            }
            acc = acc + g + 1;
            i = i + 1;
        }
        proof {
            assert(self.groups@.subrange(0, self.groups@.len() as int) =~= self.groups@);
            lemma_units_lower(self.groups@);
        }
        acc - 1
    }
}

proof fn lemma_units_nonneg(groups: Seq<usize>)
    ensures
        shape_units(groups) >= groups.len(),
    decreases groups.len(),
{
    if groups.len() > 0 {
        lemma_units_nonneg(groups.skip(1));
    }
}

proof fn lemma_units_prefix_mono(groups: Seq<usize>, i: int)
    requires
        0 <= i <= groups.len(),
    ensures
        shape_units(groups.subrange(0, i)) <= shape_units(groups),
    decreases groups.len() - i,
{
    if i < groups.len() {
        lemma_units_push(groups.subrange(0, i), groups[i]);
        assert(groups.subrange(0, i + 1) =~= groups.subrange(0, i).push(groups[i]));
        lemma_units_prefix_mono(groups, i + 1);
    } else {
        assert(groups.subrange(0, i) =~= groups);
    }
}

/// The two anchors believed to bracket the token in memory.
pub struct PatternPair {
    pub lead: Vec<u8>,
    pub trail: Vec<u8>,
}

/// The whole byte length of an anchored match: lead anchor, token body,
/// trail anchor.
pub open spec fn total_len(lead: Seq<u8>, groups: Seq<usize>, trail: Seq<u8>) -> int {
    lead.len() + shape_body_len(groups) + trail.len()
}

/// An anchored match begins at position `i` of `buf`: the lead anchor, then
/// a token body of the given shape, then the trail anchor, all adjacent.
pub open spec fn match_at(
    buf: Seq<u8>,
    lead: Seq<u8>,
    trail: Seq<u8>,
    groups: Seq<usize>,
    i: int,
) -> bool {
    &&& 0 <= i
    &&& i + total_len(lead, groups, trail) <= buf.len()
    &&& buf.subrange(i, i + lead.len()) == lead
    &&& shape_matches(
        buf.subrange(i + lead.len(), i + lead.len() + shape_body_len(groups)),
        groups,
    )
    &&& buf.subrange(
        i + lead.len() + shape_body_len(groups),
        i + total_len(lead, groups, trail),
    ) == trail
}

/// The token body of the anchored match at position `i`.
pub open spec fn token_of(buf: Seq<u8>, lead_len: int, groups: Seq<usize>, i: int) -> Seq<u8> {
    buf.subrange(i + lead_len, i + lead_len + shape_body_len(groups))
}

/// `i` is the earliest anchored match in `buf`.
pub open spec fn is_first_match(
    buf: Seq<u8>,
    lead: Seq<u8>,
    trail: Seq<u8>,
    groups: Seq<usize>,
    i: int,
) -> bool {
    &&& match_at(buf, lead, trail, groups, i)
    &&& forall|j: int| 0 <= j < i ==> !match_at(buf, lead, trail, groups, j)
}

/// The position of the earliest anchored match at or after `i`, if any.
pub open spec fn first_match_from(
    buf: Seq<u8>,
    lead: Seq<u8>,
    trail: Seq<u8>,
    groups: Seq<usize>,
    i: int,
) -> Option<int>
    decreases buf.len() - i,
{
    if i < 0 || i >= buf.len() {
        None
    } else if match_at(buf, lead, trail, groups, i) {
        Some(i)
    } else {
        first_match_from(buf, lead, trail, groups, i + 1)
    }
}

/// The token body of the earliest anchored match in `buf`, if any.
pub open spec fn first_token(
    buf: Seq<u8>,
    lead: Seq<u8>,
    trail: Seq<u8>,
    groups: Seq<usize>,
) -> Option<Seq<u8>> {
    match first_match_from(buf, lead, trail, groups, 0) {
        Some(i) => Some(token_of(buf, lead.len() as int, groups, i)),
        None => None,
    }
}

proof fn lemma_first_match_from_correct(
    buf: Seq<u8>,
    lead: Seq<u8>,
    trail: Seq<u8>,
    groups: Seq<usize>,
    i: int,
)
    requires
        0 <= i <= buf.len(),
    ensures
        match first_match_from(buf, lead, trail, groups, i) {
            Some(j) => i <= j < buf.len() && match_at(buf, lead, trail, groups, j) && forall|
                k: int,
            | i <= k < j ==> !match_at(buf, lead, trail, groups, k),
            None => forall|k: int| i <= k < buf.len() ==> !match_at(buf, lead, trail, groups, k),
        },
    decreases buf.len() - i,
{
    if i < buf.len() && !match_at(buf, lead, trail, groups, i) {
        lemma_first_match_from_correct(buf, lead, trail, groups, i + 1);
    }
}

/// No anchored match starts at or past the end of the buffer when the shape
/// is well formed, because the token body alone is at least one byte.
proof fn lemma_no_match_past_end(buf: Seq<u8>, lead: Seq<u8>, trail: Seq<u8>, groups: Seq<usize>)
    requires
        groups_wf(groups),
    ensures
        forall|k: int| k >= buf.len() ==> !match_at(buf, lead, trail, groups, k),
{
    lemma_body_len_positive(groups);
}

/// The matcher's result, characterized: it is the token at the earliest
/// anchored match, and it is absent exactly when no anchored match exists.
pub proof fn lemma_first_token_characterizes(
    buf: Seq<u8>,
    lead: Seq<u8>,
    trail: Seq<u8>,
    groups: Seq<usize>,
)
    requires
        groups_wf(groups),
    ensures
        (first_token(buf, lead, trail, groups) is Some) <==> exists|i: int|
            match_at(buf, lead, trail, groups, i),
        forall|i: int|
            is_first_match(buf, lead, trail, groups, i) ==> first_token(buf, lead, trail, groups)
                == Some(token_of(buf, lead.len() as int, groups, i)),
{
    lemma_first_match_from_correct(buf, lead, trail, groups, 0);
    lemma_no_match_past_end(buf, lead, trail, groups);
    if first_match_from(buf, lead, trail, groups, 0) is Some {
        let j = first_match_from(buf, lead, trail, groups, 0)->Some_0;
        assert(match_at(buf, lead, trail, groups, j));
        assert forall|i: int| is_first_match(buf, lead, trail, groups, i) implies first_token(
            buf,
            lead,
            trail,
            groups,
        ) == Some(token_of(buf, lead.len() as int, groups, i)) by {
            if i < j {
                assert(!match_at(buf, lead, trail, groups, i));
            }
            if j < i {
                assert(!match_at(buf, lead, trail, groups, j));
            }
        }
    } else {
        assert forall|i: int| !match_at(buf, lead, trail, groups, i) by {
            if 0 <= i < buf.len() {
                assert(!match_at(buf, lead, trail, groups, i));
            }
        }
    }
}

/// Any token the matcher hands out is itself a well-shaped body.
pub proof fn lemma_first_token_shape(
    buf: Seq<u8>,
    lead: Seq<u8>,
    trail: Seq<u8>,
    groups: Seq<usize>,
)
    requires
        first_token(buf, lead, trail, groups) is Some,
    ensures
        shape_matches(first_token(buf, lead, trail, groups)->Some_0, groups),
{
    let j = first_match_from(buf, lead, trail, groups, 0)->Some_0;
    lemma_first_match_from_some(buf, lead, trail, groups, 0);
}

proof fn lemma_first_match_from_some(
    buf: Seq<u8>,
    lead: Seq<u8>,
    trail: Seq<u8>,
    groups: Seq<usize>,
    i: int,
)
    requires
        first_match_from(buf, lead, trail, groups, i) is Some,
    ensures
        match_at(buf, lead, trail, groups, first_match_from(buf, lead, trail, groups, i)->Some_0),
    decreases buf.len() - i,
{
    if i < 0 || i >= buf.len() {
    } else if match_at(buf, lead, trail, groups, i) {
    } else {
        lemma_first_match_from_some(buf, lead, trail, groups, i + 1);
    }
}

/// If the trail anchor occurs nowhere in the buffer, no anchored match
/// exists either: both anchors are needed.
pub proof fn lemma_no_trail_anchor_no_match(
    buf: Seq<u8>,
    lead: Seq<u8>,
    trail: Seq<u8>,
    groups: Seq<usize>,
)
    requires
        forall|i: int|
            0 <= i && i + trail.len() <= buf.len() ==> #[trigger] buf.subrange(i, i + trail.len())
                != trail,
    ensures
        forall|i: int| !match_at(buf, lead, trail, groups, i),
{
    assert forall|i: int| !match_at(buf, lead, trail, groups, i) by {
        if match_at(buf, lead, trail, groups, i) {
            lemma_units_nonneg(groups);
            let start = i + lead.len() + shape_body_len(groups);
            assert(buf.subrange(start, start + trail.len()) != trail);
        }
    }
}

/// If the lead anchor occurs nowhere in the buffer, no anchored match exists.
pub proof fn lemma_no_lead_anchor_no_match(
    buf: Seq<u8>,
    lead: Seq<u8>,
    trail: Seq<u8>,
    groups: Seq<usize>,
)
    requires
        forall|i: int|
            0 <= i && i + lead.len() <= buf.len() ==> #[trigger] buf.subrange(i, i + lead.len())
                != lead,
    ensures
        forall|i: int| !match_at(buf, lead, trail, groups, i),
{
    assert forall|i: int| !match_at(buf, lead, trail, groups, i) by {
        if match_at(buf, lead, trail, groups, i) {
            lemma_units_nonneg(groups);
            assert(buf.subrange(i, i + lead.len()) != lead);
        }
    }
}

fn bytes_eq_at(buf: &[u8], start: usize, pat: &[u8]) -> (r: bool)
    requires
        start <= buf@.len(),
    ensures
        r == (start + pat@.len() <= buf@.len() && buf@.subrange(
            start as int,
            start + pat@.len(),
        ) == pat@),
{
    let n = buf.len();
    if n - start < pat.len() {
        return false;
    }
    let mut j: usize = 0;
    while j < pat.len()
        invariant
            0 <= j <= pat@.len(),
            n == buf@.len(),
            start + pat@.len() <= n,
            forall|k: int| 0 <= k < j ==> buf@[start + k] == pat@[k],
        decreases pat.len() - j,
    {
        if buf[start + j] != pat[j] {
            proof {
                assert(buf@.subrange(start as int, start + pat@.len())[j as int] == buf@[start
                    + j]);
            }
            return false;
        }
        j = j + 1;
    }
    proof {
        assert(buf@.subrange(start as int, start + pat@.len()) =~= pat@);
    }
    true
}

#[verifier::loop_isolation(false)]
fn shape_ok_rec(buf: &[u8], start: usize, end: usize, groups: &[usize], g: usize) -> (r: bool)
    requires
        start <= end <= buf@.len(),
        g <= groups@.len(),
    ensures
        r == shape_matches(buf@.subrange(start as int, end as int), groups@.skip(g as int)),
    decreases groups@.len() - g,
{
    let ghost s = buf@.subrange(start as int, end as int);
    if g == groups.len() {
        return false;
    }
    let width = groups[g];
    if g == groups.len() - 1 {
        proof {
            assert(groups@.skip(g as int).len() == 1);
            assert(groups@.skip(g as int)[0] == groups@[g as int]);
        }
        if end - start != width {
            return false;
        }
        let mut j: usize = start;
        while j < end
            invariant
                start <= j <= end <= buf@.len(),
                forall|k: int| 0 <= k < j - start ==> is_hex_digit_spec(s[k]),
                s == buf@.subrange(start as int, end as int),
            decreases end - j,
        {
            if !is_hex_digit(buf[j]) {
                proof {
                    assert(s[j - start] == buf@[j as int]);
                }
                return false;
            }
            proof {
                assert(s[j - start] == buf@[j as int]);
            }
            j = j + 1;
        }
        proof {
            assert(groups@.skip(g as int).len() == 1);
            assert(groups@.skip(g as int)[0] == groups@[g as int]);
            assert(all_hex(s));
        }
        true
    } else {
        proof {
            assert(groups@.skip(g as int).len() >= 2);
            assert(groups@.skip(g as int)[0] == groups@[g as int]);
        }
        if end - start <= width {
            return false;
        }
        let mut j: usize = start;
        while j < start + width
            invariant
                start <= j,
                j <= start + width,
                start + width < end <= buf@.len(),
                forall|k: int| 0 <= k < j - start ==> is_hex_digit_spec(s[k]),
                s == buf@.subrange(start as int, end as int),
            decreases start + width - j,
        {
            if !is_hex_digit(buf[j]) {
                proof {
                    assert(s[j - start] == buf@[j as int]);
                    assert(s.subrange(0, width as int)[j - start] == s[j - start]);
                }
                return false;
            }
            proof {
                assert(s[j - start] == buf@[j as int]);
            }
            j = j + 1;
        }
        proof {
            assert(all_hex(s.subrange(0, width as int))) by {
                assert forall|k: int| 0 <= k < width implies is_hex_digit_spec(
                    s.subrange(0, width as int)[k],
                ) by {
                    assert(s.subrange(0, width as int)[k] == s[k]);
                }
            }
        }
        if buf[start + width] != HYPHEN {
            proof {
                assert(s[width as int] == buf@[start + width]);
            }
            return false;
        }
        let r = shape_ok_rec(buf, start + width + 1, end, groups, g + 1);
        proof {
            assert(s[width as int] == buf@[start + width]);
            assert(s.subrange(width + 1, s.len() as int) =~= buf@.subrange(
                start + width + 1,
                end as int,
            ));
            assert(groups@.skip(g as int).skip(1) =~= groups@.skip(g + 1));
        }
        r
    }
}

fn try_match_at(buf: &[u8], i: usize, shape: &TokenShape, patterns: &PatternPair) -> (r: bool)
    requires
        shape.wf(),
        i <= buf@.len(),
    ensures
        r == match_at(buf@, patterns.lead@, patterns.trail@, shape.groups@, i as int),
{
    let n = buf.len();
    let body = shape.body_len();
    let lead_len = patterns.lead.len();
    if !bytes_eq_at(buf, i, patterns.lead.as_slice()) {
        return false;
    }
    let after_lead = i + lead_len;
    if n - after_lead < body {
        return false;
    }
    let after_body = after_lead + body;
    if !bytes_eq_at(buf, after_body, patterns.trail.as_slice()) {
        return false;
    }
    let r = shape_ok_rec(buf, after_lead, after_body, shape.groups.as_slice(), 0);
    proof {
        assert(shape.groups@.skip(0) =~= shape.groups@);
    }
    r
}

/// Searches `buf` for the earliest token of the given shape flanked on both
/// sides by the anchors, and returns its body. The result is exactly
/// `first_token` of the buffer: present if and only if an anchored match
/// exists, and then the body of the earliest one. Arbitrary binary content
/// is acceptable; a buffer without a match simply yields `None`.
pub fn search_bytes_for_token(buf: &[u8], shape: &TokenShape, patterns: &PatternPair) -> (r: Option<
    Vec<u8>,
>)
    requires
        shape.wf(),
    ensures
        (r is Some) == (first_token(buf@, patterns.lead@, patterns.trail@, shape.groups@)
            is Some),
        r matches Some(t) ==> Some(t@) == first_token(
            buf@,
            patterns.lead@,
            patterns.trail@,
            shape.groups@,
        ),
{
    let ghost lead = patterns.lead@;
    let ghost trail = patterns.trail@;
    let ghost groups = shape.groups@;
    let body = shape.body_len();
    let mut i: usize = 0;
    while i < buf.len()
        invariant
            0 <= i <= buf@.len(),
            shape.wf(),
            body == shape_body_len(groups),
            lead == patterns.lead@,
            trail == patterns.trail@,
            groups == shape.groups@,
            forall|k: int| 0 <= k < i ==> !match_at(buf@, lead, trail, groups, k),
            first_match_from(buf@, lead, trail, groups, 0) == first_match_from(
                buf@,
                lead,
                trail,
                groups,
                i as int,
            ),
        decreases buf.len() - i,
    {
        if try_match_at(buf, i, shape, patterns) {
            let start = i + patterns.lead.len();
            let token = vstd::slice::slice_to_vec(vstd::slice::slice_subrange(
                buf,
                start,
                start + body,
            ));
            proof {
                assert(first_match_from(buf@, lead, trail, groups, i as int) == Some(i as int));
                assert(token@ == token_of(buf@, lead.len() as int, groups, i as int));
            }
            return Some(token);
        }
        proof {
            assert(first_match_from(buf@, lead, trail, groups, i as int) == first_match_from(
                buf@,
                lead,
                trail,
                groups,
                i + 1,
            ));
        }
        i = i + 1;
    }
    proof {
        assert(first_match_from(buf@, lead, trail, groups, i as int) is None);
    }
    None
}

} // verus!

