//! Small helpers on bit fields and NUL-terminated WTF-16 buffers.

use vstd::prelude::*;

verus! {

/// Whether `p` is the first position of `needle` in `s`.
pub open spec fn is_first_index(s: Seq<u16>, needle: u16, p: int) -> bool {
    &&& 0 <= p < s.len()
    &&& s[p] == needle
    &&& forall|j: int| 0 <= j < p ==> s[j] != needle
}

/// Whether `s` holds a NUL code unit.
pub open spec fn has_nul(s: Seq<u16>) -> bool {
    exists|p: int| 0 <= p < s.len() && s[p] == 0
}

/// The position of the first NUL in `s`, which must hold one.
pub open spec fn first_nul(s: Seq<u16>) -> int {
    choose|p: int| is_first_index(s, 0, p)
}

/// `s` up to and including its first NUL.
pub open spec fn through_nul(s: Seq<u16>) -> Seq<u16> {
    s.subrange(0, first_nul(s) + 1)
}

/// The code units of `s` before its first NUL, or all of them.
pub open spec fn before_nul(s: Seq<u16>) -> Seq<u16> {
    if has_nul(s) {
        s.subrange(0, first_nul(s))
    } else {
        s
    }
}

/// Two first positions of the same value are the same position.
pub proof fn lemma_first_index_unique(s: Seq<u16>, needle: u16, p: int, q: int)
    requires
        is_first_index(s, needle, p),
        is_first_index(s, needle, q),
    ensures
        p == q,
{
}

proof fn lemma_first_at_or_before(s: Seq<u16>, q: int)
    requires
        0 <= q < s.len(),
        s[q] == 0,
    ensures
        exists|p: int| is_first_index(s, 0, p),
    decreases q,
{
    if exists|j: int| 0 <= j < q && s[j] == 0 {
        let j = choose|j: int| 0 <= j < q && s[j] == 0;
        lemma_first_at_or_before(s, j);
    } else {
        assert(is_first_index(s, 0, q));
    }
}

/// A sequence that holds a NUL has a first one.
pub proof fn lemma_first_nul(s: Seq<u16>)
    requires
        has_nul(s),
    ensures
        is_first_index(s, 0, first_nul(s)),
{
    let p = choose|p: int| 0 <= p < s.len() && s[p] == 0;
    lemma_first_at_or_before(s, p);
}

/// Whether `bit` shares a set bit with `field`.
pub fn has_bit(field: u32, bit: u32) -> (r: bool)
    ensures
        r == (field & bit != 0),
{
    field & bit != 0
}

/// The first position of `needle` in `haystack`, or `None` if it does not
/// occur.
pub fn search_buffer(needle: u16, haystack: &[u16]) -> (r: Option<usize>)
    ensures
        r matches Some(p) ==> is_first_index(haystack@, needle, p as int),
        r is None ==> forall|j: int| 0 <= j < haystack@.len() ==> haystack@[j] != needle,
{
    let mut i: usize = 0;
    while i < haystack.len()
        invariant
            i <= haystack@.len(),
            forall|j: int| 0 <= j < i ==> haystack@[j] != needle,
        decreases haystack@.len() - i,
    {
        if haystack[i] == needle {
            return Some(i);
        }
        i += 1;
    }
    None
}

/// The code units of `buf` before its first NUL, or all of them when it
/// holds none.
pub fn os_from_buf(buf: &[u16]) -> (r: Vec<u16>)
    ensures
        r@ == before_nul(buf@),
{
    let end = match search_buffer(0, buf) {
        Some(p) => {
            proof {
                lemma_first_nul(buf@);
                lemma_first_index_unique(buf@, 0, p as int, first_nul(buf@));
            }
            p
        },
        None => buf.len(),
    };
    let mut v: Vec<u16> = Vec::new();
    let mut i: usize = 0;
    while i < end
        invariant
            end <= buf@.len(),
            i <= end,
            v@ =~= buf@.subrange(0, i as int),
        decreases end - i,
    {
        v.push(buf[i]);
        i += 1;
    }
    proof {
        if !has_nul(buf@) {
            assert(v@ =~= buf@);
        }
    }
    v
}

/// `units` followed by a NUL terminator.
pub fn buf_from_os(units: &[u16]) -> (r: Vec<u16>)
    ensures
        r@ == units@.push(0),
{
    let mut v: Vec<u16> = Vec::new();
    let mut i: usize = 0;
    while i < units.len()
        invariant
            i <= units@.len(),
            v@ =~= units@.subrange(0, i as int),
        decreases units@.len() - i,
    {
        v.push(units[i]);
        i += 1;
    }
    v.push(0);
    assert(v@ =~= units@.push(0));
    v
}

} // verus!
