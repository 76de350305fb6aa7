//! Access-control lists.
//!
//! An ACL is an eight-byte header (revision, a zero byte, total size and
//! entry count as little-endian 16-bit values, two reserved bytes) followed
//! by its entries, packed one after the other, each as long as its own size
//! field says.

use vstd::prelude::*;

use crate::ace::{ace_record_ok, Ace};
use crate::constants::ERROR_ALLOTTED_SPACE_EXCEEDED;
use crate::bytes::{
    append_bytes, copy_range, le16, le16_bytes, lemma_le16_low_byte, lemma_le16_round_trip, push_le16,
    read_le16,
};
use crate::constants::{acl_revision_byte, AclRevision, ACL_REVISION, ACL_REVISION_DS};

verus! {

/// The size field of the entry starting at `off`.
pub open spec fn ace_size_at(b: Seq<u8>, off: int) -> int {
    le16(b, off + 2) as int
}

/// Whether `n` well-formed entries lie one after the other in `b` from
/// `off` on.
pub open spec fn aces_fit(b: Seq<u8>, off: int, n: nat) -> bool
    decreases n,
{
    if n == 0 {
        true
    } else {
        &&& 0 <= off
        &&& off + 4 <= b.len()
        &&& off + ace_size_at(b, off) <= b.len()
        &&& ace_record_ok(b.subrange(off, off + ace_size_at(b, off)))
        &&& aces_fit(b, off + ace_size_at(b, off), (n - 1) as nat)
    }
}

/// The `n` entries that lie one after the other in `b` from `off` on.
pub open spec fn aces_from(b: Seq<u8>, off: int, n: nat) -> Seq<Seq<u8>>
    decreases n,
{
    if n == 0 {
        Seq::empty()
    } else {
        seq![b.subrange(off, off + ace_size_at(b, off))] + aces_from(
            b,
            off + ace_size_at(b, off),
            (n - 1) as nat,
        )
    }
}

/// The entry count in the header.
pub open spec fn acl_count(b: Seq<u8>) -> nat {
    le16(b, 4) as nat
}

/// Whether `b` is one whole, well-formed ACL.
pub open spec fn acl_record_ok(b: Seq<u8>) -> bool {
    &&& 8 <= b.len()
    &&& b[0] == ACL_REVISION || b[0] == ACL_REVISION_DS
    &&& le16(b, 2) as int == b.len()
    &&& aces_fit(b, 8, acl_count(b))
}

/// The entries of the ACL `b`, in order.
pub open spec fn acl_entries(b: Seq<u8>) -> Seq<Seq<u8>> {
    aces_from(b, 8, acl_count(b))
}

pub proof fn lemma_aces_from_len(b: Seq<u8>, off: int, n: nat)
    ensures
        aces_from(b, off, n).len() == n,
    decreases n,
{
    if n > 0 {
        lemma_aces_from_len(b, off + ace_size_at(b, off), (n - 1) as nat);
    }
}

/// Where the entry after the first `i` entries from `off` starts.
pub open spec fn nth_offset(b: Seq<u8>, off: int, i: nat) -> int
    decreases i,
{
    if i == 0 {
        off
    } else {
        nth_offset(b, off + ace_size_at(b, off), (i - 1) as nat)
    }
}

/// Entries that fit end inside the buffer, each at least eight bytes on.
pub proof fn lemma_fit_bounds(b: Seq<u8>, off: int, n: nat)
    requires
        aces_fit(b, off, n),
        0 <= off <= b.len(),
    ensures
        off + 8 * n <= nth_offset(b, off, n) <= b.len(),
    decreases n,
{
    if n > 0 {
        let sz = ace_size_at(b, off);
        assert(b.subrange(off, off + sz).len() >= 8);
        lemma_fit_bounds(b, off + sz, (n - 1) as nat);
    }
}

/// A run of `i` entries followed by a run of `j` entries is a run of
/// `i + j` entries.
pub proof fn lemma_join(b: Seq<u8>, off: int, i: nat, j: nat)
    requires
        aces_fit(b, off, i),
        aces_fit(b, nth_offset(b, off, i), j),
    ensures
        aces_fit(b, off, i + j),
        aces_from(b, off, i + j) == aces_from(b, off, i) + aces_from(b, nth_offset(b, off, i), j),
        nth_offset(b, off, i + j) == nth_offset(b, nth_offset(b, off, i), j),
    decreases i,
{
    if i == 0 {
        assert(aces_from(b, off, 0) =~= Seq::<Seq<u8>>::empty());
        assert(aces_from(b, off, j) =~= Seq::<Seq<u8>>::empty() + aces_from(b, off, j));
    } else {
        let next = off + ace_size_at(b, off);
        lemma_join(b, next, (i - 1) as nat, j);
        assert((i + j - 1) as nat == (i - 1) as nat + j);
        assert(aces_from(b, off, i + j) =~= aces_from(b, off, i) + aces_from(
            b,
            nth_offset(b, off, i),
            j,
        ));
    }
}

/// A run of `n` entries splits after its first `i`.
pub proof fn lemma_split(b: Seq<u8>, off: int, n: nat, i: nat)
    requires
        aces_fit(b, off, n),
        i <= n,
    ensures
        aces_fit(b, off, i),
        aces_fit(b, nth_offset(b, off, i), (n - i) as nat),
        aces_from(b, off, n) == aces_from(b, off, i) + aces_from(
            b,
            nth_offset(b, off, i),
            (n - i) as nat,
        ),
        nth_offset(b, off, n) == nth_offset(b, nth_offset(b, off, i), (n - i) as nat),
    decreases i,
{
    if i == 0 {
        assert(aces_from(b, off, n) =~= Seq::<Seq<u8>>::empty() + aces_from(b, off, n));
    } else {
        let next = off + ace_size_at(b, off);
        lemma_split(b, next, (n - 1) as nat, (i - 1) as nat);
        assert(aces_from(b, off, n) =~= aces_from(b, off, i) + aces_from(
            b,
            nth_offset(b, off, i),
            (n - i) as nat,
        ));
    }
}

/// A run of entries copied to another place of another buffer is the same
/// run there.
pub proof fn lemma_moved(b1: Seq<u8>, p1: int, b2: Seq<u8>, p2: int, k: nat)
    requires
        aces_fit(b1, p1, k),
        0 <= p1 <= b1.len(),
        0 <= p2,
        p2 + (nth_offset(b1, p1, k) - p1) <= b2.len(),
        forall|j: int| p1 <= j < nth_offset(b1, p1, k) ==> b2[p2 + (j - p1)] == #[trigger] b1[j],
    ensures
        aces_fit(b2, p2, k),
        aces_from(b2, p2, k) == aces_from(b1, p1, k),
        nth_offset(b2, p2, k) == p2 + (nth_offset(b1, p1, k) - p1),
    decreases k,
{
    if k > 0 {
        let sz = ace_size_at(b1, p1);
        let rec = b1.subrange(p1, p1 + sz);
        assert(rec.len() >= 8);
        lemma_fit_bounds(b1, p1 + sz, (k - 1) as nat);
        assert(b2[p2 + 2] == b1[p1 + 2] && b2[p2 + 3] == b1[p1 + 3]) by {
            assert(b2[p2 + ((p1 + 2) - p1)] == b1[p1 + 2]);
            assert(b2[p2 + ((p1 + 3) - p1)] == b1[p1 + 3]);
        }
        assert(ace_size_at(b2, p2) == sz);
        assert(b2.subrange(p2, p2 + sz) =~= rec) by {
            assert forall|t: int| 0 <= t < sz implies b2.subrange(p2, p2 + sz)[t] == rec[t] by {
                assert(b2[p2 + ((p1 + t) - p1)] == b1[p1 + t]);
            }
        }
        lemma_moved(b1, p1 + sz, b2, p2 + sz, (k - 1) as nat);
    }
}

/// Inserting the bytes of one entry where entry `idx` started, and
/// updating the header, inserts that entry into the list.
pub proof fn lemma_insert(b: Seq<u8>, new: Seq<u8>, a: Seq<u8>, idx: nat)
    requires
        acl_record_ok(b),
        ace_record_ok(a),
        idx <= acl_count(b),
        new.len() == b.len() + a.len(),
        new[0] == ACL_REVISION_DS,
        le16(new, 2) as int == new.len(),
        le16(new, 4) as int == acl_count(b) + 1,
        forall|j: int| 8 <= j < nth_offset(b, 8, idx) ==> new[j] == #[trigger] b[j],
        forall|j: int| 0 <= j < a.len() ==> new[nth_offset(b, 8, idx) + j] == #[trigger] a[j],
        forall|j: int|
            nth_offset(b, 8, idx) <= j < b.len() ==> new[a.len() + j] == #[trigger] b[j],
    ensures
        acl_record_ok(new),
        acl_entries(new) == acl_entries(b).insert(idx as int, a),
{
    let n = acl_count(b);
    let off = nth_offset(b, 8, idx);
    lemma_split(b, 8, n, idx);
    lemma_fit_bounds(b, 8, idx);
    lemma_fit_bounds(b, off, (n - idx) as nat);
    let e = nth_offset(b, 8, n);
    lemma_moved(b, 8, new, 8, idx);
    assert(a.subrange(0, a.len() as int) =~= a);
    assert(aces_fit(a, 0, 1)) by {
        assert(aces_fit(a, ace_size_at(a, 0), 0));
    }
    assert(ace_size_at(a, 0) == a.len());
    assert(nth_offset(a, ace_size_at(a, 0), 0) == ace_size_at(a, 0));
    assert(nth_offset(a, 0, 1) == a.len());
    assert forall|j: int| 0 <= j < nth_offset(a, 0, 1) implies new[off + (j - 0)] == #[trigger] a[j] by {
        assert(new[off + j] == a[j]);
    }
    lemma_moved(a, 0, new, off, 1);
    assert forall|j: int| off <= j < nth_offset(b, off, (n - idx) as nat) implies new[(off
        + a.len()) + (j - off)] == #[trigger] b[j] by {
        assert(new[a.len() + j] == b[j]);
    }
    lemma_moved(b, off, new, off + a.len(), (n - idx) as nat);
    lemma_join(new, 8, idx, 1);
    lemma_join(new, 8, idx + 1, (n - idx) as nat);
    assert(idx + 1 + (n - idx) as nat == n + 1);
    assert(aces_from(a, 0, 1) =~= seq![a]) by {
        assert(aces_from(a, a.len() as int, 0) =~= Seq::<Seq<u8>>::empty());
    }
    lemma_aces_from_len(b, 8, idx);
    let left = aces_from(b, 8, idx);
    let right = aces_from(b, off, (n - idx) as nat);
    assert(acl_entries(new) == left + seq![a] + right);
    assert(acl_entries(b) == left + right);
    assert(acl_entries(new) =~= acl_entries(b).insert(idx as int, a));
}

/// An access-control list, held as its bytes.
#[derive(Debug)]
pub struct Acl {
    bytes: Vec<u8>,
}

impl View for Acl {
    type V = Seq<u8>;

    closed spec fn view(&self) -> Seq<u8> {
        self.bytes@
    }
}

impl Acl {
    #[verifier::type_invariant]
    spec fn inv(&self) -> bool {
        acl_record_ok(self.bytes@)
    }

    /// Take `b` as an ACL; `None` unless it is one whole, well-formed ACL
    /// whose every entry is well-formed.
    pub fn from_bytes(b: Vec<u8>) -> (r: Option<Acl>)
        ensures
            r is Some <==> acl_record_ok(b@),
            r matches Some(a) ==> a@ == b@,
    {
        if b.len() < 8 || (b[0] != ACL_REVISION && b[0] != ACL_REVISION_DS) || read_le16(
            b.as_slice(),
            2,
        ) as usize != b.len() {
            return None;
        }
        let n = read_le16(b.as_slice(), 4);
        let mut off: usize = 8;
        let mut k: u16 = 0;
        while k < n
            invariant
                n as nat == acl_count(b@),
                k <= n,
                8 <= off <= b@.len(),
                aces_fit(b@, 8, n as nat) == aces_fit(b@, off as int, (n - k) as nat),
            decreases n - k,
        {
            if b.len() - off < 4 {
                return None;
            }
            let size = read_le16(b.as_slice(), off + 2) as usize;
            if b.len() - off < size {
                return None;
            }
            let entry = copy_range(b.as_slice(), off, off + size);
            if Ace::from_bytes(entry).is_none() {
                return None;
            }
            off = off + size;
            k = k + 1;
        }
        Some(Acl { bytes: b })
    }

    /// An ACL with no entries.
    pub fn new_empty(revision: AclRevision) -> (r: Acl)
        ensures
            r@ == seq![acl_revision_byte(revision), 0u8, 8u8, 0u8, 0u8, 0u8, 0u8, 0u8],
            acl_entries(r@).len() == 0,
    {
        let rev = match revision {
            AclRevision::ACL_REVISION => ACL_REVISION,
            AclRevision::ACL_REVISION_DS => ACL_REVISION_DS,
        };
        let v: Vec<u8> = vec![rev, 0u8, 8u8, 0u8, 0u8, 0u8, 0u8, 0u8];
        proof {
            lemma_le16_low_byte(v@, 2);
            lemma_le16_low_byte(v@, 4);
        }
        Acl { bytes: v }
    }

    /// The number of entries.
    pub fn len(&self) -> (r: u32)
        ensures
            r as int == acl_entries(self@).len(),
    {
        proof {
            use_type_invariant(self);
            lemma_aces_from_len(self@, 8, acl_count(self@));
        }
        read_le16(self.bytes.as_slice(), 4) as u32
    }

    /// The entry at `index`, or `None` past the last one.
    pub fn get_ace(&self, index: u32) -> (r: Option<Ace>)
        ensures
            r is Some <==> (index as int) < acl_entries(self@).len(),
            r matches Some(a) ==> a@ == acl_entries(self@)[index as int],
    {
        proof {
            use_type_invariant(self);
            lemma_aces_from_len(self@, 8, acl_count(self@));
        }
        let b = self.bytes.as_slice();
        let n = read_le16(b, 4) as u32;
        if index >= n {
            return None;
        }
        let ghost all = acl_entries(self@);
        let mut off: usize = 8;
        let mut k: u32 = 0;
        while k < index
            invariant
                b@ == self@,
                b@.len() <= usize::MAX,
                n as nat == acl_count(b@),
                index < n,
                k <= index,
                8 <= off <= b@.len(),
                all == acl_entries(b@),
                all.len() == n,
                aces_fit(b@, off as int, (n - k) as nat),
                all.subrange(k as int, n as int) == aces_from(b@, off as int, (n - k) as nat),
            decreases index - k,
        {
            let size = read_le16(b, off + 2) as usize;
            proof {
                let m = (n - k) as nat;
                let rest = aces_from(b@, off + size, (m - 1) as nat);
                assert(aces_from(b@, off as int, m) == seq![b@.subrange(off as int, off + size)]
                    + rest);
                assert(all.subrange(k + 1, n as int) =~= all.subrange(k as int, n as int).subrange(
                    1,
                    m as int,
                ));
                assert(all.subrange(k + 1, n as int) =~= rest);
            }
            off = off + size;
            k = k + 1;
        }
        let size = read_le16(b, off + 2) as usize;
        let entry = copy_range(b, off, off + size);
        proof {
            let m = (n - k) as nat;
            assert(aces_from(b@, off as int, m)[0] == b@.subrange(off as int, off + size));
            assert(all.subrange(k as int, n as int)[0] == all[index as int]);
        }
        Ace::from_bytes(entry)
    }

    /// Where entry `idx` starts.
    fn entry_offset(&self, idx: u16) -> (r: usize)
        requires
            idx as int <= acl_count(self@),
        ensures
            r as int == nth_offset(self@, 8, idx as nat),
            8 <= r <= self@.len(),
    {
        proof {
            use_type_invariant(self);
        }
        let b = self.bytes.as_slice();
        let n = read_le16(b, 4);
        let mut off: usize = 8;
        let mut k: u16 = 0;
        while k < idx
            invariant
                b@ == self@,
                b@.len() <= usize::MAX,
                n as nat == acl_count(b@),
                idx <= n,
                k <= idx,
                8 <= off <= b@.len(),
                aces_fit(b@, off as int, (n - k) as nat),
                nth_offset(b@, 8, idx as nat) == nth_offset(b@, off as int, (idx - k) as nat),
            decreases idx - k,
        {
            let size = read_le16(b, off + 2) as usize;
            proof {
                lemma_fit_bounds(b@, off + size, (n - k - 1) as nat);
            }
            off = off + size;
            k = k + 1;
        }
        off
    }

    /// Insert `ace` before entry `index`, or after the last entry when
    /// there are not that many; the list takes revision
    /// `ACL_REVISION_DS`, which admits every entry type. Fails, changing
    /// nothing, when the list would outgrow its 16-bit size field.
    pub fn add_ace(&mut self, index: u32, ace: &Ace) -> (r: Result<(), i32>)
        ensures
            r is Err <==> old(self)@.len() + ace@.len() > 0xffff,
            r is Err ==> final(self)@ == old(self)@ && r == Err::<(), i32>(
                ERROR_ALLOTTED_SPACE_EXCEEDED,
            ),
            r is Ok ==> acl_entries(final(self)@) == acl_entries(old(self)@).insert(
                if index as int <= acl_entries(old(self)@).len() {
                    index as int
                } else {
                    acl_entries(old(self)@).len() as int
                },
                ace@,
            ),
            r is Ok ==> final(self)@[0] == ACL_REVISION_DS,
            r is Ok ==> final(self)@.len() == old(self)@.len() + ace@.len(),
    {
        proof {
            use_type_invariant(&*self);
            lemma_aces_from_len(self@, 8, acl_count(self@));
        }
        let alen = ace.size();
        let len = self.bytes.len();
        if len + alen > 0xffff {
            return Err(ERROR_ALLOTTED_SPACE_EXCEEDED);
        }
        let n = read_le16(self.bytes.as_slice(), 4);
        let idx: u16 = if index < n as u32 {
            index as u16
        } else {
            n
        };
        let off = self.entry_offset(idx);
        proof {
            lemma_fit_bounds(self@, 8, acl_count(self@));
        }
        let new_len: u16 = (len + alen) as u16;
        let new_count: u16 = n + 1;
        let b = self.bytes.as_slice();
        let mut v: Vec<u8> = Vec::new();
        v.push(ACL_REVISION_DS);
        v.push(b[1]);
        push_le16(&mut v, new_len);
        push_le16(&mut v, new_count);
        v.push(b[6]);
        v.push(b[7]);
        let ghost h = v@;
        let front = copy_range(b, 8, off);
        append_bytes(&mut v, front.as_slice());
        append_bytes(&mut v, ace.as_bytes());
        let back = copy_range(b, off, len);
        append_bytes(&mut v, back.as_slice());
        proof {
            let nb = v@;
            let a = ace@;
            lemma_le16_round_trip(new_len);
            lemma_le16_round_trip(new_count);
            assert(nb[2] == le16_bytes(new_len)[0] && nb[3] == le16_bytes(new_len)[1]);
            assert(nb[4] == le16_bytes(new_count)[0] && nb[5] == le16_bytes(new_count)[1]);
            assert(le16(nb, 2) == new_len);
            assert(le16(nb, 4) == new_count);
            assert forall|j: int| 8 <= j < off implies nb[j] == #[trigger] b@[j] by {
                assert(front@[j - 8] == b@[j]);
            }
            assert forall|j: int| 0 <= j < a.len() implies nb[off + j] == #[trigger] a[j] by {}
            assert forall|j: int| off <= j < b@.len() implies nb[a.len() + j] == #[trigger] b@[j] by {
                assert(back@[j - off] == b@[j]);
            }
            lemma_insert(b@, nb, a, idx as nat);
        }
        *self = Acl { bytes: v };
        Ok(())
    }

    /// The revision byte of the header.
    pub fn revision_level(&self) -> (r: AclRevision)
        ensures
            acl_revision_byte(r) == self@[0],
    {
        proof {
            use_type_invariant(self);
        }
        if self.bytes[0] == ACL_REVISION {
            AclRevision::ACL_REVISION
        } else {
            AclRevision::ACL_REVISION_DS
        }
    }

    /// The list's size in bytes, which its 16-bit size field states.
    pub fn size(&self) -> (r: usize)
        ensures
            r == self@.len(),
            r <= 0xffff,
            acl_record_ok(self@),
    {
        proof {
            use_type_invariant(self);
        }
        self.bytes.len()
    }

    /// The list's bytes.
    pub fn as_bytes(&self) -> (r: &[u8])
        ensures
            r@ == self@,
            acl_record_ok(self@),
    {
        proof {
            use_type_invariant(self);
        }
        self.bytes.as_slice()
    }
}

} // verus!
