//! Security identifiers.
//!
//! A SID is a revision byte (always 1), a sub-authority count, a six-byte
//! identifier authority and up to fifteen 32-bit sub-authorities stored
//! little-endian. [`Sid`] holds those values; [`Sid::to_bytes`] and
//! [`Sid::parse_at`] move between them and the platform's byte layout.

use vstd::prelude::*;

use crate::bytes::{le32, le32_bytes, push_le32, read_le32, lemma_le32_round_trip};
use crate::constants::ERROR_INVALID_PARAMETER;

verus! {

/// The only SID revision the platform defines.
pub const SID_REVISION: u8 = 1;

/// Largest number of sub-authorities a SID can hold.
pub const SID_MAX_SUB_AUTHORITIES: u8 = 15;

/// Largest number of sub-authorities [`Sid::new`] accepts.
pub const SID_NEW_MAX_SUB_AUTHORITIES: usize = 8;

/// A SID as values: the identifier authority and the sub-authorities.
pub type SidModel = (Seq<u8>, Seq<u32>);

/// A model describes a SID when the authority has six bytes and there are
/// at most fifteen sub-authorities.
pub open spec fn sid_model_ok(m: SidModel) -> bool {
    m.0.len() == 6 && m.1.len() <= 15
}

/// Size in bytes of a SID with `count` sub-authorities.
pub open spec fn sid_size(count: nat) -> nat {
    8 + 4 * count
}

/// The sub-authorities as consecutive little-endian words.
pub open spec fn sub_authorities_bytes(subs: Seq<u32>) -> Seq<u8>
    decreases subs.len(),
{
    if subs.len() == 0 {
        Seq::empty()
    } else {
        sub_authorities_bytes(subs.drop_last()) + le32_bytes(subs.last())
    }
}

/// The platform's byte layout of a SID.
pub open spec fn sid_bytes(m: SidModel) -> Seq<u8> {
    seq![SID_REVISION, m.1.len() as u8] + m.0 + sub_authorities_bytes(m.1)
}

/// Whether a well-formed SID header, and all the sub-authorities it
/// announces, lie in `b` from `off` on.
pub open spec fn valid_sid_at(b: Seq<u8>, off: int) -> bool {
    &&& 0 <= off
    &&& off + 8 <= b.len()
    &&& b[off] == SID_REVISION
    &&& b[off + 1] <= SID_MAX_SUB_AUTHORITIES
    &&& off + sid_size(b[off + 1] as nat) <= b.len()
}

/// The SID stored in `b` from `off` on.
pub open spec fn sid_model_at(b: Seq<u8>, off: int) -> SidModel {
    (
        b.subrange(off + 2, off + 8),
        Seq::new(b[off + 1] as nat, |i: int| le32(b, off + 8 + 4 * i)),
    )
}

/// Errors of SID construction.
#[derive(Clone, Copy, Debug, PartialEq, Eq, Structural)]
pub enum SidError {
    /// No sub-authority was given.
    InvalidInput,
    /// The platform error code the call would have failed with.
    Os(i32),
}

/// A security identifier.
#[derive(Debug, Hash)]
pub struct Sid {
    id_auth: [u8; 6],
    sub_auths: Vec<u32>,
}

impl View for Sid {
    type V = SidModel;

    closed spec fn view(&self) -> SidModel {
        (self.id_auth@, self.sub_auths@)
    }
}

impl Sid {
    #[verifier::type_invariant]
    spec fn inv(&self) -> bool {
        self.sub_auths@.len() <= 15
    }

    /// Build a SID from an identifier authority and one to eight
    /// sub-authorities.
    pub fn new(id_auth: [u8; 6], sub_auths: &[u32]) -> (r: Result<Sid, SidError>)
        ensures
            sub_auths@.len() == 0 <==> r == Err::<Sid, SidError>(SidError::InvalidInput),
            sub_auths@.len() > 8 <==> r == Err::<Sid, SidError>(
                SidError::Os(ERROR_INVALID_PARAMETER),
            ),
            r is Ok <==> 1 <= sub_auths@.len() <= 8,
            r matches Ok(s) ==> s@ == (id_auth@, sub_auths@),
    {
        if sub_auths.len() == 0 {
            return Err(SidError::InvalidInput);
        }
        if sub_auths.len() > SID_NEW_MAX_SUB_AUTHORITIES {
            return Err(SidError::Os(ERROR_INVALID_PARAMETER));
        }
        let mut v: Vec<u32> = Vec::new();
        let mut i: usize = 0;
        while i < sub_auths.len()
            invariant
                i <= sub_auths@.len(),
                v@ == sub_auths@.subrange(0, i as int),
            decreases sub_auths@.len() - i,
        {
            v.push(sub_auths[i]);
            i += 1;
        }
        assert(v@ =~= sub_auths@);
        Ok(Sid { id_auth, sub_auths: v })
    }

    /// Build a SID from any identifier authority and at most fifteen
    /// sub-authorities; `None` when there are more.
    pub fn from_parts(id_auth: [u8; 6], sub_auths: Vec<u32>) -> (r: Option<Sid>)
        ensures
            r is Some <==> sub_auths@.len() <= 15,
            r matches Some(s) ==> s@ == (id_auth@, sub_auths@),
    {
        if sub_auths.len() <= 15 {
            Some(Sid { id_auth, sub_auths })
        } else {
            None
        }
    }

    /// The number of sub-authorities.
    pub fn sub_authority_count(&self) -> (r: u8)
        ensures
            r as int == self@.1.len(),
            r <= 15,
            sid_model_ok(self@),
    {
        proof {
            use_type_invariant(self);
        }
        self.sub_auths.len() as u8
    }

    /// The six-byte identifier authority.
    pub fn id_authority(&self) -> (r: [u8; 6])
        ensures
            r@ == self@.0,
    {
        self.id_auth
    }

    /// The sub-authority at `index`, or `None` past the last one.
    pub fn sub_authority(&self, index: u8) -> (r: Option<u32>)
        ensures
            r is Some <==> (index as int) < self@.1.len(),
            r matches Some(x) ==> x == self@.1[index as int],
    {
        if (index as usize) < self.sub_auths.len() {
            Some(self.sub_auths[index as usize])
        } else {
            None
        }
    }

    /// All sub-authorities, in order.
    pub fn sub_authorities(&self) -> (r: Vec<u32>)
        ensures
            r@ == self@.1,
    {
        let count = self.sub_authority_count();
        let mut v: Vec<u32> = Vec::new();
        let mut i: u8 = 0;
        while i < count
            invariant
                count as int == self@.1.len(),
                i <= count,
                v@ == self@.1.subrange(0, i as int),
            decreases count - i,
        {
            let x = self.sub_authority(i);
            match x {
                Some(x) => v.push(x),
                None => {},
            }
            i += 1;
        }
        assert(v@ =~= self@.1);
        v
    }

    /// The identifier authority read as a big-endian 48-bit number.
    pub fn id_auth_to_number(id_auth: [u8; 6]) -> (r: u64)
        ensures
            r == (id_auth[5] as u64 | (id_auth[4] as u64) << 8u64 | (id_auth[3] as u64) << 16u64
                | (id_auth[2] as u64) << 24u64 | (id_auth[1] as u64) << 32u64 | (id_auth[0] as u64)
                << 40u64),
    {
        id_auth[5] as u64 | (id_auth[4] as u64) << 8u64 | (id_auth[3] as u64) << 16u64
            | (id_auth[2] as u64) << 24u64 | (id_auth[1] as u64) << 32u64 | (id_auth[0] as u64)
            << 40u64
    }

    /// Size in bytes of a SID with `count` sub-authorities.
    pub fn length_required(count: u8) -> (r: usize)
        ensures
            r as nat == sid_size(count as nat),
    {
        8 + 4 * (count as usize)
    }

    /// Size in bytes of this SID.
    pub fn size(&self) -> (r: usize)
        ensures
            r as nat == sid_size(self@.1.len()),
    {
        Sid::length_required(self.sub_authority_count())
    }

    /// Whether the two SIDs have the same authority and sub-authorities.
    pub fn equal(&self, other: &Sid) -> (r: bool)
        ensures
            r == (self@ == other@),
    {
        let a = &self.id_auth;
        let b = &other.id_auth;
        let same_auth = a[0] == b[0] && a[1] == b[1] && a[2] == b[2] && a[3] == b[3] && a[4]
            == b[4] && a[5] == b[5];
        if !same_auth || self.sub_auths.len() != other.sub_auths.len() {
            return false;
        }
        let mut i: usize = 0;
        while i < self.sub_auths.len()
            invariant
                self.sub_auths@.len() == other.sub_auths@.len(),
                i <= self.sub_auths@.len(),
                forall|j: int| 0 <= j < i ==> self.sub_auths@[j] == other.sub_auths@[j],
            decreases self.sub_auths@.len() - i,
        {
            if self.sub_auths[i] != other.sub_auths[i] {
                return false;
            }
            i += 1;
        }
        proof {
            assert(self.id_auth@ =~= other.id_auth@);
            assert(self.sub_auths@ =~= other.sub_auths@);
        }
        true
    }

    /// Decode the SID stored in `b` from `off` on; `None` when no
    /// well-formed SID lies there.
    pub fn parse_at(b: &[u8], off: usize) -> (r: Option<Sid>)
        ensures
            r is Some <==> valid_sid_at(b@, off as int),
            r matches Some(s) ==> s@ == sid_model_at(b@, off as int),
    {
        if off > b.len() || b.len() - off < 8 {
            return None;
        }
        if b[off] != SID_REVISION || b[off + 1] > SID_MAX_SUB_AUTHORITIES {
            return None;
        }
        let count = b[off + 1] as usize;
        if b.len() - off < 8 + 4 * count {
            return None;
        }
        let id_auth: [u8; 6] = [b[off + 2], b[off + 3], b[off + 4], b[off + 5], b[off + 6], b[off
            + 7]];
        let ghost m = sid_model_at(b@, off as int);
        let mut subs: Vec<u32> = Vec::new();
        let mut i: usize = 0;
        while i < count
            invariant
                count == b@[off as int + 1],
                off + 8 + 4 * count <= b@.len(),
                b@.len() <= usize::MAX,
                i <= count,
                subs@ =~= m.1.subrange(0, i as int),
                m == sid_model_at(b@, off as int),
            decreases count - i,
        {
            let x = read_le32(b, off + 8 + 4 * i);
            subs.push(x);
            i += 1;
        }
        assert(id_auth@ =~= m.0);
        assert(subs@ =~= m.1);
        Some(Sid { id_auth, sub_auths: subs })
    }

    /// The platform's byte layout of this SID.
    pub fn to_bytes(&self) -> (r: Vec<u8>)
        ensures
            r@ == sid_bytes(self@),
            sid_model_ok(self@),
            r@.len() == sid_size(self@.1.len()),
    {
        proof {
            use_type_invariant(self);
        }
        let mut v: Vec<u8> = Vec::new();
        v.push(SID_REVISION);
        v.push(self.sub_auths.len() as u8);
        let mut k: usize = 0;
        while k < 6
            invariant
                k <= 6,
                v@ =~= seq![SID_REVISION, self@.1.len() as u8] + self@.0.subrange(0, k as int),
            decreases 6 - k,
        {
            v.push(self.id_auth[k]);
            k += 1;
        }
        assert(self@.0.subrange(0, 6) =~= self@.0);
        let ghost head = seq![SID_REVISION, self@.1.len() as u8] + self@.0;
        let mut i: usize = 0;
        assert(sub_authorities_bytes(self@.1.subrange(0, 0)) =~= Seq::<u8>::empty());
        while i < self.sub_auths.len()
            invariant
                i <= self@.1.len(),
                self@.1 == self.sub_auths@,
                v@ =~= head + sub_authorities_bytes(self@.1.subrange(0, i as int)),
            decreases self@.1.len() - i,
        {
            let x = self.sub_auths[i];
            push_le32(&mut v, x);
            proof {
                let pre = self@.1.subrange(0, i as int + 1);
                assert(pre.drop_last() =~= self@.1.subrange(0, i as int));
                assert(pre.last() == x);
            }
            i += 1;
        }
        assert(self@.1.subrange(0, i as int) =~= self@.1);
        proof {
            lemma_sub_authorities_bytes(self@.1);
        }
        v
    }

    /// A SID with the same values.
    pub fn copy(&self) -> (r: Sid)
        ensures
            r@ == self@,
    {
        proof {
            use_type_invariant(self);
        }
        Sid { id_auth: self.id_auth, sub_auths: self.sub_authorities() }
    }
}

impl PartialEq for Sid {
    fn eq(&self, other: &Sid) -> (r: bool) {
        self.equal(other)
    }
}

impl vstd::std_specs::cmp::PartialEqSpecImpl for Sid {
    open spec fn obeys_eq_spec() -> bool {
        true
    }

    open spec fn eq_spec(&self, other: &Sid) -> bool {
        self@ == other@
    }
}

impl Eq for Sid {

}

/// The sub-authority words take four bytes each, and each word reads back.
pub proof fn lemma_sub_authorities_bytes(subs: Seq<u32>)
    ensures
        sub_authorities_bytes(subs).len() == 4 * subs.len(),
        forall|i: int|
            0 <= i < subs.len() ==> #[trigger] le32(sub_authorities_bytes(subs), 4 * i) == subs[i],
    decreases subs.len(),
{
    if subs.len() > 0 {
        let init = subs.drop_last();
        let p = sub_authorities_bytes(init);
        let q = le32_bytes(subs.last());
        lemma_sub_authorities_bytes(init);
        lemma_le32_round_trip(subs.last());
        let all = p + q;
        assert(all == sub_authorities_bytes(subs));
        assert forall|i: int| 0 <= i < subs.len() implies #[trigger] le32(all, 4 * i) == subs[i] by {
            if i < subs.len() - 1 {
                assert(le32(p, 4 * i) == init[i]);
                assert(all[4 * i] == p[4 * i] && all[4 * i + 1] == p[4 * i + 1] && all[4 * i + 2]
                    == p[4 * i + 2] && all[4 * i + 3] == p[4 * i + 3]);
            } else {
                assert(all[4 * i] == q[0] && all[4 * i + 1] == q[1] && all[4 * i + 2] == q[2]
                    && all[4 * i + 3] == q[3]);
            }
        }
    }
}

/// A SID found in `q` is found at the same place in any `b` that holds `q`
/// from `start` on.
pub proof fn lemma_sid_at_within(b: Seq<u8>, start: int, q: Seq<u8>, off: int)
    requires
        0 <= start,
        start + q.len() <= b.len(),
        b.subrange(start, start + q.len()) == q,
        valid_sid_at(q, off),
    ensures
        valid_sid_at(b, start + off),
        sid_model_at(b, start + off) == sid_model_at(q, off),
{
    assert forall|k: int| 0 <= k < q.len() implies #[trigger] b[start + k] == q[k] by {
        assert(b.subrange(start, start + q.len())[k] == q[k]);
    }
    let x = sid_model_at(b, start + off);
    let y = sid_model_at(q, off);
    assert(b[start + off + 1] == q[off + 1]);
    assert(x.0 =~= y.0) by {
        assert forall|k: int| 0 <= k < 6 implies x.0[k] == y.0[k] by {
            assert(b[start + (off + 2 + k)] == q[off + 2 + k]);
        }
    }
    assert forall|i: int| 0 <= i < x.1.len() implies #[trigger] x.1[i] == y.1[i] by {
        let o = off + 8 + 4 * i;
        assert(b[start + o] == q[o] && b[start + (o + 1)] == q[o + 1] && b[start + (o + 2)] == q[o
            + 2] && b[start + (o + 3)] == q[o + 3]);
    }
    assert(x.1 =~= y.1);
}

/// Decoding the byte layout of a SID gives the same SID back.
pub proof fn lemma_sid_bytes_round_trip(m: SidModel)
    requires
        sid_model_ok(m),
    ensures
        valid_sid_at(sid_bytes(m), 0),
        sid_model_at(sid_bytes(m), 0) == m,
{
    let b = sid_bytes(m);
    let subs = sub_authorities_bytes(m.1);
    lemma_sub_authorities_bytes(m.1);
    assert(b.len() == sid_size(m.1.len()));
    assert(b[1] == m.1.len() as u8);
    let d = sid_model_at(b, 0);
    assert(d.0 =~= m.0);
    assert forall|i: int| 0 <= i < m.1.len() implies #[trigger] d.1[i] == m.1[i] by {
        assert(le32(subs, 4 * i) == m.1[i]);
        assert(b[8 + 4 * i] == subs[4 * i] && b[8 + 4 * i + 1] == subs[4 * i + 1] && b[8 + 4 * i
            + 2] == subs[4 * i + 2] && b[8 + 4 * i + 3] == subs[4 * i + 3]);
    }
    assert(d.1 =~= m.1);
}

/// SID equality, which compares authority and sub-authorities, is
/// reflexive, symmetric and transitive.
pub proof fn lemma_sid_equality(a: SidModel, b: SidModel, c: SidModel)
    ensures
        a == a,
        a == b ==> b == a,
        (a == b && b == c) ==> a == c,
{
}

/// Equal SIDs have the same identifier authority and the same
/// sub-authorities in the same order: the fields that the derived `Hash`
/// of [`Sid`] reads.
pub proof fn lemma_equal_sids_hash_alike(a: SidModel, b: SidModel)
    requires
        a == b,
    ensures
        a.0 == b.0,
        a.1.len() == b.1.len(),
        forall|i: int| 0 <= i < a.1.len() ==> a.1[i] == b.1[i],
{
}

} // verus!
