//! Self-relative security descriptors.
//!
//! The descriptor is one buffer: a 20-byte header (revision, a zero byte,
//! the control bits as a little-endian 16-bit value, then the offsets of the
//! owner, group, SACL and DACL as little-endian 32-bit values) followed by
//! the parts those offsets point at. A zero offset marks an absent part; an
//! ACL counts as present only when its control bit is also set, so a present
//! but empty ACL differs from an absent one.

use vstd::prelude::*;

use crate::acl::{acl_record_ok, Acl};
use crate::bytes::{append_bytes, le16, le16_bytes, le32, le32_bytes, lemma_le16_round_trip, lemma_le32_round_trip, push_le16, push_le32, read_le16, read_le32, copy_range};
use crate::constants::{SE_DACL_PRESENT, SE_SACL_PRESENT, SE_SELF_RELATIVE};
use crate::sid::{lemma_sid_at_within, lemma_sid_bytes_round_trip, sid_bytes, sid_model_at, sid_model_ok, valid_sid_at, Sid, SidModel};

verus! {

/// The only security-descriptor revision the platform defines.
pub const SECURITY_DESCRIPTOR_REVISION: u8 = 1;

/// Size of the self-relative header.
pub const SD_HEADER_SIZE: usize = 20;

pub open spec fn sd_control(b: Seq<u8>) -> u16 {
    le16(b, 2)
}

pub open spec fn sd_owner_offset(b: Seq<u8>) -> u32 {
    le32(b, 4)
}

pub open spec fn sd_group_offset(b: Seq<u8>) -> u32 {
    le32(b, 8)
}

pub open spec fn sd_sacl_offset(b: Seq<u8>) -> u32 {
    le32(b, 12)
}

pub open spec fn sd_dacl_offset(b: Seq<u8>) -> u32 {
    le32(b, 16)
}

/// Whether a well-formed ACL lies in `b` from `off` on.
pub open spec fn acl_at_ok(b: Seq<u8>, off: int) -> bool {
    &&& 0 <= off
    &&& off + 4 <= b.len()
    &&& off + le16(b, off + 2) <= b.len()
    &&& acl_record_ok(b.subrange(off, off + le16(b, off + 2)))
}

/// The bytes of the ACL that starts at `off`.
pub open spec fn acl_bytes_at(b: Seq<u8>, off: int) -> Seq<u8> {
    b.subrange(off, off + le16(b, off + 2))
}

/// Whether the DACL is present: its control bit is set and its offset is
/// not zero.
pub open spec fn sd_has_dacl(b: Seq<u8>) -> bool {
    sd_control(b) & SE_DACL_PRESENT != 0 && sd_dacl_offset(b) != 0
}

/// Whether the SACL is present: its control bit is set and its offset is
/// not zero.
pub open spec fn sd_has_sacl(b: Seq<u8>) -> bool {
    sd_control(b) & SE_SACL_PRESENT != 0 && sd_sacl_offset(b) != 0
}

/// The owner, if present.
pub open spec fn sd_owner(b: Seq<u8>) -> Option<SidModel> {
    if sd_owner_offset(b) != 0 {
        Some(sid_model_at(b, sd_owner_offset(b) as int))
    } else {
        None
    }
}

/// The group, if present.
pub open spec fn sd_group(b: Seq<u8>) -> Option<SidModel> {
    if sd_group_offset(b) != 0 {
        Some(sid_model_at(b, sd_group_offset(b) as int))
    } else {
        None
    }
}

/// The DACL's bytes, if present.
pub open spec fn sd_dacl(b: Seq<u8>) -> Option<Seq<u8>> {
    if sd_has_dacl(b) {
        Some(acl_bytes_at(b, sd_dacl_offset(b) as int))
    } else {
        None
    }
}

/// The SACL's bytes, if present.
pub open spec fn sd_sacl(b: Seq<u8>) -> Option<Seq<u8>> {
    if sd_has_sacl(b) {
        Some(acl_bytes_at(b, sd_sacl_offset(b) as int))
    } else {
        None
    }
}

/// Whether `b` is a well-formed self-relative descriptor: every part that
/// an offset announces is well-formed and lies inside the buffer.
pub open spec fn sd_record_ok(b: Seq<u8>) -> bool {
    &&& 20 <= b.len()
    &&& b[0] == SECURITY_DESCRIPTOR_REVISION
    &&& sd_control(b) & SE_SELF_RELATIVE != 0
    &&& sd_owner_offset(b) != 0 ==> valid_sid_at(b, sd_owner_offset(b) as int)
    &&& sd_group_offset(b) != 0 ==> valid_sid_at(b, sd_group_offset(b) as int)
    &&& sd_has_dacl(b) ==> acl_at_ok(b, sd_dacl_offset(b) as int)
    &&& sd_has_sacl(b) ==> acl_at_ok(b, sd_sacl_offset(b) as int)
}

pub open spec fn opt_sid_view(o: Option<&Sid>) -> Option<SidModel> {
    match o {
        Some(s) => Some(s@),
        None => None,
    }
}

pub open spec fn opt_acl_view(o: Option<&Acl>) -> Option<Seq<u8>> {
    match o {
        Some(a) => Some(a@),
        None => None,
    }
}

/// The control bits of a descriptor built with the given ACLs present.
pub open spec fn built_control(has_dacl: bool, has_sacl: bool) -> u16 {
    (SE_SELF_RELATIVE | (if has_dacl {
        SE_DACL_PRESENT
    } else {
        0u16
    }) | (if has_sacl {
        SE_SACL_PRESENT
    } else {
        0u16
    })) as u16
}

proof fn lemma_built_control(has_dacl: bool, has_sacl: bool)
    ensures
        built_control(has_dacl, has_sacl) & SE_SELF_RELATIVE != 0,
        (built_control(has_dacl, has_sacl) & SE_DACL_PRESENT != 0) == has_dacl,
        (built_control(has_dacl, has_sacl) & SE_SACL_PRESENT != 0) == has_sacl,
{
    let d: u16 = if has_dacl {
        4u16
    } else {
        0u16
    };
    let s: u16 = if has_sacl {
        0x10u16
    } else {
        0u16
    };
    let c = built_control(has_dacl, has_sacl);
    assert(c == (0x8000u16 | d | s) as u16);
    assert(((0x8000u16 | d | s) as u16) & 0x8000u16 != 0 && ((((0x8000u16 | d | s) as u16) & 4u16
        != 0) == (d == 4u16)) && ((((0x8000u16 | d | s) as u16) & 0x10u16 != 0) == (s == 0x10u16)))
        by (bit_vector)
        requires
            d == 0u16 || d == 4u16,
            s == 0u16 || s == 0x10u16,
    ;
}

/// The bytes of `part` lie in `b` from `off` on.
pub open spec fn holds_at(b: Seq<u8>, off: int, part: Seq<u8>) -> bool {
    0 <= off && off + part.len() <= b.len() && b.subrange(off, off + part.len()) == part
}

proof fn lemma_acl_within(b: Seq<u8>, off: int, a: Seq<u8>)
    requires
        holds_at(b, off, a),
        acl_record_ok(a),
    ensures
        acl_at_ok(b, off),
        acl_bytes_at(b, off) == a,
{
    assert(b[off + 2] == a[2] && b[off + 3] == a[3]) by {
        assert(b.subrange(off, off + a.len())[2] == a[2]);
        assert(b.subrange(off, off + a.len())[3] == a[3]);
    }
    assert(le16(b, off + 2) == le16(a, 2));
}

proof fn lemma_sid_within(b: Seq<u8>, off: int, s: SidModel)
    requires
        holds_at(b, off, sid_bytes(s)),
        sid_model_ok(s),
    ensures
        valid_sid_at(b, off),
        sid_model_at(b, off) == s,
{
    lemma_sid_bytes_round_trip(s);
    lemma_sid_at_within(b, off, sid_bytes(s), 0);
}

proof fn lemma_le32_in(b: Seq<u8>, off: int, x: u32)
    requires
        holds_at(b, off, le32_bytes(x)),
    ensures
        le32(b, off) == x,
{
    let q = le32_bytes(x);
    lemma_le32_round_trip(x);
    assert(b[off] == q[0] && b[off + 1] == q[1] && b[off + 2] == q[2] && b[off + 3] == q[3]) by {
        assert(b.subrange(off, off + 4)[0] == q[0]);
        assert(b.subrange(off, off + 4)[1] == q[1]);
        assert(b.subrange(off, off + 4)[2] == q[2]);
        assert(b.subrange(off, off + 4)[3] == q[3]);
    }
}

/// The fixed header of a built descriptor.
pub open spec fn header_bytes(control: u16, o: u32, g: u32, s: u32, d: u32) -> Seq<u8> {
    seq![SECURITY_DESCRIPTOR_REVISION, 0u8] + le16_bytes(control) + le32_bytes(o) + le32_bytes(g)
        + le32_bytes(s) + le32_bytes(d)
}

proof fn lemma_parts(head: Seq<u8>, p1: Seq<u8>, p2: Seq<u8>, p3: Seq<u8>, p4: Seq<u8>)
    ensures
        holds_at(head + p1 + p2 + p3 + p4, 0, head),
        holds_at(head + p1 + p2 + p3 + p4, head.len() as int, p1),
        holds_at(head + p1 + p2 + p3 + p4, (head.len() + p1.len()) as int, p2),
        holds_at(head + p1 + p2 + p3 + p4, (head.len() + p1.len() + p2.len()) as int, p3),
        holds_at(head + p1 + p2 + p3 + p4, (head.len() + p1.len() + p2.len() + p3.len()) as int, p4),
{
    let b = head + p1 + p2 + p3 + p4;
    let l0 = head.len() as int;
    let l1 = l0 + p1.len();
    let l2 = l1 + p2.len();
    let l3 = l2 + p3.len();
    assert(b.subrange(0, l0) =~= head);
    assert(b.subrange(l0, l1) =~= p1);
    assert(b.subrange(l1, l2) =~= p2);
    assert(b.subrange(l2, l3) =~= p3);
    assert(b.subrange(l3, l3 + p4.len()) =~= p4);
}

proof fn lemma_header(b: Seq<u8>, control: u16, o: u32, g: u32, s: u32, d: u32)
    requires
        holds_at(b, 0, header_bytes(control, o, g, s, d)),
    ensures
        b[0] == SECURITY_DESCRIPTOR_REVISION,
        20 <= b.len(),
        sd_control(b) == control,
        sd_owner_offset(b) == o,
        sd_group_offset(b) == g,
        sd_sacl_offset(b) == s,
        sd_dacl_offset(b) == d,
{
    let h = header_bytes(control, o, g, s, d);
    assert forall|k: int| 0 <= k < 20 implies b[k] == h[k] by {
        assert(b.subrange(0, 20)[k] == b[k]);
    }
    lemma_le16_round_trip(control);
    let cb = le16_bytes(control);
    assert(b[2] == cb[0] && b[3] == cb[1]);
    assert(holds_at(b, 4, le32_bytes(o))) by {
        assert(b.subrange(4, 8) =~= le32_bytes(o));
    }
    assert(holds_at(b, 8, le32_bytes(g))) by {
        assert(b.subrange(8, 12) =~= le32_bytes(g));
    }
    assert(holds_at(b, 12, le32_bytes(s))) by {
        assert(b.subrange(12, 16) =~= le32_bytes(s));
    }
    assert(holds_at(b, 16, le32_bytes(d))) by {
        assert(b.subrange(16, 20) =~= le32_bytes(d));
    }
    lemma_le32_in(b, 4, o);
    lemma_le32_in(b, 8, g);
    lemma_le32_in(b, 12, s);
    lemma_le32_in(b, 16, d);
}

/// A self-relative security descriptor, held as its bytes.
#[derive(Debug)]
pub struct SecurityDescriptor {
    bytes: Vec<u8>,
}

impl View for SecurityDescriptor {
    type V = Seq<u8>;

    closed spec fn view(&self) -> Seq<u8> {
        self.bytes@
    }
}

/// Reads the ACL at `off` of a buffer where one is known to lie.
fn acl_at(b: &[u8], off: usize) -> (r: Acl)
    requires
        acl_at_ok(b@, off as int),
    ensures
        r@ == acl_bytes_at(b@, off as int),
{
    let total = b.len();
    assert(off + 4 <= total);
    let len = read_le16(b, off + 2) as usize;
    let v = copy_range(b, off, off + len);
    match Acl::from_bytes(v) {
        Some(a) => a,
        None => {
            proof {
                assert(false);
            }
            Acl::new_empty(crate::constants::AclRevision::ACL_REVISION)
        },
    }
}

/// Whether a well-formed ACL lies in `b` from `off` on.
fn check_acl_at(b: &[u8], off: usize) -> (r: bool)
    ensures
        r == acl_at_ok(b@, off as int),
{
    if off > b.len() || b.len() - off < 4 {
        return false;
    }
    let len = read_le16(b, off + 2) as usize;
    if b.len() - off < len {
        return false;
    }
    let v = copy_range(b, off, off + len);
    Acl::from_bytes(v).is_some()
}

impl SecurityDescriptor {
    #[verifier::type_invariant]
    spec fn inv(&self) -> bool {
        sd_record_ok(self.bytes@)
    }

    /// Take `b` as a self-relative descriptor; `None` unless it is a
    /// well-formed one.
    pub fn from_bytes(b: Vec<u8>) -> (r: Option<SecurityDescriptor>)
        ensures
            r is Some <==> sd_record_ok(b@),
            r matches Some(sd) ==> sd@ == b@,
    {
        let s = b.as_slice();
        if s.len() < SD_HEADER_SIZE || s[0] != SECURITY_DESCRIPTOR_REVISION {
            return None;
        }
        let control = read_le16(s, 2);
        if control & SE_SELF_RELATIVE == 0 {
            return None;
        }
        let owner = read_le32(s, 4);
        let group = read_le32(s, 8);
        let sacl = read_le32(s, 12);
        let dacl = read_le32(s, 16);
        if owner != 0 && Sid::parse_at(s, owner as usize).is_none() {
            return None;
        }
        if group != 0 && Sid::parse_at(s, group as usize).is_none() {
            return None;
        }
        if control & SE_DACL_PRESENT != 0 && dacl != 0 && !check_acl_at(s, dacl as usize) {
            return None;
        }
        if control & SE_SACL_PRESENT != 0 && sacl != 0 && !check_acl_at(s, sacl as usize) {
            return None;
        }
        Some(SecurityDescriptor { bytes: b })
    }

    /// Build a self-relative descriptor from its parts; an absent ACL is
    /// marked absent in the control bits.
    #[verifier::rlimit(100)]
    pub fn from_parts(
        owner: Option<&Sid>,
        group: Option<&Sid>,
        dacl: Option<&Acl>,
        sacl: Option<&Acl>,
    ) -> (r: SecurityDescriptor)
        ensures
            sd_owner(r@) == opt_sid_view(owner),
            sd_group(r@) == opt_sid_view(group),
            sd_dacl(r@) == opt_acl_view(dacl),
            sd_sacl(r@) == opt_acl_view(sacl),
    {
        let ob: Vec<u8> = match owner {
            Some(x) => x.to_bytes(),
            None => Vec::new(),
        };
        let gb: Vec<u8> = match group {
            Some(x) => x.to_bytes(),
            None => Vec::new(),
        };
        let sb: Vec<u8> = match sacl {
            Some(x) => {
                let _n = x.size();
                copy_range(x.as_bytes(), 0, x.size())
            },
            None => Vec::new(),
        };
        let db: Vec<u8> = match dacl {
            Some(x) => {
                let _n = x.size();
                copy_range(x.as_bytes(), 0, x.size())
            },
            None => Vec::new(),
        };
        proof {
            if let Some(x) = sacl {
                assert(sb@ =~= x@);
            }
            if let Some(x) = dacl {
                assert(db@ =~= x@);
            }
        }
        let c1: u32 = 20 + ob.len() as u32;
        let c2: u32 = c1 + gb.len() as u32;
        let c3: u32 = c2 + sb.len() as u32;
        let o_off: u32 = if owner.is_some() {
            20
        } else {
            0
        };
        let g_off: u32 = if group.is_some() {
            c1
        } else {
            0
        };
        let s_off: u32 = if sacl.is_some() {
            c2
        } else {
            0
        };
        let d_off: u32 = if dacl.is_some() {
            c3
        } else {
            0
        };
        let control: u16 = SE_SELF_RELATIVE | (if dacl.is_some() {
            SE_DACL_PRESENT
        } else {
            0u16
        }) | (if sacl.is_some() {
            SE_SACL_PRESENT
        } else {
            0u16
        });
        let mut v: Vec<u8> = Vec::new();
        v.push(SECURITY_DESCRIPTOR_REVISION);
        v.push(0u8);
        push_le16(&mut v, control);
        push_le32(&mut v, o_off);
        push_le32(&mut v, g_off);
        push_le32(&mut v, s_off);
        push_le32(&mut v, d_off);
        let ghost head = v@;
        append_bytes(&mut v, ob.as_slice());
        let ghost h1 = v@;
        append_bytes(&mut v, gb.as_slice());
        let ghost h2 = v@;
        append_bytes(&mut v, sb.as_slice());
        let ghost h3 = v@;
        append_bytes(&mut v, db.as_slice());
        proof {
            let b = v@;
            assert(head =~= header_bytes(control, o_off, g_off, s_off, d_off));
            lemma_parts(head, ob@, gb@, sb@, db@);
            assert(b == head + ob@ + gb@ + sb@ + db@);
            lemma_header(b, control, o_off, g_off, s_off, d_off);
            assert(control == built_control(dacl is Some, sacl is Some));
            lemma_built_control(dacl is Some, sacl is Some);
            if let Some(x) = owner {
                lemma_sid_within(b, 20, x@);
            }
            if let Some(x) = group {
                lemma_sid_within(b, c1 as int, x@);
            }
            if let Some(x) = sacl {
                lemma_acl_within(b, c2 as int, x@);
            }
            if let Some(x) = dacl {
                lemma_acl_within(b, c3 as int, x@);
            }
        }
        SecurityDescriptor { bytes: v }
    }

    /// The control bits.
    pub fn control(&self) -> (r: u16)
        ensures
            r == sd_control(self@),
    {
        proof {
            use_type_invariant(self);
        }
        read_le16(self.bytes.as_slice(), 2)
    }

    /// The owner, if present.
    pub fn owner(&self) -> (r: Option<Sid>)
        ensures
            r matches Some(x) ==> sd_owner(self@) == Some(x@),
            r is Some <==> sd_owner_offset(self@) != 0,
    {
        proof {
            use_type_invariant(self);
        }
        let s = self.bytes.as_slice();
        let off = read_le32(s, 4);
        if off == 0 {
            None
        } else {
            Sid::parse_at(s, off as usize)
        }
    }

    /// The group, if present.
    pub fn group(&self) -> (r: Option<Sid>)
        ensures
            r matches Some(x) ==> sd_group(self@) == Some(x@),
            r is Some <==> sd_group_offset(self@) != 0,
    {
        proof {
            use_type_invariant(self);
        }
        let s = self.bytes.as_slice();
        let off = read_le32(s, 8);
        if off == 0 {
            None
        } else {
            Sid::parse_at(s, off as usize)
        }
    }

    /// The DACL, if present.
    pub fn dacl(&self) -> (r: Option<Acl>)
        ensures
            r matches Some(x) ==> sd_dacl(self@) == Some(x@),
            r is Some <==> sd_has_dacl(self@),
    {
        proof {
            use_type_invariant(self);
        }
        let s = self.bytes.as_slice();
        let control = read_le16(s, 2);
        let off = read_le32(s, 16);
        if control & SE_DACL_PRESENT != 0 && off != 0 {
            Some(acl_at(s, off as usize))
        } else {
            None
        }
    }

    /// The SACL, if present.
    pub fn sacl(&self) -> (r: Option<Acl>)
        ensures
            r matches Some(x) ==> sd_sacl(self@) == Some(x@),
            r is Some <==> sd_has_sacl(self@),
    {
        proof {
            use_type_invariant(self);
        }
        let s = self.bytes.as_slice();
        let control = read_le16(s, 2);
        let off = read_le32(s, 12);
        if control & SE_SACL_PRESENT != 0 && off != 0 {
            Some(acl_at(s, off as usize))
        } else {
            None
        }
    }

    /// The descriptor's bytes.
    pub fn as_bytes(&self) -> (r: &[u8])
        ensures
            r@ == self@,
            sd_record_ok(self@),
    {
        proof {
            use_type_invariant(self);
        }
        self.bytes.as_slice()
    }
}

} // verus!
