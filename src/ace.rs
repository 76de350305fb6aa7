//! Access-control entries.
//!
//! An ACE starts with a four-byte header (type tag, flags, total size as a
//! little-endian 16-bit value) followed by the access mask. What comes after
//! the mask depends on the tag: plain entries hold the principal's SID at
//! byte 8; object entries hold presence bits at byte 8 and then up to two
//! GUIDs before the SID; resource-attribute entries carry no SID this crate
//! reads.

use vstd::prelude::*;

use crate::bytes::{le16, le16_bytes, le32, le32_bytes, push_le16, push_le32, read_le16, read_le32, lemma_le16_round_trip, lemma_le32_round_trip};
use crate::constants::{
    ace_type_tag, is_ace_tag, is_object_ace, AceType, ACE_FLAGS_ALL, ACE_INHERITED_OBJECT_TYPE_PRESENT,
    ACE_OBJECT_TYPE_PRESENT,
};
use crate::sid::{lemma_sid_at_within, lemma_sid_bytes_round_trip, sid_bytes, sid_model_at, sid_model_ok, valid_sid_at, Sid, SidModel};

verus! {

/// Whether `raw` tags an object entry.
pub open spec fn tag_is_object(raw: u8) -> bool {
    raw == 0x05 || raw == 0x06 || raw == 0x07 || raw == 0x0B || raw == 0x0C || raw == 0x0F
}

/// The tag of resource-attribute entries.
pub const RESOURCE_ATTRIBUTE_TAG: u8 = 0x12;

/// Where the principal's SID starts in the entry `b`, if it has one.
pub open spec fn ace_sid_offset(b: Seq<u8>) -> Option<int> {
    if b[0] == RESOURCE_ATTRIBUTE_TAG {
        None
    } else if tag_is_object(b[0]) {
        let presence = le32(b, 8);
        Some(
            12 + (if presence & ACE_OBJECT_TYPE_PRESENT != 0 {
                16int
            } else {
                0int
            }) + (if presence & ACE_INHERITED_OBJECT_TYPE_PRESENT != 0 {
                16int
            } else {
                0int
            }),
        )
    } else {
        Some(8)
    }
}

/// Whether `b` is one whole, well-formed entry: a recognised tag, a size
/// field equal to its length, room for the presence bits of object entries,
/// and a valid SID where the tag places one.
pub open spec fn ace_record_ok(b: Seq<u8>) -> bool {
    &&& 8 <= b.len()
    &&& le16(b, 2) as int == b.len()
    &&& is_ace_tag(b[0])
    &&& tag_is_object(b[0]) ==> 12 <= b.len()
    &&& ace_sid_offset(b) matches Some(o) ==> valid_sid_at(b, o)
}

/// The bytes of a plain entry (neither object nor resource attribute).
pub open spec fn plain_ace_bytes(t: AceType, flags: u8, mask: u32, sid: SidModel) -> Seq<u8> {
    seq![ace_type_tag(t), flags] + le16_bytes((8 + sid_bytes(sid).len()) as u16) + le32_bytes(mask)
        + sid_bytes(sid)
}

/// Whether `raw` tags an object entry.
fn tag_is_object_byte(raw: u8) -> (r: bool)
    ensures
        r == tag_is_object(raw),
{
    raw == 0x05 || raw == 0x06 || raw == 0x07 || raw == 0x0B || raw == 0x0C || raw == 0x0F
}

/// Where the principal's SID starts in the entry `b`, if it has one.
fn sid_offset_of(b: &[u8]) -> (r: Option<usize>)
    requires
        8 <= b@.len(),
        tag_is_object(b@[0]) ==> 12 <= b@.len(),
    ensures
        r is None <==> ace_sid_offset(b@) is None,
        r matches Some(o) ==> ace_sid_offset(b@) == Some(o as int),
{
    let tag = b[0];
    if tag == RESOURCE_ATTRIBUTE_TAG {
        None
    } else if tag_is_object_byte(tag) {
        let presence = read_le32(b, 8);
        Some(
            12 + (if presence & ACE_OBJECT_TYPE_PRESENT != 0 {
                16
            } else {
                0
            }) + (if presence & ACE_INHERITED_OBJECT_TYPE_PRESENT != 0 {
                16
            } else {
                0
            }),
        )
    } else {
        Some(8)
    }
}

/// An access-control entry, held as its bytes.
#[derive(Debug)]
pub struct Ace {
    bytes: Vec<u8>,
}

impl View for Ace {
    type V = Seq<u8>;

    closed spec fn view(&self) -> Seq<u8> {
        self.bytes@
    }
}

impl Ace {
    #[verifier::type_invariant]
    spec fn inv(&self) -> bool {
        ace_record_ok(self.bytes@)
    }

    /// Take `b` as an entry; `None` unless it is one whole, well-formed entry.
    pub fn from_bytes(b: Vec<u8>) -> (r: Option<Ace>)
        ensures
            r is Some <==> ace_record_ok(b@),
            r matches Some(a) ==> a@ == b@,
    {
        if b.len() < 8 || read_le16(b.as_slice(), 2) as usize != b.len() {
            return None;
        }
        if AceType::from_raw(b[0]).is_none() {
            return None;
        }
        if tag_is_object_byte(b[0]) && b.len() < 12 {
            return None;
        }
        match sid_offset_of(b.as_slice()) {
            None => Some(Ace { bytes: b }),
            Some(o) => {
                if Sid::parse_at(b.as_slice(), o).is_none() {
                    return None;
                }
                Some(Ace { bytes: b })
            },
        }
    }

    /// Build a plain entry (neither an object entry nor a resource
    /// attribute): header, mask, then the SID.
    pub fn new_plain(t: AceType, flags: u8, mask: u32, sid: &Sid) -> (r: Ace)
        requires
            !is_object_ace(t),
            t != AceType::SYSTEM_RESOURCE_ATTRIBUTE_ACE_TYPE,
        ensures
            r@ == plain_ace_bytes(t, flags, mask, sid@),
            r@[0] == ace_type_tag(t),
            r@[1] == flags,
            le32(r@, 4) == mask,
            ace_sid_offset(r@) == Some(8int),
            sid_model_at(r@, 8) == sid@,
    {
        let sb = sid.to_bytes();
        let count = sid.sub_authority_count();
        let size: u16 = (8 + sb.len()) as u16;
        let mut v: Vec<u8> = Vec::new();
        v.push(t.as_raw());
        v.push(flags);
        push_le16(&mut v, size);
        push_le32(&mut v, mask);
        let ghost head = v@;
        let mut i: usize = 0;
        while i < sb.len()
            invariant
                i <= sb@.len(),
                v@ =~= head + sb@.subrange(0, i as int),
            decreases sb@.len() - i,
        {
            v.push(sb[i]);
            i += 1;
        }
        proof {
            let sm = sid@;
            assert(sb@.subrange(0, sb@.len() as int) =~= sb@);
            assert(v@ =~= plain_ace_bytes(t, flags, mask, sm));
            assert(sid_model_ok(sm));
            lemma_sid_bytes_round_trip(sm);
            assert(sb@.len() == 8 + 4 * sm.1.len());
            lemma_le16_round_trip(size);
            lemma_le32_round_trip(mask);
            let lb = le16_bytes(size);
            let mb = le32_bytes(mask);
            assert(v@[2] == lb[0] && v@[3] == lb[1]);
            assert(v@[4] == mb[0] && v@[5] == mb[1] && v@[6] == mb[2] && v@[7] == mb[3]);
            assert(le16(v@, 2) == size);
            assert(le32(v@, 4) == mask);
            assert(is_ace_tag(v@[0]));
            assert(!tag_is_object(v@[0]));
            assert(v@[0] != RESOURCE_ATTRIBUTE_TAG);
            assert(v@.subrange(8, 8 + sb@.len() as int) =~= sb@);
            lemma_sid_at_within(v@, 8, sb@, 0);
        }
        Ace { bytes: v }
    }

    /// The entry's type.
    pub fn ace_type(&self) -> (r: AceType)
        ensures
            ace_type_tag(r) == self@[0],
    {
        proof {
            use_type_invariant(self);
        }
        match AceType::from_raw(self.bytes[0]) {
            Some(t) => t,
            None => {
                proof {
                    assert(false);
                }
                AceType::ACCESS_ALLOWED_ACE_TYPE
            },
        }
    }

    /// The entry's flag bits, cut to the recognised ones.
    pub fn flags(&self) -> (r: u8)
        ensures
            r == self@[1] & ACE_FLAGS_ALL,
    {
        proof {
            use_type_invariant(self);
        }
        self.bytes[1] & ACE_FLAGS_ALL
    }

    /// The access mask, which every entry type stores at byte 4.
    pub fn mask(&self) -> (r: u32)
        ensures
            r == le32(self@, 4),
    {
        proof {
            use_type_invariant(self);
        }
        read_le32(self.bytes.as_slice(), 4)
    }

    /// The principal's SID; `None` for resource-attribute entries.
    pub fn sid(&self) -> (r: Option<Sid>)
        ensures
            ace_sid_offset(self@) is None ==> r is None,
            ace_sid_offset(self@) matches Some(o) ==> r matches Some(s) && s@ == sid_model_at(
                self@,
                o,
            ),
    {
        proof {
            use_type_invariant(self);
        }
        match sid_offset_of(self.bytes.as_slice()) {
            None => None,
            Some(o) => Sid::parse_at(self.bytes.as_slice(), o),
        }
    }

    /// The entry's bytes.
    pub fn as_bytes(&self) -> (r: &[u8])
        ensures
            r@ == self@,
            ace_record_ok(self@),
    {
        proof {
            use_type_invariant(self);
        }
        self.bytes.as_slice()
    }

    /// The entry's size in bytes.
    pub fn size(&self) -> (r: usize)
        ensures
            r == self@.len(),
            8 <= r,
            ace_record_ok(self@),
    {
        proof {
            use_type_invariant(self);
        }
        self.bytes.len()
    }
}

} // verus!
