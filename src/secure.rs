//! What a securable object is asked to change.
//!
//! Reading and writing an object's security is the platform's work; what
//! this crate decides is which security-information bits accompany a
//! change, given the parts the caller supplies.

use vstd::prelude::*;

use crate::acl::Acl;
use crate::constants::{
    DACL_SECURITY_INFORMATION, GROUP_SECURITY_INFORMATION, OWNER_SECURITY_INFORMATION,
    SACL_SECURITY_INFORMATION,
};
use crate::sid::Sid;

verus! {

/// The security-information bits naming exactly the given parts.
pub open spec fn information_bits(owner: bool, group: bool, dacl: bool, sacl: bool) -> u32 {
    ((if owner {
        OWNER_SECURITY_INFORMATION
    } else {
        0u32
    }) | (if group {
        GROUP_SECURITY_INFORMATION
    } else {
        0u32
    }) | (if dacl {
        DACL_SECURITY_INFORMATION
    } else {
        0u32
    }) | (if sacl {
        SACL_SECURITY_INFORMATION
    } else {
        0u32
    })) as u32
}

/// The security-information bits for a change of the parts that are
/// present: one bit for each, and no other.
pub fn changed_information(
    owner: Option<&Sid>,
    group: Option<&Sid>,
    dacl: Option<&Acl>,
    sacl: Option<&Acl>,
) -> (r: u32)
    ensures
        r == information_bits(owner is Some, group is Some, dacl is Some, sacl is Some),
        (r & OWNER_SECURITY_INFORMATION != 0) == owner is Some,
        (r & GROUP_SECURITY_INFORMATION != 0) == group is Some,
        (r & DACL_SECURITY_INFORMATION != 0) == dacl is Some,
        (r & SACL_SECURITY_INFORMATION != 0) == sacl is Some,
        r & !0xfu32 == 0,
{
    let o: u32 = if owner.is_some() {
        OWNER_SECURITY_INFORMATION
    } else {
        0
    };
    let g: u32 = if group.is_some() {
        GROUP_SECURITY_INFORMATION
    } else {
        0
    };
    let d: u32 = if dacl.is_some() {
        DACL_SECURITY_INFORMATION
    } else {
        0
    };
    let s: u32 = if sacl.is_some() {
        SACL_SECURITY_INFORMATION
    } else {
        0
    };
    let r = o | g | d | s;
    assert((r & 1u32 != 0) == (o == 1u32) && (r & 2u32 != 0) == (g == 2u32) && (r & 4u32 != 0) == (d
        == 4u32) && (r & 8u32 != 0) == (s == 8u32) && r & !0xfu32 == 0) by (bit_vector)
        requires
            o == 0u32 || o == 1u32,
            g == 0u32 || g == 2u32,
            d == 0u32 || d == 4u32,
            s == 0u32 || s == 8u32,
            r == o | g | d | s,
    ;
    r
}

} // verus!
