use windows_permissions::ace::Ace;
use windows_permissions::acl::Acl;
use windows_permissions::constants::{ACL_REVISION, AceType, AclRevision, DACL_SECURITY_INFORMATION, GENERIC_ALL, GENERIC_READ, GROUP_SECURITY_INFORMATION, OWNER_SECURITY_INFORMATION, SACL_SECURITY_INFORMATION, SE_DACL_PRESENT, SE_SACL_PRESENT, SE_SELF_RELATIVE};
use windows_permissions::sd::SecurityDescriptor;
use windows_permissions::secure::changed_information;
use windows_permissions::sid::Sid;
use windows_permissions::sizing::{next_sizing_step, SizingStep};

fn sid(text: &str) -> Sid {
    Sid::from_string_sid(text).unwrap()
}

fn acl_with(aces: &[Ace]) -> Acl {
    let size: usize = 8 + aces.iter().map(|a| a.size()).sum::<usize>();
    let mut v = vec![ACL_REVISION, 0];
    v.extend((size as u16).to_le_bytes());
    v.extend((aces.len() as u16).to_le_bytes());
    v.extend([0, 0]);
    for a in aces {
        v.extend(a.as_bytes());
    }
    Acl::from_bytes(v).unwrap()
}

#[test]
fn sddl_missing_acls() {
    let la = sid("S-1-5-21-1-2-3-500");
    let ao = sid("S-1-5-32-548");
    let empty = Acl::new_empty(AclRevision::ACL_REVISION);

    let sd = SecurityDescriptor::from_parts(Some(&la), Some(&ao), None, None);
    assert!(sd.dacl().is_none());
    assert!(sd.sacl().is_none());

    let sd = SecurityDescriptor::from_parts(Some(&la), Some(&ao), Some(&empty), None);
    assert!(sd.dacl().is_some());
    assert!(sd.sacl().is_none());

    let sd = SecurityDescriptor::from_parts(Some(&la), Some(&ao), None, Some(&empty));
    assert!(sd.dacl().is_none());
    assert!(sd.sacl().is_some());

    let sd = SecurityDescriptor::from_parts(Some(&la), Some(&ao), Some(&empty), Some(&empty));
    assert!(sd.dacl().is_some());
    assert!(sd.sacl().is_some());
    assert_eq!(sd.dacl().unwrap().len(), 0);
}

#[test]
fn descriptor_parts_read_back() {
    // Owner AO, group SY, a DACL granting GA to S-1-5-20-12345 and GR to
    // everyone, and a SACL auditing everyone.
    let owner = sid("S-1-5-32-548");
    let group = sid("S-1-5-18");
    let principal = sid("S-1-5-20-12345");
    let world = sid("S-1-1-0");
    let dacl = acl_with(&[
        Ace::new_plain(AceType::ACCESS_ALLOWED_ACE_TYPE, 0, GENERIC_ALL, &principal),
        Ace::new_plain(AceType::ACCESS_ALLOWED_ACE_TYPE, 0, GENERIC_READ, &world),
    ]);
    let sacl = acl_with(&[Ace::new_plain(AceType::SYSTEM_AUDIT_ACE_TYPE, 0, 0, &world)]);
    let sd = SecurityDescriptor::from_parts(Some(&owner), Some(&group), Some(&dacl), Some(&sacl));

    assert_eq!(sd.owner().unwrap(), owner);
    assert_eq!(sd.group().unwrap(), group);
    let d = sd.dacl().unwrap();
    assert_eq!(d.len(), 2);
    let first = d.get_ace(0).unwrap();
    assert_eq!(first.ace_type(), AceType::ACCESS_ALLOWED_ACE_TYPE);
    assert_eq!(first.mask(), GENERIC_ALL);
    assert_eq!(first.sid().unwrap().to_string_sid(), "S-1-5-20-12345");
    let s = sd.sacl().unwrap();
    assert_eq!(s.len(), 1);
    assert_eq!(s.get_ace(0).unwrap().ace_type(), AceType::SYSTEM_AUDIT_ACE_TYPE);
    assert_eq!(sd.control(), SE_SELF_RELATIVE | SE_DACL_PRESENT | SE_SACL_PRESENT);

    // The bytes are a descriptor again, with the same parts.
    let again = SecurityDescriptor::from_bytes(sd.as_bytes().to_vec()).unwrap();
    assert_eq!(again.owner().unwrap(), owner);
    assert_eq!(again.dacl().unwrap().as_bytes(), dacl.as_bytes());
    assert_eq!(again.sacl().unwrap().as_bytes(), sacl.as_bytes());
}

#[test]
fn descriptor_without_parts() {
    let sd = SecurityDescriptor::from_parts(None, None, None, None);
    assert!(sd.owner().is_none());
    assert!(sd.group().is_none());
    assert!(sd.dacl().is_none());
    assert!(sd.sacl().is_none());
    assert_eq!(sd.as_bytes().len(), 20);
    assert_eq!(sd.as_bytes()[0], 1);
}

#[test]
fn malformed_descriptors_are_refused() {
    let owner = sid("S-1-5-18");
    let sd = SecurityDescriptor::from_parts(Some(&owner), None, None, None);
    let good = sd.as_bytes().to_vec();
    assert!(SecurityDescriptor::from_bytes(good.clone()).is_some());

    // Not self-relative.
    let mut bad = good.clone();
    bad[3] = 0;
    assert!(SecurityDescriptor::from_bytes(bad).is_none());
    // Wrong revision.
    let mut bad = good.clone();
    bad[0] = 2;
    assert!(SecurityDescriptor::from_bytes(bad).is_none());
    // Owner offset past the end.
    let mut bad = good.clone();
    bad[4] = 200;
    assert!(SecurityDescriptor::from_bytes(bad).is_none());
    // Too short for the header.
    assert!(SecurityDescriptor::from_bytes(good[..19].to_vec()).is_none());
    // A DACL bit with an offset of zero means no DACL.
    let mut nulldacl = good.clone();
    nulldacl[2] |= SE_DACL_PRESENT as u8;
    let sd = SecurityDescriptor::from_bytes(nulldacl).unwrap();
    assert!(sd.dacl().is_none());
}

#[test]
fn information_bits_name_present_parts() {
    let s = sid("S-1-5-18");
    let a = Acl::new_empty(AclRevision::ACL_REVISION);
    assert_eq!(changed_information(None, None, None, None), 0);
    assert_eq!(
        changed_information(Some(&s), None, None, None),
        OWNER_SECURITY_INFORMATION
    );
    assert_eq!(
        changed_information(None, Some(&s), None, Some(&a)),
        GROUP_SECURITY_INFORMATION | SACL_SECURITY_INFORMATION
    );
    assert_eq!(changed_information(None, None, Some(&a), None), DACL_SECURITY_INFORMATION);
    assert_eq!(changed_information(Some(&s), Some(&s), Some(&a), Some(&a)), 0xF);
}

#[test]
fn sizing_steps() {
    assert_eq!(next_sizing_step(0, true, 0, &[256, 256], &[256, 256]), SizingStep::Decode);
    assert_eq!(next_sizing_step(0, false, 122, &[256, 256], &[300, 256]), SizingStep::Retry);
    assert_eq!(next_sizing_step(0, false, 1332, &[256, 256], &[256, 256]), SizingStep::Fail(1332));
    assert_eq!(next_sizing_step(4, false, 122, &[256, 256], &[256, 512]), SizingStep::GiveUp);
    assert_eq!(next_sizing_step(3, false, 122, &[256], &[512]), SizingStep::Retry);
}

#[test]
fn descriptor_exact_header() {
    let owner = sid("S-1-5-18");
    let empty = Acl::new_empty(AclRevision::ACL_REVISION);
    let sd = SecurityDescriptor::from_parts(Some(&owner), None, Some(&empty), None);
    let b = sd.as_bytes();
    assert_eq!(
        &b[..20],
        &[1, 0, 0x04, 0x80, 20, 0, 0, 0, 0, 0, 0, 0, 0, 0, 0, 0, 32, 0, 0, 0]
    );
    assert_eq!(&b[20..32], &owner.to_bytes()[..]);
    assert_eq!(&b[32..], empty.as_bytes());
}
