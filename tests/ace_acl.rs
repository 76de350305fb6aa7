use windows_permissions::ace::Ace;
use windows_permissions::acl::Acl;
use windows_permissions::constants::{ACL_REVISION, ACL_REVISION_DS, ERROR_ALLOTTED_SPACE_EXCEEDED, AceType, AclRevision, CONTAINER_INHERIT_ACE, DELETE, FAILED_ACCESS_ACE_FLAG, FILE_ALL_ACCESS, FILE_GENERIC_EXECUTE, FILE_GENERIC_READ, FILE_GENERIC_WRITE, GENERIC_ALL, GENERIC_EXECUTE, GENERIC_READ, GENERIC_WRITE, INHERITED_ACE, INHERIT_ONLY_ACE, KEY_ALL_ACCESS, KEY_EXECUTE, KEY_READ, KEY_WRITE, NO_PROPAGATE_INHERIT_ACE, OBJECT_INHERIT_ACE, READ_CONTROL, SUCCESSFUL_ACCESS_ACE_FLAG, SYSTEM_MANDATORY_LABEL_NO_EXECUTE_UP, SYSTEM_MANDATORY_LABEL_NO_READ_UP, SYSTEM_MANDATORY_LABEL_NO_WRITE_UP, WRITE_DAC, WRITE_OWNER};
use windows_permissions::sd::SecurityDescriptor;
use windows_permissions::sid::Sid;

const GUID: [u8; 16] = [
    0x45, 0xc0, 0x34, 0xc4, 0x91, 0x9b, 0x04, 0x45, 0xa2, 0xa0, 0xae, 0xa9, 0xe7, 0x81, 0xec, 0x69,
];

fn sid(text: &str) -> Sid {
    Sid::from_string_sid(text).unwrap()
}

fn everyone() -> Sid {
    sid("S-1-1-0")
}

/// An entry of type `tag`: header, mask, then `body` (which holds the SID).
fn ace_bytes(tag: u8, flags: u8, mask: u32, body: &[u8]) -> Vec<u8> {
    let size = (8 + body.len()) as u16;
    let mut v = vec![tag, flags];
    v.extend(size.to_le_bytes());
    v.extend(mask.to_le_bytes());
    v.extend(body);
    v
}

fn object_body(presence: u32, s: &Sid) -> Vec<u8> {
    let mut v = presence.to_le_bytes().to_vec();
    if presence & 1 != 0 {
        v.extend(GUID);
    }
    if presence & 2 != 0 {
        v.extend(GUID);
    }
    v.extend(s.to_bytes());
    v
}

fn acl_bytes(revision: u8, aces: &[Vec<u8>]) -> Vec<u8> {
    let size: usize = 8 + aces.iter().map(|a| a.len()).sum::<usize>();
    let mut v = vec![revision, 0];
    v.extend((size as u16).to_le_bytes());
    v.extend((aces.len() as u16).to_le_bytes());
    v.extend([0, 0]);
    for a in aces {
        v.extend(a);
    }
    v
}

fn acl_of(aces: &[Vec<u8>]) -> Acl {
    Acl::from_bytes(acl_bytes(ACL_REVISION, aces)).unwrap()
}

fn test_sids() -> Vec<Sid> {
    let mut out = Vec::new();
    for id in [[0u8, 0, 0, 0, 0, 0], [0xff; 6], [0xc0, 0x00, 0x15, 0x1d, 0xab, 0xcd]] {
        for n in 1..=8u32 {
            let subs: Vec<u32> = (1..=n).collect();
            out.push(Sid::new(id, &subs).unwrap());
        }
    }
    out
}

#[test]
fn get_len() {
    let limit = 100;

    for dacl_count in 0..limit {
        let sacl_count = limit - dacl_count - 1;
        let allow = Ace::new_plain(AceType::ACCESS_ALLOWED_ACE_TYPE, 0, 0, &everyone());
        let audit = Ace::new_plain(AceType::SYSTEM_AUDIT_ACE_TYPE, 0, 0, &everyone());
        let dacl = acl_of(&vec![allow.as_bytes().to_vec(); dacl_count]);
        let sacl = acl_of(&vec![audit.as_bytes().to_vec(); sacl_count]);
        let sd = SecurityDescriptor::from_parts(None, None, Some(&dacl), Some(&sacl));

        assert_eq!(sd.dacl().unwrap().len(), dacl_count as u32);
        assert_eq!(sd.sacl().unwrap().len(), sacl_count as u32);
    }
}

#[test]
fn get_from_sddl() {
    let limit = 10;
    let aces: Vec<Vec<u8>> = (0..limit)
        .map(|i| {
            let s = sid(&format!("S-1-5-{}", i));
            Ace::new_plain(AceType::ACCESS_ALLOWED_ACE_TYPE, 0, 0, &s).as_bytes().to_vec()
        })
        .collect();
    let dacl = acl_of(&aces);

    for i in 0..limit {
        let ace = dacl.get_ace(i).unwrap();
        assert_eq!(ace.ace_type(), AceType::ACCESS_ALLOWED_ACE_TYPE);
        assert_eq!(ace.sid().unwrap(), sid(&format!("S-1-5-{}", i)));
    }

    assert!(dacl.get_ace(limit).is_none());
}

#[test]
fn standard_ace() {
    let access_rights = [
        0,
        GENERIC_ALL,
        GENERIC_READ,
        GENERIC_WRITE,
        GENERIC_EXECUTE,
        READ_CONTROL,
        DELETE,
        WRITE_DAC,
        WRITE_OWNER,
        FILE_ALL_ACCESS,
        FILE_GENERIC_READ,
        FILE_GENERIC_WRITE,
        FILE_GENERIC_EXECUTE,
        KEY_ALL_ACCESS,
        KEY_READ,
        KEY_WRITE,
        KEY_EXECUTE,
        GENERIC_READ | GENERIC_WRITE | READ_CONTROL | DELETE | WRITE_DAC,
    ];
    // (type, object entry, extra application data after the SID)
    let cases = [
        (AceType::ACCESS_ALLOWED_ACE_TYPE, false, false),
        (AceType::ACCESS_DENIED_ACE_TYPE, false, false),
        (AceType::SYSTEM_AUDIT_ACE_TYPE, false, false),
        (AceType::SYSTEM_AUDIT_CALLBACK_ACE_TYPE, false, true),
        (AceType::ACCESS_ALLOWED_CALLBACK_ACE_TYPE, false, true),
        (AceType::ACCESS_DENIED_CALLBACK_ACE_TYPE, false, true),
        (AceType::ACCESS_ALLOWED_OBJECT_ACE_TYPE, true, false),
        (AceType::ACCESS_DENIED_OBJECT_ACE_TYPE, true, false),
        (AceType::SYSTEM_AUDIT_OBJECT_ACE_TYPE, true, false),
        (AceType::ACCESS_ALLOWED_CALLBACK_OBJECT_ACE_TYPE, true, true),
    ];

    for (ace_type, object, callback) in cases.iter() {
        for mask in access_rights.iter() {
            for s in test_sids() {
                let mut body = if *object { object_body(1, &s) } else { s.to_bytes() };
                if *callback {
                    body.extend([0x61, 0x72, 0x74, 0x78]);
                }
                let acl = acl_of(&[ace_bytes(ace_type.as_raw(), 0, *mask, &body)]);

                assert_eq!(acl.len(), 1);

                let ace = acl.get_ace(0).unwrap();

                assert_eq!(ace.ace_type(), *ace_type);
                assert_eq!(ace.sid(), Some(s.copy()));
                assert_eq!(ace.mask(), *mask);
            }
        }
    }
}

#[test]
fn resource_attribute() {
    let mut body = everyone().to_bytes();
    body.extend([0x10, 0, 0, 0, 0x20, 0, 0, 0]);
    let ace = Ace::from_bytes(ace_bytes(0x12, 0, 0, &body)).unwrap();

    assert_eq!(ace.ace_type(), AceType::SYSTEM_RESOURCE_ATTRIBUTE_ACE_TYPE);
    assert_eq!(ace.mask(), 0);
    assert_eq!(ace.sid(), None);
}

#[test]
fn get_flags_dacl() {
    let test_cases = [
        (0u8, AceType::ACCESS_ALLOWED_ACE_TYPE),
        (0, AceType::SYSTEM_AUDIT_ACE_TYPE),
        (CONTAINER_INHERIT_ACE, AceType::ACCESS_ALLOWED_ACE_TYPE),
        (OBJECT_INHERIT_ACE, AceType::ACCESS_ALLOWED_ACE_TYPE),
        (NO_PROPAGATE_INHERIT_ACE, AceType::ACCESS_ALLOWED_ACE_TYPE),
        (INHERIT_ONLY_ACE, AceType::ACCESS_ALLOWED_ACE_TYPE),
        (INHERITED_ACE, AceType::ACCESS_ALLOWED_ACE_TYPE),
        (SUCCESSFUL_ACCESS_ACE_FLAG, AceType::SYSTEM_AUDIT_ACE_TYPE),
        (FAILED_ACCESS_ACE_FLAG, AceType::SYSTEM_AUDIT_ACE_TYPE),
        (
            CONTAINER_INHERIT_ACE
                | OBJECT_INHERIT_ACE
                | NO_PROPAGATE_INHERIT_ACE
                | INHERIT_ONLY_ACE
                | INHERITED_ACE,
            AceType::ACCESS_ALLOWED_ACE_TYPE,
        ),
        (
            SUCCESSFUL_ACCESS_ACE_FLAG | FAILED_ACCESS_ACE_FLAG,
            AceType::SYSTEM_AUDIT_ACE_TYPE,
        ),
    ];

    for (flag, ace_type) in test_cases.iter() {
        let ace = Ace::new_plain(*ace_type, *flag, 0, &everyone());
        let acl = acl_of(&[ace.as_bytes().to_vec()]);
        assert_eq!(acl.get_ace(0).unwrap().flags(), *flag);
    }
}

#[test]
fn mandatory_label() {
    let access_rights = [
        SYSTEM_MANDATORY_LABEL_NO_READ_UP,
        SYSTEM_MANDATORY_LABEL_NO_WRITE_UP,
        SYSTEM_MANDATORY_LABEL_NO_EXECUTE_UP,
    ];
    let labels = ["S-1-16-4096", "S-1-16-8192", "S-1-16-12288"];

    for label in labels.iter() {
        for mask in access_rights.iter() {
            let ace = Ace::new_plain(AceType::SYSTEM_MANDATORY_LABEL_ACE_TYPE, 0, *mask, &sid(label));
            let sacl = acl_of(&[ace.as_bytes().to_vec()]);
            let sd = SecurityDescriptor::from_parts(None, None, None, Some(&sacl));

            let ace = sd.sacl().unwrap().get_ace(0).unwrap();

            assert_eq!(ace.ace_type(), AceType::SYSTEM_MANDATORY_LABEL_ACE_TYPE);
            assert_eq!(ace.mask(), *mask);
            assert_eq!(ace.sid().unwrap(), sid(label));
        }
    }
}

#[test]
fn every_flag_letter_on_every_standard_type() {
    let all = CONTAINER_INHERIT_ACE
        | OBJECT_INHERIT_ACE
        | NO_PROPAGATE_INHERIT_ACE
        | INHERIT_ONLY_ACE
        | INHERITED_ACE
        | SUCCESSFUL_ACCESS_ACE_FLAG
        | FAILED_ACCESS_ACE_FLAG;
    assert_eq!(all, 0xDF);
    let s = everyone();
    for tag in [0u8, 1, 2, 5, 6, 7, 9, 0x0A, 0x0B, 0x0C, 0x0D, 0x0F, 0x11] {
        let t = AceType::from_raw(tag).unwrap();
        assert_eq!(t.as_raw(), tag);
        let body = if [5u8, 6, 7, 0x0B, 0x0C, 0x0F].contains(&tag) {
            object_body(0, &s)
        } else {
            s.to_bytes()
        };
        let ace = Ace::from_bytes(ace_bytes(tag, all, 0, &body)).unwrap();
        assert_eq!(ace.flags(), all);
        assert_eq!(ace.ace_type(), t);
        // An unrecognised bit is dropped.
        let ace = Ace::from_bytes(ace_bytes(tag, 0x20 | INHERITED_ACE, 0, &body)).unwrap();
        assert_eq!(ace.flags(), INHERITED_ACE);
    }
}

#[test]
fn object_entries_place_the_sid_after_present_guids() {
    let s = sid("S-1-5-21-7-8-9-1000");
    for presence in 0..4u32 {
        let body = object_body(presence, &s);
        let ace = Ace::from_bytes(ace_bytes(0x05, 0, GENERIC_READ, &body)).unwrap();
        assert_eq!(ace.size(), 12 + 16 * presence.count_ones() as usize + s.size());
        assert_eq!(ace.sid().unwrap(), s);
        assert_eq!(ace.mask(), GENERIC_READ);
    }
}

#[test]
fn malformed_entries_are_refused() {
    let s = everyone().to_bytes();
    // Unknown tag.
    assert!(Ace::from_bytes(ace_bytes(0x03, 0, 0, &s)).is_none());
    // Size field that disagrees with the length.
    let mut bad = ace_bytes(0x00, 0, 0, &s);
    bad[2] += 1;
    assert!(Ace::from_bytes(bad).is_none());
    // Truncated SID.
    assert!(Ace::from_bytes(ace_bytes(0x00, 0, 0, &s[..s.len() - 1])).is_none());
    // Object entry whose presence bits announce a GUID that is not there.
    let mut body = 1u32.to_le_bytes().to_vec();
    body.extend(everyone().to_bytes());
    assert!(Ace::from_bytes(ace_bytes(0x05, 0, 0, &body)).is_none());
    assert!(Ace::from_bytes(vec![0, 0, 4, 0]).is_none());
}

#[test]
fn acl_revision_and_validation() {
    let ace = Ace::new_plain(AceType::ACCESS_ALLOWED_ACE_TYPE, 0, 0, &everyone());
    let simple = Acl::from_bytes(acl_bytes(ACL_REVISION, &[ace.as_bytes().to_vec()])).unwrap();
    assert_eq!(simple.revision_level(), AclRevision::ACL_REVISION);
    let ds = Acl::from_bytes(acl_bytes(ACL_REVISION_DS, &[ace.as_bytes().to_vec()])).unwrap();
    assert_eq!(ds.revision_level(), AclRevision::ACL_REVISION_DS);
    assert!(Acl::from_bytes(acl_bytes(3, &[ace.as_bytes().to_vec()])).is_none());

    // Count larger than the entries present.
    let mut bad = acl_bytes(ACL_REVISION, &[ace.as_bytes().to_vec()]);
    bad[4] = 2;
    assert!(Acl::from_bytes(bad).is_none());

    let empty = Acl::new_empty(AclRevision::ACL_REVISION_DS);
    assert_eq!(empty.len(), 0);
    assert!(empty.get_ace(0).is_none());
    assert_eq!(empty.as_bytes(), &[4, 0, 8, 0, 0, 0, 0, 0]);
    assert_eq!(empty.size(), 8);
}

#[test]
fn acl_count_matches_successful_lookups() {
    for n in 0..20u32 {
        let aces: Vec<Vec<u8>> = (0..n)
            .map(|i| {
                Ace::new_plain(AceType::ACCESS_DENIED_ACE_TYPE, 0, i, &everyone())
                    .as_bytes()
                    .to_vec()
            })
            .collect();
        let acl = acl_of(&aces);
        let found = (0..acl.len()).filter(|i| acl.get_ace(*i).is_some()).count();
        assert_eq!(found as u32, acl.len());
        assert_eq!(acl.len(), n);
        assert!(acl.get_ace(acl.len()).is_none());
        for i in 0..n {
            assert_eq!(acl.get_ace(i).unwrap().mask(), i);
        }
    }
}

#[test]
fn ace_type_tags_decode() {
    assert_eq!(AceType::from_raw(0x11), Some(AceType::SYSTEM_MANDATORY_LABEL_ACE_TYPE));
    assert_eq!(AceType::from_raw(0x13), Some(AceType::SYSTEM_SCOPED_POLICY_ID_ACE_TYPE));
    assert_eq!(AceType::from_raw(0x03), None);
    assert_eq!(AceType::from_raw(0x14), None);
    let known = (0..=255u8).filter(|t| AceType::from_raw(*t).is_some()).count();
    assert_eq!(known, 15);
    assert_eq!(AclRevision::from_raw(2), Some(AclRevision::ACL_REVISION));
    assert_eq!(AclRevision::from_raw(4), Some(AclRevision::ACL_REVISION_DS));
    assert_eq!(AclRevision::from_raw(3), None);
}

#[test]
fn add_ace_inserts_at_index() {
    let mut acl = Acl::new_empty(AclRevision::ACL_REVISION);
    let e = everyone();
    let a0 = Ace::new_plain(AceType::ACCESS_ALLOWED_ACE_TYPE, 0, 1, &e);
    let a1 = Ace::new_plain(AceType::ACCESS_DENIED_ACE_TYPE, 0, 2, &e);
    let a2 = Ace::new_plain(AceType::ACCESS_ALLOWED_ACE_TYPE, 0, 3, &sid("S-1-5-18"));

    acl.add_ace(0, &a0).unwrap();
    acl.add_ace(u32::MAX, &a2).unwrap();
    acl.add_ace(1, &a1).unwrap();

    assert_eq!(acl.len(), 3);
    assert_eq!(acl.revision_level(), AclRevision::ACL_REVISION_DS);
    assert_eq!(acl.get_ace(0).unwrap().mask(), 1);
    assert_eq!(acl.get_ace(1).unwrap().mask(), 2);
    assert_eq!(acl.get_ace(1).unwrap().ace_type(), AceType::ACCESS_DENIED_ACE_TYPE);
    assert_eq!(acl.get_ace(2).unwrap().sid().unwrap(), sid("S-1-5-18"));
    assert!(acl.get_ace(3).is_none());
    assert_eq!(acl.size(), 8 + a0.size() + a1.size() + a2.size());

    // The bytes are a well-formed list again.
    let again = Acl::from_bytes(acl.as_bytes().to_vec()).unwrap();
    assert_eq!(again.len(), 3);
}

#[test]
fn add_ace_refuses_to_outgrow_the_size_field() {
    let mut acl = Acl::new_empty(AclRevision::ACL_REVISION);
    let big = Ace::new_plain(AceType::ACCESS_ALLOWED_ACE_TYPE, 0, 0, &sid("S-1-5-1-2-3-4-5-6-7-8-9-10-11-12-13-14-15"));
    let mut added = 0u32;
    loop {
        match acl.add_ace(added, &big) {
            Ok(()) => added += 1,
            Err(e) => {
                assert_eq!(e, ERROR_ALLOTTED_SPACE_EXCEEDED);
                break;
            }
        }
    }
    assert_eq!(acl.len(), added);
    assert!(acl.size() + big.size() > 0xffff);
    let before = acl.as_bytes().to_vec();
    assert!(acl.add_ace(0, &big).is_err());
    assert_eq!(acl.as_bytes(), &before[..]);
}

#[test]
fn plain_entry_exact_bytes() {
    let ace = Ace::new_plain(
        AceType::ACCESS_ALLOWED_ACE_TYPE,
        CONTAINER_INHERIT_ACE,
        FILE_ALL_ACCESS,
        &everyone(),
    );
    assert_eq!(
        ace.as_bytes(),
        &[0, 2, 20, 0, 0xFF, 0x01, 0x1F, 0, 1, 1, 0, 0, 0, 0, 0, 1, 0, 0, 0, 0]
    );
    assert_eq!(ace.size(), 20);
    assert_eq!(ace.flags(), CONTAINER_INHERIT_ACE);
    assert_eq!(ace.mask(), FILE_ALL_ACCESS);
    assert_eq!(ace.sid().unwrap(), everyone());
}

#[test]
fn add_ace_grows_by_the_entry() {
    let mut acl = Acl::new_empty(AclRevision::ACL_REVISION);
    let a = Ace::new_plain(AceType::ACCESS_ALLOWED_ACE_TYPE, 0, 1, &everyone());
    let before = acl.size();
    acl.add_ace(0, &a).unwrap();
    assert_eq!(acl.size(), before + a.size());
    acl.add_ace(1, &a).unwrap();
    assert_eq!(acl.size(), before + 2 * a.size());
}
