use std::collections::hash_map::DefaultHasher;
use std::hash::{Hash, Hasher};

use windows_permissions::sid::{Sid, SidError};

const ID_AUTHS: [[u8; 6]; 4] = [
    [0, 0, 0, 0, 0, 0],
    [0xff, 0xff, 0xff, 0xff, 0xff, 0xff],
    [0xba, 0xd5, 0x1d, 0xba, 0xd5, 0x1d],
    [0xc0, 0x00, 0x15, 0x1d, 0xab, 0xcd],
];

const SUB_AUTHS: [[u32; 8]; 3] = [
    [0, 0, 0, 0, 0, 0, 0, 0],
    [
        0xffffffff, 0xffffffff, 0xffffffff, 0xffffffff, 0xffffffff, 0xffffffff, 0xffffffff,
        0xffffffff,
    ],
    [1, 2, 3, 4, 5, 6, 7, 8],
];

fn test_sids() -> Vec<(Sid, [u8; 6], Vec<u32>)> {
    let mut out = Vec::new();
    for id in ID_AUTHS.iter() {
        for sa in SUB_AUTHS.iter() {
            for sa_len in 1..=8 {
                let chopped = sa[..sa_len].to_vec();
                out.push((Sid::new(*id, &chopped).unwrap(), *id, chopped));
            }
        }
    }
    out
}

fn hash_of(s: &Sid) -> u64 {
    let mut h = DefaultHasher::new();
    s.hash(&mut h);
    h.finish()
}

#[test]
fn create_and_read_sids() {
    for (sid, id_auth, sub_auths) in test_sids() {
        assert_eq!(sid.id_authority(), id_auth);
        assert_eq!(sid.sub_authority_count() as usize, sub_auths.len());

        for i in 0..sub_auths.len() {
            assert_eq!(sid.sub_authority(i as u8), Some(sub_auths[i]));
        }
    }
}

#[test]
fn construct_and_read_sids() {
    for (sid, id, sa) in test_sids() {
        assert_eq!(id, sid.id_authority());
        assert_eq!(sa.len() as u8, sid.sub_authority_count());

        for index in 0..sa.len() {
            assert_eq!(Some(sa[index]), sid.sub_authority(index as u8));
        }

        assert_eq!(None, sid.sub_authority(sa.len() as u8));
    }
}

#[test]
fn constructed_sids_string_roundtrip() {
    for (sid, _, _) in test_sids() {
        let string_sid = sid.to_string_sid();
        let sid_rt = Sid::from_string_sid(&string_sid).unwrap();
        assert!(sid.equal(&sid_rt));
    }
}

#[test]
fn sids_copy() {
    for (sid, _, _) in test_sids() {
        let copied = sid.copy();
        assert!(sid.equal(&copied));
    }
}

#[test]
fn constructed_sids_are_valid() {
    for (sid, _, _) in test_sids() {
        let bytes = sid.to_bytes();
        let back = Sid::parse_at(&bytes, 0).unwrap();
        assert_eq!(back, sid);
    }
}

#[test]
fn wrong_num_sub_auths() {
    let id_auth = [0xBAu8, 0xD5, 0x1D, 0xBA, 0xD5, 0x1D];

    assert_eq!(
        Sid::new(id_auth.clone(), &[]).unwrap_err(),
        SidError::InvalidInput
    );
}

#[test]
fn example_sid_lens() {
    for count in 0..std::u8::MAX {
        assert_eq!(Sid::length_required(count), 8 + 4 * count as usize);
    }
}

#[test]
fn new_sid_reads_back_its_parts() {
    let sid = Sid::new([1, 2, 3, 4, 5, 6], &[1, 2, 3, 4, 5, 6, 7, 8]).unwrap();
    assert_eq!(sid.id_authority(), [1, 2, 3, 4, 5, 6]);
    assert_eq!(sid.sub_authority_count(), 8);
    assert_eq!(sid.sub_authority(7), Some(8));
    assert_eq!(sid.sub_authority(8), None);
    assert_eq!(sid.sub_authorities(), vec![1, 2, 3, 4, 5, 6, 7, 8]);
    assert_eq!(sid.size(), 40);
}

#[test]
fn new_sid_rejects_nine_sub_authorities() {
    let r = Sid::new([1, 2, 3, 4, 5, 6], &[1, 2, 3, 4, 5, 6, 7, 8, 9]);
    assert_eq!(r.unwrap_err(), SidError::Os(87));
}

#[test]
fn id_authority_as_number() {
    assert_eq!(
        Sid::id_auth_to_number([0x12, 0x34, 0x56, 0x78, 0x9A, 0xBC]),
        0x123456789ABCu64
    );
    assert_eq!(Sid::id_auth_to_number([0, 0, 0, 0, 0, 5]), 5);
    assert_eq!(Sid::id_auth_to_number([1, 0, 0, 0, 0, 0]), 1u64 << 40);
}

#[test]
fn world_sid_text() {
    let world = Sid::new([0, 0, 0, 0, 0, 1], &[0]).unwrap();
    assert_eq!(world.to_string_sid(), "S-1-1-0");
    assert_eq!(Sid::from_string_sid("S-1-1-0").unwrap(), world);
    assert_eq!(world.to_text(), b"S-1-1-0".to_vec());
}

#[test]
fn string_sid_decimal_and_hex_authorities() {
    let sid1 = Sid::from_string_sid("S-1-5-12-62341").unwrap();
    assert_eq!(sid1.id_authority(), [0, 0, 0, 0, 0, 5]);
    assert_eq!(sid1.sub_authority(0), Some(12));
    assert_eq!(sid1.sub_authority(1), Some(62341));
    assert_eq!(sid1.sub_authority(2), None);

    let sid2 = Sid::from_string_sid("S-1-211111900160837-1").unwrap();
    assert_eq!(sid2.id_authority(), [0xC0, 0x01, 0x51, 0xD1, 0x23, 0x45]);
    assert_eq!(sid2.to_string_sid(), "S-1-0xC00151D12345-1");
    assert_eq!(Sid::from_string_sid("S-1-0xC00151D12345-1").unwrap(), sid2);
}

#[test]
fn string_sid_sub_authority_counts() {
    let sid1 = Sid::from_string_sid("S-1-5-1").unwrap();
    let sid2 = Sid::from_string_sid("S-1-5-1-2-3-4-5-6-7-8-9-10-11-12-13-14-15").unwrap();
    assert_eq!(sid1.sub_authority_count(), 1);
    assert_eq!(sid2.sub_authority_count(), 15);
    assert_eq!(
        Sid::from_string_sid("S-1-5-1-2-3-4-5-6-7-8-9-10-11-12-13-14-15-16").unwrap_err(),
        SidError::Os(1337)
    );
    let bare = Sid::from_string_sid("S-1-5").unwrap();
    assert_eq!(bare.sub_authority_count(), 0);
    assert_eq!(bare.to_string_sid(), "S-1-5");
}

#[test]
fn string_sid_rejects_malformed_text() {
    for text in [
        "", "S", "S-1-", "S-2-5-1", "s-1-5-1", "S-1-5-", "S-1-5--1", "S-1-5-1-", "S-1-x-1",
        "S-1-5-4294967296", "S-1-281474976710656-1", "S-1-0x12-1", "S-1-0xc00151d12345-1",
    ] {
        assert_eq!(Sid::from_string_sid(text).unwrap_err(), SidError::Os(1337), "{}", text);
    }
    assert_eq!(
        Sid::from_string_sid("S-1-5-4294967295").unwrap().sub_authority(0),
        Some(4294967295)
    );
}

#[test]
fn sid_byte_layout() {
    let sid = Sid::from_string_sid("S-1-5-32-544").unwrap();
    assert_eq!(
        sid.to_bytes(),
        vec![1, 2, 0, 0, 0, 0, 0, 5, 32, 0, 0, 0, 0x20, 0x02, 0, 0]
    );
    let mut buf = vec![0xEE, 0xEE, 0xEE];
    buf.extend(sid.to_bytes());
    assert_eq!(Sid::parse_at(&buf, 3).unwrap(), sid);
    assert!(Sid::parse_at(&buf, 2).is_none());
    assert!(Sid::parse_at(&buf[..buf.len() - 1], 3).is_none());
    assert!(Sid::parse_at(&buf, 100).is_none());
}

#[test]
fn equal_sids_hash_alike() {
    let a = Sid::from_string_sid("S-1-5-21-1-2-3-500").unwrap();
    let b = Sid::new([0, 0, 0, 0, 0, 5], &[21, 1, 2, 3, 500]).unwrap();
    let c = b.copy();
    assert!(a.equal(&a));
    assert!(a.equal(&b) && b.equal(&c) && a.equal(&c));
    assert_eq!(hash_of(&a), hash_of(&b));
    let d = Sid::new([0, 0, 0, 0, 0, 5], &[21, 1, 2, 3, 501]).unwrap();
    assert!(!a.equal(&d));
    assert_ne!(a, d);
}

#[test]
fn sid_from_parts_caps_sub_authorities() {
    assert!(Sid::from_parts([0, 0, 0, 0, 0, 5], vec![1; 15]).is_some());
    assert!(Sid::from_parts([0, 0, 0, 0, 0, 5], vec![1; 16]).is_none());
    assert_eq!(Sid::from_parts([0; 6], vec![]).unwrap().size(), 8);
}

#[test]
fn one_to_eight_sub_authorities_succeed() {
    for n in 1..=8usize {
        let subs: Vec<u32> = (0..n as u32).collect();
        let sid = Sid::new([0, 0, 0, 0, 0, 9], &subs).unwrap();
        assert_eq!(sid.sub_authorities(), subs);
    }
}
