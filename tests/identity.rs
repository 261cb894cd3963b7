use jotlog::{
    fmt_uuid, get_joenal_root, get_jotlog_root, mk_jot_id, mk_jot_ns_uuid, mk_mapping_id,
    mk_tag_id, RawJot, StarDate, Uuid,
};

fn ns() -> uuid::Uuid {
    uuid::Uuid::parse_str("930ccacb-5523-4be7-8045-f033465dae8f").unwrap()
}

fn device() -> Uuid {
    Uuid::from_bytes(*uuid::Uuid::parse_str("0b3c9a5e-7d41-4f2a-9c6e-1f2a3b4c5d6e").unwrap().as_bytes())
}

fn entry(content: &str, secs: i64, tags: &[&str]) -> RawJot {
    RawJot {
        content: content.to_string(),
        creation_date: StarDate::from_timestamp(secs, 0).unwrap(),
        tags: tags.iter().map(|t| t.to_string()).collect(),
    }
}

#[test]
fn namespace_matches_its_text_form() {
    let expected = uuid::Uuid::new_v5(&ns(), b"abc");
    assert_eq!(mk_jot_ns_uuid(b"abc").bytes, *expected.as_bytes());
}

#[test]
fn ns_uuid_is_version_five() {
    let u = mk_jot_ns_uuid(b"some name");
    assert_eq!(u.bytes[6] >> 4, 5);
    assert_ne!(u.bytes, mk_jot_ns_uuid(b"other name").bytes);
}

#[test]
fn fmt_uuid_gives_the_bytes() {
    let d = device();
    assert_eq!(fmt_uuid(d), d.bytes.to_vec());
}

#[test]
fn device_root_is_v5_of_device_bytes() {
    let d = device();
    let expected = uuid::Uuid::new_v5(&ns(), &d.bytes);
    assert_eq!(get_joenal_root(&d).bytes, *expected.as_bytes());
    assert_eq!(get_jotlog_root(&d.bytes).bytes, *expected.as_bytes());
}

#[test]
fn jot_id_of_example_entry() {
    let d = device();
    let jot = entry("hello world", 1_672_531_200, &["greeting", "test"]);
    let root = uuid::Uuid::new_v5(&ns(), &d.bytes);
    let expected = uuid::Uuid::new_v5(&root, b"hello world2023-01-01T00:00:00+00:00");
    let got = mk_jot_id(&get_joenal_root(&d), &jot);
    assert_eq!(got.bytes, *expected.as_bytes());
}

#[test]
fn jot_id_is_deterministic() {
    let d = device();
    let root = get_joenal_root(&d);
    let a = entry("same text", 1_000_000, &[]);
    let b = entry("same text", 1_000_000, &["other"]);
    assert_eq!(mk_jot_id(&root, &a), mk_jot_id(&root, &a));
    assert_eq!(mk_jot_id(&root, &a), mk_jot_id(&root, &b));
    let c = entry("same text", 1_000_001, &[]);
    assert_ne!(mk_jot_id(&root, &a), mk_jot_id(&root, &c));
    let padded = entry("  same text\n", 1_000_000, &[]);
    assert_eq!(mk_jot_id(&root, &a), mk_jot_id(&root, &padded));
    let e = entry("other text", 1_000_000, &[]);
    assert_ne!(mk_jot_id(&root, &a), mk_jot_id(&root, &e));
}

#[test]
fn tag_id_uses_canonical_text() {
    let foo = mk_tag_id("foo");
    assert_eq!(mk_tag_id("Foo"), foo);
    assert_eq!(mk_tag_id(" foo "), foo);
    assert_eq!(mk_tag_id("\tFOO\n"), foo);
    assert_eq!(foo.bytes, *uuid::Uuid::new_v5(&ns(), b"foo").as_bytes());
    assert_ne!(mk_tag_id("bar"), foo);
}

#[test]
fn mapping_id_is_v5_of_both_ids() {
    let j = mk_jot_ns_uuid(b"jot");
    let t = mk_tag_id("tag");
    let mut data = j.bytes.to_vec();
    data.extend_from_slice(&t.bytes);
    let expected = uuid::Uuid::new_v5(&ns(), &data);
    assert_eq!(mk_mapping_id(&j, &t).bytes, *expected.as_bytes());
    assert_eq!(mk_mapping_id(&j, &t), mk_mapping_id(&j, &t));
    assert_ne!(mk_mapping_id(&j, &t), mk_mapping_id(&t, &j));
    assert_eq!(mk_mapping_id(&j, &t).bytes[6] >> 4, 5);
    assert_eq!(t.bytes[6] >> 4, 5);
}

#[test]
fn rfc3339_of_timestamps() {
    let d = StarDate::from_timestamp(1_672_531_200, 0).unwrap();
    assert_eq!(d.to_rfc3339(), "2023-01-01T00:00:00+00:00");
    assert_eq!(d.timestamp(), 1_672_531_200);
    assert_eq!(d.subsec_nanos(), 0);
    let e = StarDate::from_timestamp(0, 500_000_000).unwrap();
    assert_eq!(e.to_rfc3339(), "1970-01-01T00:00:00.500+00:00");
}

#[test]
fn timestamps_before_the_epoch() {
    let d = StarDate::from_timestamp(-1_000_000_000, 0).unwrap();
    assert_eq!(d.to_rfc3339(), "1938-04-24T22:13:20+00:00");
}

#[test]
fn out_of_range_timestamp_is_refused() {
    assert!(StarDate::from_timestamp(i64::MAX, 0).is_none());
    assert!(StarDate::from_timestamp(0, 2_000_000_000).is_none());
}
