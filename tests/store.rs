use jotlog::{
    bump_score, get_joenal_root, insert_jot, mk_jot_id, mk_mapping_id, mk_tag_id, resolve_jot_id,
    JotDb, RawJot, StarDate, StoreError, Uuid,
};

fn device() -> Uuid {
    Uuid::from_bytes(*uuid::Uuid::parse_str("0b3c9a5e-7d41-4f2a-9c6e-1f2a3b4c5d6e").unwrap().as_bytes())
}

fn entry(content: &str, secs: i64, tags: &[&str]) -> RawJot {
    RawJot {
        content: content.to_string(),
        creation_date: StarDate::from_timestamp(secs, 0).unwrap(),
        tags: tags.iter().map(|t| t.to_string()).collect(),
    }
}

fn fresh(n: u8) -> Uuid {
    let mut b = [n; 16];
    b[6] = 0x40 | (n & 0x0f);
    Uuid::from_bytes(b)
}

#[test]
fn example_entry_is_stored() {
    let d = device();
    let mut db = JotDb::new();
    let jot = entry("hello world", 1_672_531_200, &["greeting", "test"]);
    let id = db.insert_entry(&jot, &d, fresh(1)).unwrap();
    assert_eq!(id, mk_jot_id(&get_joenal_root(&d), &jot));
    assert_eq!(db.jot_count(), 1);
    let row = db.jot(0);
    assert_eq!(row.id(), id);
    assert!(row.dup_id.is_none());
    assert_eq!(row.device_id, d);
    assert_eq!(row.jot_content, b"hello world".to_vec());
    assert_eq!(row.jot_content_type, "text/plain; charset=utf-8");
    assert_eq!(row.created().unwrap().timestamp(), 1_672_531_200);
    assert_eq!(db.tag_count(), 2);
    assert_eq!(db.tag(0).tag_text, "greeting");
    assert_eq!(db.tag(0).get_score(), 1);
    assert_eq!(db.tag(1).tag_text, "test");
    assert_eq!(db.tag(1).get_score(), 1);
    assert_eq!(db.get_score(&mk_tag_id("greeting")), Some(1));
    assert_eq!(db.get_score(&mk_tag_id("test")), Some(1));
    assert_eq!(db.mapping_count(), 2);
    let m = db.mapping(0);
    assert_eq!(m.mapping_id, mk_mapping_id(&id, &mk_tag_id("greeting")));
    assert_eq!(m.jot_id, id);
    assert_eq!(m.tag_id, mk_tag_id("greeting"));
    assert_eq!(db.mapping(1).mapping_id, mk_mapping_id(&id, &mk_tag_id("test")));
    assert!(db.jot_exists(&id));
    assert!(db.mapping_exists(&m.mapping_id));
}

#[test]
fn score_counts_distinct_jots() {
    let d = device();
    let mut db = JotDb::new();
    for n in 0..5u8 {
        let jot = entry(&format!("entry {}", n), 1_000 + n as i64, &["x", "other"]);
        db.insert_entry(&jot, &d, fresh(n)).unwrap();
        assert_eq!(db.get_score(&mk_tag_id("x")), Some(n as i32 + 1));
    }
    assert_eq!(db.get_score(&mk_tag_id("x")), Some(5));
    assert_eq!(db.get_score(&mk_tag_id("never")), None);
    assert_eq!(db.tag_count(), 2);
    assert_eq!(db.mapping_count(), 10);
}

#[test]
fn duplicate_entry_gets_marker() {
    let d = device();
    let mut db = JotDb::new();
    let jot = entry("same", 5_000, &["a"]);
    let first = db.insert_entry(&jot, &d, fresh(1)).unwrap();
    let second = db.insert_entry(&jot, &d, fresh(2)).unwrap();
    assert_eq!(db.jot_count(), 2);
    assert_ne!(first, second);
    assert_eq!(second, fresh(2));
    assert_eq!(db.jot(1).dup_id, Some(first));
    assert!(db.jot(0).dup_id.is_none());
    assert_eq!(db.get_score(&mk_tag_id("a")), Some(2));
}

#[test]
fn duplicate_entry_through_insert_jot() {
    let d = device();
    let mut db = JotDb::new();
    let jot = entry("twice", 7_000, &["t"]);
    let first = insert_jot(&mut db, &jot, &d).unwrap();
    let second = insert_jot(&mut db, &jot, &d).unwrap();
    assert_ne!(first, second);
    assert_eq!(second.bytes[6] >> 4, 4);
    assert_eq!(db.jot(1).dup_id, Some(first));
}

#[test]
fn taken_fresh_id_is_refused() {
    let d = device();
    let mut db = JotDb::new();
    let jot = entry("same", 5_000, &["a"]);
    let first = db.insert_entry(&jot, &d, fresh(1)).unwrap();
    assert_eq!(db.insert_entry(&jot, &d, first), Err(StoreError::DuplicateKey));
    assert_eq!(db.jot_count(), 1);
    assert_eq!(db.get_score(&mk_tag_id("a")), Some(1));
}

#[test]
fn failing_last_mapping_leaves_nothing() {
    let d = device();
    let mut db = JotDb::new();
    db.insert_entry(&entry("before", 10, &["a"]), &d, fresh(1)).unwrap();
    let bad = entry("after", 20, &["a", "b", "A"]);
    assert_eq!(db.insert_entry(&bad, &d, fresh(2)), Err(StoreError::DuplicateKey));
    assert_eq!(db.jot_count(), 1);
    assert_eq!(db.tag_count(), 1);
    assert_eq!(db.mapping_count(), 1);
    assert_eq!(db.get_score(&mk_tag_id("a")), Some(1));
    assert_eq!(db.get_score(&mk_tag_id("b")), None);
    let root = get_joenal_root(&d);
    assert!(!db.jot_exists(&mk_jot_id(&root, &bad)));
}

#[test]
fn same_mapping_is_not_stored_twice() {
    let d = device();
    let mut db = JotDb::new();
    let jot = entry("one", 30, &["dup", "dup"]);
    assert_eq!(db.insert_entry(&jot, &d, fresh(3)), Err(StoreError::DuplicateKey));
    assert_eq!(db.mapping_count(), 0);
    assert_eq!(db.jot_count(), 0);
    assert_eq!(db.tag_count(), 0);
}

#[test]
fn entry_without_tags() {
    let d = device();
    let mut db = JotDb::new();
    db.insert_entry(&entry("", 0, &[]), &d, fresh(4)).unwrap();
    assert_eq!(db.jot_count(), 1);
    assert_eq!(db.tag_count(), 0);
    assert_eq!(db.mapping_count(), 0);
}

#[test]
fn bump_score_steps() {
    assert_eq!(bump_score(None), Some(1));
    assert_eq!(bump_score(Some(1)), Some(2));
    assert_eq!(bump_score(Some(41)), Some(42));
    assert_eq!(bump_score(Some(i32::MAX)), None);
}

#[test]
fn resolve_jot_id_choices() {
    let derived = fresh(9);
    let other = fresh(8);
    let free = resolve_jot_id(derived, false, other);
    assert_eq!(free.jot_id, derived);
    assert_eq!(free.dup_id, None);
    let taken = resolve_jot_id(derived, true, other);
    assert_eq!(taken.jot_id, other);
    assert_eq!(taken.dup_id, Some(derived));
}
