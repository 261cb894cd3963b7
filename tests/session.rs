use jotlog::{
    get_joenal_root, mk_jot_id, mk_mapping_id, mk_tag_id, Event, InsertSession, Phase, RawJot,
    StarDate, Step, StoreError, Uuid,
};

fn device() -> Uuid {
    Uuid::from_bytes([7; 16])
}

fn entry(tags: &[&str]) -> RawJot {
    RawJot {
        content: "hello world".to_string(),
        creation_date: StarDate::from_timestamp(1_672_531_200, 0).unwrap(),
        tags: tags.iter().map(|t| t.to_string()).collect(),
    }
}

#[test]
fn session_walks_through_an_entry() {
    let jot = entry(&["greeting", "test"]);
    let derived = mk_jot_id(&get_joenal_root(&device()), &jot);
    let mut s = InsertSession::new(jot, device(), Uuid::from_bytes([4; 16]));
    assert!(matches!(s.next(Event::Begin), Step::CheckJot(id) if id == derived));
    let row = match s.next(Event::Exists(false)) {
        Step::InsertJot(row) => row,
        other => panic!("unexpected {:?}", other),
    };
    assert_eq!(row.jot_id, derived);
    assert!(row.dup_id.is_none());
    assert!(matches!(s.next(Event::Written), Step::ReadScore(id) if id == mk_tag_id("greeting")));
    match s.next(Event::Score(None)) {
        Step::InsertTag(t) => {
            assert_eq!(t.tag_text, "greeting");
            assert_eq!(t.score, 1);
        }
        other => panic!("unexpected {:?}", other),
    }
    match s.next(Event::Written) {
        Step::InsertMapping(m) => assert_eq!(m.mapping_id, mk_mapping_id(&derived, &mk_tag_id("greeting"))),
        other => panic!("unexpected {:?}", other),
    }
    assert!(matches!(s.next(Event::Written), Step::ReadScore(id) if id == mk_tag_id("test")));
    assert!(matches!(s.next(Event::Score(Some(4))), Step::UpdateScore(id, 5) if id == mk_tag_id("test")));
    assert!(matches!(s.next(Event::Written), Step::InsertMapping(_)));
    assert!(matches!(s.next(Event::Written), Step::Commit));
    assert_eq!(s.phase, Phase::Finished);
}

#[test]
fn session_uses_fresh_id_when_taken() {
    let jot = entry(&[]);
    let derived = mk_jot_id(&get_joenal_root(&device()), &jot);
    let fresh = Uuid::from_bytes([4; 16]);
    let mut s = InsertSession::new(jot, device(), fresh);
    s.next(Event::Begin);
    match s.next(Event::Exists(true)) {
        Step::InsertJot(row) => {
            assert_eq!(row.jot_id, fresh);
            assert_eq!(row.dup_id, Some(derived));
        }
        other => panic!("unexpected {:?}", other),
    }
    assert!(matches!(s.next(Event::Written), Step::Commit));
}

#[test]
fn session_rolls_back() {
    let mut s = InsertSession::new(entry(&["x"]), device(), Uuid::from_bytes([4; 16]));
    s.next(Event::Begin);
    s.next(Event::Exists(false));
    s.next(Event::Written);
    assert!(matches!(s.next(Event::Score(Some(i32::MAX))), Step::Rollback(StoreError::ScoreOverflow)));

    let mut t = InsertSession::new(entry(&["x"]), device(), Uuid::from_bytes([4; 16]));
    t.next(Event::Begin);
    assert!(matches!(t.next(Event::Failed(StoreError::DuplicateKey)), Step::Rollback(StoreError::DuplicateKey)));

    let mut u = InsertSession::new(entry(&["x"]), device(), Uuid::from_bytes([4; 16]));
    assert!(matches!(u.next(Event::Written), Step::Rollback(StoreError::OutOfOrder)));
}
