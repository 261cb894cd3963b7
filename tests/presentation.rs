use jotlog::{
    get_device_id, resolve_selection, ConfigError, Item, Jot, JotCard, JotlogConfig, StarDate, Tag,
    Uuid,
};

fn jot(content: &[u8], date: Option<StarDate>) -> Jot {
    let id = Uuid::from_bytes([0xab; 16]);
    Jot::new(id, date, content.to_vec(), "text/plain; charset=utf-8".to_string(), id, None)
}

#[test]
fn jot_text_block() {
    let d = StarDate::from_timestamp(1_672_531_200, 0);
    let j = jot(b"hello\nworld", d);
    assert_eq!(
        j.to_text().unwrap(),
        "Jot: abababababababababababababababab\nCreated: 2023-01-01T00:00:00+00:00\n\nhello\nworld\n"
    );
    let n = jot(b"x", None);
    assert_eq!(n.to_text().unwrap(), "Jot: abababababababababababababababab\nCreated: No date\n\nx\n");
    assert!(jot(&[0xff, 0xfe], None).to_text().is_none());
}

#[test]
fn jot_button_label() {
    let d = StarDate::from_timestamp(1_672_531_200, 0);
    let j = jot(b"line one\nline two is rather long for a label", d);
    assert_eq!(j.button_label().unwrap(), "2023-01-01: line one line two is rather lo...");
    assert_eq!(jot(b"short", None).button_label().unwrap(), "<no date>: short...");
    assert!(jot(&[0xc3], None).button_label().is_none());
}

#[test]
fn button_label_cuts_bytes() {
    let wide = "é".repeat(40);
    let j = jot(wide.as_bytes(), None);
    assert_eq!(j.button_label().unwrap(), format!("<no date>: {}...", "é".repeat(15)));
    let odd = format!("a{}", wide);
    assert!(jot(odd.as_bytes(), None).button_label().is_none());
}

#[test]
fn tag_text_line() {
    let t = Tag::new("work".to_string(), Uuid::from_bytes([1; 16]), Uuid::from_bytes([2; 16]), None, 42);
    assert_eq!(t.to_text(), "work: 42");
    let n = Tag::new("x".to_string(), Uuid::from_bytes([1; 16]), Uuid::from_bytes([2; 16]), None, -7);
    assert_eq!(n.to_text(), "x: -7");
}

#[test]
fn jot_content_view() {
    let j = jot(b"abc", None);
    let c = j.content();
    assert_eq!(c.bytes, b"abc");
    assert_eq!(c.mime_type, "text/plain; charset=utf-8");
}

#[test]
fn item_selection() {
    let mut it = Item::new("label".to_string(), 2, 0);
    assert!(!it.is_current());
    assert_eq!(it.label(), "label");
    it.make_current();
    assert!(it.is_current());
    assert_eq!(it.2, 2);
}

#[test]
fn jot_card_selection() {
    let mut c = JotCard::new("card".to_string(), 3, 1);
    assert!(!c.is_current());
    c.make_current();
    assert!(c.is_current());
    assert_eq!(c.current(), 3);
    assert_eq!(c.index(), 3);
    assert_eq!(c.label(), "card");
}

#[test]
fn selection_follows_last_change() {
    assert_eq!(resolve_selection(1, &vec![1, 1, 1]), None);
    assert_eq!(resolve_selection(1, &vec![1, 4, 1]), Some(4));
    assert_eq!(resolve_selection(0, &vec![2, 0, 5]), Some(5));
    assert_eq!(resolve_selection(0, &vec![]), None);
}

#[test]
fn device_id_from_config() {
    let good = JotlogConfig {
        dev_id: "0b3c9a5e-7d41-4f2a-9c6e-1f2a3b4c5d6e".to_string(),
        db_file: "/tmp/x.sqlite".to_string(),
    };
    let id = get_device_id(&good).unwrap();
    assert_eq!(id.bytes[0], 0x0b);
    assert_eq!(id.bytes[15], 0x6e);
    let bad = JotlogConfig { dev_id: "not a uuid".to_string(), db_file: String::new() };
    assert_eq!(get_device_id(&bad), Err(ConfigError::MalformedDeviceId));
}
