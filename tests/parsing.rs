use jotlog::{collect_tags, compose_content, parse_lawg, parse_tags, LawgError};

fn strings(v: &[&str]) -> Vec<String> {
    v.iter().map(|s| s.to_string()).collect()
}

#[test]
fn parse_tags_sorts_and_dedups() {
    assert_eq!(parse_tags(" Foo, bar,,foo , Baz "), strings(&["bar", "baz", "foo"]));
    assert_eq!(parse_tags("one"), strings(&["one"]));
    assert_eq!(parse_tags("two words, Two Words"), strings(&["two words"]));
}

#[test]
fn parse_tags_of_blank_line() {
    assert!(parse_tags("").is_empty());
    assert!(parse_tags(" , ,\n").is_empty());
}

#[test]
fn parse_lawg_reads_entries() {
    let log = "%%START%%\n2023-01-01 00:00:00\n%%TAGS%% Greeting, test\nhello\nworld\n%%END%%\n%%START%%\nsecond\n%%END%%\n";
    let jots = parse_lawg(log);
    assert_eq!(jots.len(), 2);
    let a = jots[0].as_ref().unwrap();
    assert_eq!(a.content, "hello\nworld");
    assert_eq!(a.creation_date.timestamp(), 1_672_531_200);
    assert_eq!(a.tags, strings(&["greeting", "test"]));
    let b = jots[1].as_ref().unwrap();
    assert_eq!(b.content, "second");
    assert_eq!(b.creation_date.timestamp(), 1_672_531_200);
    assert!(b.tags.is_empty());
}

#[test]
fn parse_lawg_default_date_and_crlf() {
    let log = "%%START%%\r\nonly text\r\n%%END%%";
    let jots = parse_lawg(log);
    assert_eq!(jots.len(), 1);
    let a = jots[0].as_ref().unwrap();
    assert_eq!(a.content, "only text");
    assert_eq!(a.creation_date.to_rfc3339(), "1973-07-13T00:00:00+00:00");
}

#[test]
fn parse_lawg_reports_bad_date() {
    let log = "%%START%%\n2023-13-45 99:00:00\nbad\n%%END%%\n%%START%%\n2020-02-29 12:30:00\ngood\n%%END%%\n";
    let jots = parse_lawg(log);
    assert_eq!(jots.len(), 2);
    assert_eq!(jots[0].as_ref().unwrap_err(), &LawgError { line: 2 });
    let b = jots[1].as_ref().unwrap();
    assert_eq!(b.content, "good");
    assert_eq!(b.creation_date.to_rfc3339(), "2020-02-29T12:30:00+00:00");
}

#[test]
fn parse_lawg_of_empty_log() {
    assert!(parse_lawg("").is_empty());
    assert!(parse_lawg("no markers at all\n").is_empty());
}

#[test]
fn collect_tags_from_both_sources() {
    let cli = strings(&[" Work ", "", "home"]);
    assert_eq!(collect_tags(&cli, Some("b, A\n")), strings(&["work", "home", "a", "b"]));
    assert_eq!(collect_tags(&cli, None), strings(&["work", "home"]));
}

#[test]
fn collect_tags_drops_repeats() {
    let cli = strings(&["a", " A", "b", "a "]);
    assert_eq!(collect_tags(&cli, Some("b, c, A")), strings(&["a", "b", "c"]));
    assert_eq!(collect_tags(&Vec::new(), Some("z, y, z")), strings(&["y", "z"]));
}

#[test]
fn collect_tags_defaults_to_untagged() {
    assert_eq!(collect_tags(&Vec::new(), None), strings(&["untagged"]));
    assert_eq!(collect_tags(&strings(&["  "]), Some(" , ")), strings(&["untagged"]));
}

#[test]
fn compose_content_with_and_without_message() {
    assert_eq!(compose_content(None, "  typed text \n"), "typed text");
    assert_eq!(compose_content(Some(" note "), "\nbody\n"), "note\n\nbody");
    assert_eq!(compose_content(Some("only message"), ""), "only message");
}
