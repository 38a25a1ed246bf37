use batch_translator::store::LineStore;

fn owned(v: &[&str]) -> Vec<String> {
    v.iter().map(|s| s.to_string()).collect()
}

#[test]
fn from_content_builds_one_record_per_line() {
    let store = LineStore::from_content("0:::head\n1:::a\r\n2:::b\n");
    assert_eq!(store.len(), 3);
    assert_eq!(store.serialize(), owned(&["0:::head", "1:::a", "2:::b"]));
    assert_eq!(store.line(1), "1:::a");
}

#[test]
fn from_content_agrees_with_std_lines() {
    for content in ["", "\n", "a", "a\nb", "a\r\nb\r\n", "x\n\ny\n", "tail\r", "é\n\u{3000}\n"] {
        let expected: Vec<String> = content.lines().map(|s| s.to_string()).collect();
        assert_eq!(LineStore::from_content(content).serialize(), expected, "{:?}", content);
    }
}

#[test]
fn from_lines_keeps_the_lines() {
    let store = LineStore::from_lines(owned(&["a", "b"]));
    assert_eq!(store.len(), 2);
    assert_eq!(store.serialize(), owned(&["a", "b"]));
}

#[test]
fn header_is_a_first_line_that_starts_with_the_marker() {
    assert!(LineStore::from_content("0:::title\n1:::a").has_header());
    assert!(LineStore::from_content("0:::").has_header());
    assert!(!LineStore::from_content("1:::a\n0:::late").has_header());
    assert!(!LineStore::from_content(" 0:::indented").has_header());
    assert!(!LineStore::from_content("0::short").has_header());
    assert!(!LineStore::from_content("").has_header());
}

#[test]
fn first_work_line_skips_the_header() {
    assert_eq!(LineStore::from_content("0:::title\n1:::a").first_work_line(), 1);
    assert_eq!(LineStore::from_content("1:::a\n2:::b").first_work_line(), 0);
    assert_eq!(LineStore::from_content("").first_work_line(), 0);
}

#[test]
fn write_replaces_one_line() {
    let mut store = LineStore::from_lines(owned(&["a", "b", "c"]));
    store.write(1, "B".to_string());
    assert_eq!(store.serialize(), owned(&["a", "B", "c"]));
    assert_eq!(store.len(), 3);
}

#[test]
fn range_copies_consecutive_lines() {
    let store = LineStore::from_lines(owned(&["a", "b", "c", "d"]));
    assert_eq!(store.range(1, 3), owned(&["b", "c"]));
    assert_eq!(store.range(2, 2), owned(&[]));
    assert_eq!(store.range(0, 4), owned(&["a", "b", "c", "d"]));
}

#[test]
fn write_batch_replaces_the_batch_only() {
    let mut store = LineStore::from_lines(owned(&["h", "a", "b", "c", "d"]));
    store.write_batch(1, 2, &owned(&["A", "B"]));
    assert_eq!(store.serialize(), owned(&["h", "A", "B", "c", "d"]));
}

#[test]
fn write_batch_writes_no_more_lines_than_the_batch_has() {
    let mut store = LineStore::from_lines(owned(&["a", "b", "c", "d"]));
    store.write_batch(1, 2, &owned(&["B", "C", "X", "Y"]));
    assert_eq!(store.serialize(), owned(&["a", "B", "C", "d"]));
}

#[test]
fn write_batch_writes_no_more_lines_than_were_returned() {
    let mut store = LineStore::from_lines(owned(&["a", "b", "c", "d"]));
    store.write_batch(1, 3, &owned(&["B"]));
    assert_eq!(store.serialize(), owned(&["a", "B", "c", "d"]));
    store.write_batch(0, 4, &owned(&[]));
    assert_eq!(store.serialize(), owned(&["a", "B", "c", "d"]));
}

#[test]
fn render_ends_every_line_with_a_line_feed() {
    assert_eq!(LineStore::from_lines(owned(&["a", "b"])).render(), "a\nb\n");
    assert_eq!(LineStore::from_lines(owned(&[])).render(), "");
    assert_eq!(LineStore::from_lines(owned(&[""])).render(), "\n");
}

#[test]
fn render_then_load_gives_the_same_lines() {
    let lines = owned(&["0:::h", "1:::a", "", "2:::b"]);
    let text = LineStore::from_lines(lines.clone()).render();
    assert_eq!(LineStore::from_content(&text).serialize(), lines);
}
