use batch_translator::reply::{delimiter_chars, reassemble, ReplyTable};
use batch_translator::text::{append_chars, same_text};

fn batch(v: &[&str]) -> Vec<String> {
    v.iter().map(|s| s.to_string()).collect()
}

fn key(s: &str) -> Vec<char> {
    s.chars().collect()
}

#[test]
fn identifier_round_trip() {
    let lines = batch(&["1:::Hello", "2:::World"]);
    let out = reassemble(&lines, "1:::Bonjour\n2:::Monde");
    assert_eq!(out, batch(&["1:::Bonjour", "2:::Monde"]));
}

#[test]
fn empty_reply_keeps_every_line() {
    let lines = batch(&["1:::Hello", "2:::World", "plain"]);
    assert_eq!(reassemble(&lines, ""), lines);
    assert_eq!(reassemble(&lines, "   \n\n  "), lines);
}

#[test]
fn omitted_identifiers_keep_their_lines() {
    let lines = batch(&["1:::Hello", "2:::World", "3:::Again"]);
    let out = reassemble(&lines, "2:::Monde");
    assert_eq!(out, batch(&["1:::Hello", "2:::Monde", "3:::Again"]));
}

#[test]
fn unknown_identifiers_are_ignored() {
    let lines = batch(&["1:::Hello", "2:::World"]);
    let out = reassemble(&lines, "7:::Sept\n1:::Bonjour\n99:::Rien");
    assert_eq!(out, batch(&["1:::Bonjour", "2:::World"]));
}

#[test]
fn of_duplicate_identifiers_the_last_wins() {
    let lines = batch(&["1:::Hello", "2:::World"]);
    let out = reassemble(&lines, "1:::Salut\n2:::Monde\n1:::Bonjour");
    assert_eq!(out, batch(&["1:::Bonjour", "2:::Monde"]));
}

#[test]
fn unstructured_reply_keeps_every_line() {
    let lines = batch(&["1:::Hello", "2:::World"]);
    let out = reassemble(&lines, "I am sorry, I cannot translate this.\n{\"oops\": 1}");
    assert_eq!(out, lines);
}

#[test]
fn reordered_reply_keeps_input_order() {
    let lines = batch(&["1:::Hello", "2:::World", "3:::!"]);
    let out = reassemble(&lines, "3:::?\n1:::Bonjour\n2:::Monde");
    assert_eq!(out, batch(&["1:::Bonjour", "2:::Monde", "3:::?"]));
}

#[test]
fn output_has_one_line_per_input_line() {
    let lines = batch(&["1:::a", "no id", "", "2:::b", "2:::c", ":::", "3"]);
    for reply in ["", "1:::x", "1:::x\n2:::y\n3:::z\n4:::w", "garbage", ":::\n:::", "\n\n\n"] {
        assert_eq!(reassemble(&lines, reply).len(), lines.len());
    }
    assert_eq!(reassemble(&batch(&[]), "1:::x"), batch(&[]));
}

#[test]
fn lines_without_identifier_pass_through() {
    let lines = batch(&["just text", "", "a::b"]);
    let out = reassemble(&lines, "just text:::nope\n:::empty");
    assert_eq!(out, lines);
}

#[test]
fn identifiers_and_translations_are_trimmed() {
    let lines = batch(&[" 1 :::Hello", "2:::World"]);
    let out = reassemble(&lines, "  1  :::  Bonjour  \r\n 2:::Monde \r\n");
    assert_eq!(out, batch(&["1:::Bonjour", "2:::Monde"]));
}

#[test]
fn translation_may_hold_the_delimiter() {
    let lines = batch(&["1:::a:::b"]);
    let out = reassemble(&lines, "1:::x:::y");
    assert_eq!(out, batch(&["1:::x:::y"]));
}

#[test]
fn lines_that_share_an_identifier_get_the_same_answer() {
    let lines = batch(&["1:::Hello", "1:::World"]);
    let out = reassemble(&lines, "1:::Bonjour");
    assert_eq!(out, batch(&["1:::Bonjour", "1:::Bonjour"]));
}

#[test]
fn empty_identifier_can_be_answered() {
    let lines = batch(&[":::Hello"]);
    let out = reassemble(&lines, ":::Bonjour");
    assert_eq!(out, batch(&[":::Bonjour"]));
}

#[test]
fn empty_translation_replaces_the_text() {
    let lines = batch(&["1:::Hello"]);
    let out = reassemble(&lines, "1:::");
    assert_eq!(out, batch(&["1:::"]));
}

#[test]
fn reply_table_looks_up_by_trimmed_identifier() {
    let table = ReplyTable::parse("1:::one\n 2 ::: two \nnoise\n1:::uno");
    assert_eq!(table.get(&key("1")), Some(key("uno")));
    assert_eq!(table.get(&key("2")), Some(key("two")));
    assert_eq!(table.get(&key(" 2 ")), None);
    assert_eq!(table.get(&key("3")), None);
    assert_eq!(table.get(&key("noise")), None);
}

#[test]
fn reply_table_applies_to_single_lines() {
    let table = ReplyTable::parse("1:::uno");
    assert_eq!(table.apply(&"1:::one".to_string()), "1:::uno");
    assert_eq!(table.apply(&"\t1 :::one".to_string()), "1:::uno");
    assert_eq!(table.apply(&"2:::two".to_string()), "2:::two");
    assert_eq!(table.apply(&"one".to_string()), "one");
}

#[test]
fn same_text_compares_contents() {
    assert!(same_text(&key("abc"), &key("abc")));
    assert!(!same_text(&key("abc"), &key("abd")));
    assert!(!same_text(&key("abc"), &key("ab")));
    assert!(same_text(&key(""), &key("")));
}

#[test]
fn append_chars_appends() {
    let mut v = key("ab");
    append_chars(&mut v, &key("cd"));
    assert_eq!(v, key("abcd"));
    append_chars(&mut v, &key(""));
    assert_eq!(v, key("abcd"));
}

#[test]
fn delimiter_is_three_colons() {
    assert_eq!(delimiter_chars(), key(":::"));
}
