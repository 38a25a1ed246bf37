use batch_translator::models::{collect_ids, fetch_failure, model_ids, sort_texts, text_le};

fn names(v: &[&str]) -> Vec<String> {
    v.iter().map(|s| s.to_string()).collect()
}

fn json(text: &str) -> serde_json::Value {
    serde_json::from_str(text).unwrap()
}

#[test]
fn model_listing_is_sorted() {
    let listing = json("{\"data\":[{\"id\":\"b\"},{\"id\":\"a\"}]}");
    assert_eq!(model_ids(&listing), names(&["a", "b"]));
}

#[test]
fn bare_array_listing() {
    let listing = json("[{\"id\":\"zeta\"},{\"id\":\"alpha\"},{\"id\":\"mid\"}]");
    assert_eq!(model_ids(&listing), names(&["alpha", "mid", "zeta"]));
}

#[test]
fn entries_without_a_string_id_are_left_out() {
    let listing = json(
        "{\"data\":[{\"id\":\"b\"},{\"name\":\"x\"},{\"id\":7},{\"id\":null},\"c\",{\"id\":\"a\"}]}",
    );
    assert_eq!(model_ids(&listing), names(&["a", "b"]));
}

#[test]
fn listing_without_entries_is_empty() {
    assert_eq!(model_ids(&json("{}")), names(&[]));
    assert_eq!(model_ids(&json("{\"data\":[]}")), names(&[]));
    assert_eq!(model_ids(&json("[]")), names(&[]));
    assert_eq!(model_ids(&json("\"models\"")), names(&[]));
    assert_eq!(model_ids(&json("{\"models\":[{\"id\":\"a\"}]}")), names(&[]));
}

#[test]
fn data_that_is_no_array_hides_nothing_else() {
    // With a member `data` the listing is read from it alone.
    assert_eq!(model_ids(&json("{\"data\":{\"id\":\"a\"}}")), names(&[]));
    assert_eq!(model_ids(&json("{\"data\":null}")), names(&[]));
}

#[test]
fn duplicates_are_kept() {
    let listing = json("{\"data\":[{\"id\":\"m\"},{\"id\":\"a\"},{\"id\":\"m\"}]}");
    assert_eq!(model_ids(&listing), names(&["a", "m", "m"]));
}

#[test]
fn collect_ids_keeps_the_order_of_the_entries() {
    let listing = json("[{\"id\":\"b\"},{\"x\":1},{\"id\":\"a\"}]");
    assert_eq!(collect_ids(listing.as_array().unwrap()), names(&["b", "a"]));
}

#[test]
fn sort_texts_orders_like_std() {
    let samples = names(&[
        "model-4o", "model-4", "model-4-turbo", "MODEL", "", "large", "a", "ab", "aa", "Z", "é", "e",
        "\u{10000}", "\u{ffff}", "zz", "a", "10", "9",
    ]);
    let mut expected = samples.clone();
    expected.sort();
    assert_eq!(sort_texts(&samples), expected);
    assert_eq!(sort_texts(&names(&[])), names(&[]));
}

#[test]
fn text_le_is_the_order_of_strings() {
    let samples = ["", "a", "A", "ab", "b", "é", "\u{ffff}", "\u{10000}", "a\u{0}"];
    for x in samples {
        for y in samples {
            assert_eq!(text_le(x, y), x <= y, "{:?} {:?}", x, y);
        }
    }
}

#[test]
fn fetch_failure_names_the_status() {
    assert_eq!(fetch_failure("401 Unauthorized"), "Failed to fetch models: 401 Unauthorized");
}
