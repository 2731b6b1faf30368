use downzer::resolve::{process_url_template, resolve_one};

fn list(words: &[&str]) -> Vec<String> {
    words.iter().map(|w| w.to_string()).collect()
}

#[test]
fn word_placeholders_take_their_positions() {
    let urls = process_url_template("http://x/FUZZW1/FUZZW2", vec![list(&["a", "b"])], None);
    assert_eq!(urls, list(&["http://x/a/b"]));
}

#[test]
fn range_placeholder_takes_first_word() {
    let urls = process_url_template("http://x/FUZZR", vec![list(&["5"])], None);
    assert_eq!(urls, list(&["http://x/5"]));
}

#[test]
fn every_occurrence_is_replaced() {
    assert_eq!(resolve_one("FUZZW1-FUZZW1.FUZZR", &list(&["q"])), "q-q.q");
    assert_eq!(resolve_one("no placeholders", &list(&["q"])), "no placeholders");
    assert_eq!(resolve_one("FUZZR", &list(&[])), "FUZZR");
}

#[test]
fn order_of_combinations_is_kept() {
    let combos = vec![list(&["c"]), list(&["a"]), list(&["b"])];
    let urls = process_url_template("u/FUZZW1", combos, None);
    assert_eq!(urls, list(&["u/c", "u/a", "u/b"]));
}

#[test]
fn exclusion_is_exact() {
    let combos = vec![list(&["a"]), list(&["b"]), list(&["A"]), list(&["a "])];
    let urls = process_url_template("http://x/FUZZW1", combos, Some("http://x/a"));
    assert_eq!(urls, list(&["http://x/b", "http://x/A", "http://x/a "]));
}

#[test]
fn exclusion_splits_on_comma_and_space() {
    let combos = vec![list(&["1"]), list(&["2"]), list(&["3"]), list(&["4"])];
    let urls = process_url_template("FUZZW1", combos, Some("1 2,,3"));
    assert_eq!(urls, list(&["4"]));
}

#[test]
fn no_combinations_no_targets() {
    assert!(process_url_template("FUZZW1", vec![], Some("x")).is_empty());
}
