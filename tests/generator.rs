use downzer::combos::{
    drop_empty, expandable_lists, generate_combinations, parse_range, parse_wordlist, process_wordlists,
    MergeError, RangeError,
};

fn list(words: &[&str]) -> Vec<String> {
    words.iter().map(|w| w.to_string()).collect()
}

#[test]
fn literal_list_is_trimmed_and_drops_empties() {
    assert_eq!(parse_wordlist(" a , b,,c "), list(&["a", "b", "c"]));
    assert_eq!(parse_wordlist("+"), list(&["+"]));
    assert_eq!(parse_wordlist(" , "), Vec::<String>::new());
    assert_eq!(parse_wordlist(""), Vec::<String>::new());
}

#[test]
fn range_lists_every_number() {
    assert_eq!(parse_range("1-3"), Ok(list(&["1", "2", "3"])));
    assert_eq!(parse_range("0-0"), Ok(list(&["0"])));
    assert_eq!(parse_range("007-009"), Ok(list(&["7", "8", "9"])));
    assert_eq!(parse_range("98-101"), Ok(list(&["98", "99", "100", "101"])));
}

#[test]
fn range_errors() {
    assert_eq!(parse_range("5-3"), Err(RangeError::EndBeforeStart));
    assert_eq!(parse_range("abc"), Err(RangeError::InvalidFormat));
    assert_eq!(parse_range("1-"), Err(RangeError::InvalidFormat));
    assert_eq!(parse_range("-3"), Err(RangeError::InvalidFormat));
    assert_eq!(parse_range("1-2-3"), Err(RangeError::InvalidFormat));
    assert_eq!(parse_range(" 1-2"), Err(RangeError::InvalidFormat));
    assert_eq!(parse_range(""), Err(RangeError::InvalidFormat));
    assert_eq!(parse_range("99999999999999999999-1"), Err(RangeError::OutOfRange));
}

#[test]
fn plus_splices_neighbours() {
    let raw = vec![list(&["a"]), list(&["+"]), list(&["b", "c"]), list(&["x"])];
    assert_eq!(process_wordlists(&raw), Ok(vec![list(&["a", "b", "c"]), list(&["x"])]));
    let chain = vec![list(&["a"]), list(&["+"]), list(&["b"]), list(&["+"]), list(&["c"])];
    assert_eq!(process_wordlists(&chain), Ok(vec![list(&["a", "b", "c"])]));
    let plain = vec![list(&["a"]), list(&["b"])];
    assert_eq!(process_wordlists(&plain), Ok(plain.clone()));
}

#[test]
fn leading_or_dangling_plus_fails() {
    let leading = vec![list(&["+"]), list(&["a"])];
    assert_eq!(process_wordlists(&leading), Err(MergeError::DanglingPlus));
    let dangling = vec![list(&["a"]), list(&["+"])];
    assert_eq!(process_wordlists(&dangling), Err(MergeError::DanglingPlus));
    let after_merge = vec![list(&["a"]), list(&["+"]), list(&["b"]), list(&["+"])];
    assert_eq!(process_wordlists(&after_merge), Err(MergeError::DanglingPlus));
    let alone = vec![list(&["+"])];
    assert_eq!(process_wordlists(&alone), Err(MergeError::DanglingPlus));
}

#[test]
fn plus_as_operand_is_a_word() {
    let raw = vec![list(&["a"]), list(&["+"]), list(&["+"])];
    assert_eq!(process_wordlists(&raw), Ok(vec![list(&["a", "+"])]));
}

#[test]
fn parallel_wraps_shorter_lists() {
    let lists = vec![list(&["1", "2", "3"]), list(&["a", "b"])];
    let combos = generate_combinations(&lists, true, false);
    assert_eq!(
        combos,
        vec![list(&["1", "a"]), list(&["2", "b"]), list(&["3", "a"])]
    );
}

#[test]
fn parallel_count_follows_first_list() {
    let lists = vec![list(&["1", "2"]), list(&["a", "b", "c", "d"])];
    let combos = generate_combinations(&lists, true, false);
    assert_eq!(combos.len(), 2);
    assert_eq!(combos, vec![list(&["1", "a"]), list(&["2", "b"])]);
    let empty_first = vec![list(&[]), list(&["a"])];
    assert!(generate_combinations(&empty_first, true, false).is_empty());
}

#[test]
fn product_rightmost_varies_fastest() {
    let lists = vec![list(&["a", "b"]), list(&["1", "2", "3"])];
    let combos = generate_combinations(&lists, false, false);
    assert_eq!(
        combos,
        vec![
            list(&["a", "1"]),
            list(&["a", "2"]),
            list(&["a", "3"]),
            list(&["b", "1"]),
            list(&["b", "2"]),
            list(&["b", "3"]),
        ]
    );
}

#[test]
fn product_size_and_each_once() {
    let lists = vec![list(&["a", "b"]), list(&["1", "2", "3"]), list(&["x", "y"])];
    let combos = generate_combinations(&lists, false, false);
    assert_eq!(combos.len(), 2 * 3 * 2);
    let mut sorted = combos.clone();
    sorted.sort();
    sorted.dedup();
    assert_eq!(sorted.len(), combos.len());
}

#[test]
fn product_single_list_gives_singletons() {
    let lists = vec![list(&["a", "b"])];
    assert_eq!(generate_combinations(&lists, false, false), vec![list(&["a"]), list(&["b"])]);
}

#[test]
fn shuffle_keeps_the_same_combinations() {
    let lists = vec![list(&["a", "b", "c", "d"]), list(&["1", "2", "3", "4"])];
    let ordered = generate_combinations(&lists, false, false);
    let shuffled = generate_combinations(&lists, false, true);
    assert_eq!(shuffled.len(), ordered.len());
    let mut a = ordered.clone();
    let mut b = shuffled.clone();
    a.sort();
    b.sort();
    assert_eq!(a, b);
    let parallel = generate_combinations(&lists, true, true);
    let mut p = parallel.clone();
    p.sort();
    let mut q = generate_combinations(&lists, true, false);
    q.sort();
    assert_eq!(p, q);
}

#[test]
fn empty_words_are_dropped_in_order() {
    assert_eq!(drop_empty(list(&["", "b", "", "a", ""])), list(&["b", "a"]));
    assert_eq!(drop_empty(list(&[" "])), list(&[" "]));
    assert_eq!(drop_empty(Vec::new()), Vec::<String>::new());
}

#[test]
fn expandability_of_lists() {
    let no_lists: Vec<Vec<String>> = Vec::new();
    assert!(!expandable_lists(&no_lists, false));
    assert!(!expandable_lists(&no_lists, true));
    let with_empty = vec![list(&["a"]), list(&[])];
    assert!(expandable_lists(&with_empty, false));
    assert!(!expandable_lists(&with_empty, true));
    let empty_first = vec![list(&[]), list(&[])];
    assert!(expandable_lists(&empty_first, true));
    assert!(generate_combinations(&with_empty, false, false).is_empty());
}
