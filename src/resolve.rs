//! The target resolver: instantiates a template once per combination and
//! drops the targets named in an exclusion list.
use vstd::prelude::*;

use crate::combos::{drop_empty, non_empty, table_of, WordTable, Words, words_of};
use crate::text::{
    decimal, decimal_string, replace_all, replace_str, split_pieces, split_str, str_eq, Separators,
};

verus! {

/// The placeholder of the word at 1-based position `i`: `FUZZW{i}`.
pub open spec fn placeholder(i: nat) -> Seq<char> {
    "FUZZW"@ + decimal(i)
}

/// The template after the placeholders of the first `k` positions have been
/// replaced by their words.
pub open spec fn substitute_words(t: Seq<char>, combo: Words, k: nat) -> Seq<char>
    decreases k,
{
    if k == 0 {
        t
    } else {
        replace_all(substitute_words(t, combo, (k - 1) as nat), placeholder(k), combo[k - 1])
    }
}

/// The target of one combination: every `FUZZW{i}` replaced by the word at
/// position `i`, then `FUZZR` by the first word.
pub open spec fn resolve_target(t: Seq<char>, combo: Words) -> Seq<char> {
    let s = substitute_words(t, combo, combo.len());
    if combo.len() > 0 {
        replace_all(s, "FUZZR"@, combo[0])
    } else {
        s
    }
}

/// The exact strings an exclusion text names: its pieces between commas or
/// spaces, empty pieces dropped.
pub open spec fn exclusion_words(e: Seq<char>) -> Words {
    non_empty(split_pieces(e, Separators::CommaOrSpace))
}

/// The targets of the combinations, in order, less those named exactly in
/// `excluded`.
pub open spec fn kept_targets(t: Seq<char>, combos: WordTable, excluded: Words) -> Words
    decreases combos.len(),
{
    if combos.len() == 0 {
        Seq::empty()
    } else {
        let prev = kept_targets(t, combos.drop_last(), excluded);
        let u = resolve_target(t, combos.last());
        if excluded.contains(u) {
            prev
        } else {
            prev.push(u)
        }
    }
}

/// The exclusion words of an optional exclusion text.
pub open spec fn exclusion_of(e: Option<&str>) -> Words {
    match e {
        Some(s) => exclusion_words(s@),
        None => Seq::empty(),
    }
}

/// The exclusion words of `e`.
fn exclusion_list(e: &str) -> (r: Vec<String>)
    ensures
        words_of(r@) == exclusion_words(e@),
{
    let pieces = split_str(e, Separators::CommaOrSpace);
    drop_empty(pieces)
}

/// Whether `u` is one of `words`.
fn listed(words: &Vec<String>, u: &str) -> (r: bool)
    ensures
        r == words_of(words@).contains(u@),
{
    let mut i: usize = 0;
    while i < words.len()
        invariant
            i <= words@.len(),
            forall|k: int| 0 <= k < i ==> words@[k]@ != u@,
        decreases words@.len() - i,
    {
        if str_eq(words[i].as_str(), u) {
            assert(words_of(words@)[i as int] == u@);
            return true;
        }
        i = i + 1;
    }
    proof {
        if words_of(words@).contains(u@) {
            let k = choose|k: int| 0 <= k < words_of(words@).len() && words_of(words@)[k] == u@;
            assert(words@[k]@ == u@);
        }
    }
    false
}

/// The placeholder `FUZZW{i}`.
fn placeholder_string(i: u64) -> (r: String)
    ensures
        r@ == placeholder(i as nat),
        r@.len() > 0,
{
    proof {
        reveal_strlit("FUZZW");
    }
    let mut r = String::from_str("FUZZW");
    let d = decimal_string(i);
    r.append(d.as_str());
    r
}

/// The target of one combination.
pub fn resolve_one(template: &str, combo: &Vec<String>) -> (r: String)
    ensures
        r@ == resolve_target(template@, words_of(combo@)),
{
    let ghost c = words_of(combo@);
    let mut url = String::from_str(template);
    let mut i: usize = 0;
    while i < combo.len()
        invariant
            c == words_of(combo@),
            i <= combo@.len(),
            url@ == substitute_words(template@, c, i as nat),
        decreases combo@.len() - i,
    {
        let ph = placeholder_string(i as u64 + 1);
        url = replace_str(url.as_str(), ph.as_str(), combo[i].as_str());
        i = i + 1;
    }
    if combo.len() > 0 {
        proof {
            reveal_strlit("FUZZR");
        }
        url = replace_str(url.as_str(), "FUZZR", combo[0].as_str());
    }
    url
}

/// Instantiates the template once per combination, in order, and drops each
/// target equal to one of the exclusion words.
pub fn process_url_template(template: &str, combinations: Vec<Vec<String>>, exclude: Option<&str>) -> (r:
    Vec<String>)
    ensures
        words_of(r@) == kept_targets(template@, table_of(combinations@), exclusion_of(exclude)),
{
    let excluded = match exclude {
        Some(e) => exclusion_list(e),
        None => Vec::new(),
    };
    let ghost ex = exclusion_of(exclude);
    assert(words_of(excluded@) =~= ex);
    let ghost cs = table_of(combinations@);
    let mut urls: Vec<String> = Vec::new();
    let mut i: usize = 0;
    while i < combinations.len()
        invariant
            cs == table_of(combinations@),
            ex == words_of(excluded@),
            i <= combinations@.len(),
            words_of(urls@) == kept_targets(template@, cs.take(i as int), ex),
        decreases combinations@.len() - i,
    {
        let url = resolve_one(template, &combinations[i]);
        assert(cs.take(i + 1).drop_last() =~= cs.take(i as int));
        assert(cs.take(i + 1).last() == words_of(combinations@[i as int]@));
        if !listed(&excluded, url.as_str()) {
            let ghost prev = urls@;
            urls.push(url);
            assert(words_of(urls@) =~= words_of(prev).push(url@));
        }
        i = i + 1;
    }
    assert(cs.take(combinations@.len() as int) =~= cs);
    urls
}

/// A resolved target is kept exactly when no exclusion word equals it: the
/// output holds `u` iff some combination resolves to `u` and `u` is not
/// among the exclusion words.
pub proof fn lemma_exclusion_is_exact(t: Seq<char>, combos: WordTable, excluded: Words, u: Seq<char>)
    ensures
        kept_targets(t, combos, excluded).contains(u) <==> (!excluded.contains(u) && exists|i: int|
            0 <= i < combos.len() && #[trigger] resolve_target(t, combos[i]) == u),
    decreases combos.len(),
{
    if combos.len() > 0 {
        let init = combos.drop_last();
        lemma_exclusion_is_exact(t, init, excluded, u);
        let prev = kept_targets(t, init, excluded);
        let last = resolve_target(t, combos.last());
        if exists|i: int| 0 <= i < init.len() && #[trigger] resolve_target(t, init[i]) == u {
            let i = choose|i: int| 0 <= i < init.len() && #[trigger] resolve_target(t, init[i]) == u;
            assert(combos[i] == init[i]);
        }
        if exists|i: int| 0 <= i < combos.len() && #[trigger] resolve_target(t, combos[i]) == u {
            let i = choose|i: int| 0 <= i < combos.len() && #[trigger] resolve_target(t, combos[i]) == u;
            if i < init.len() {
                assert(combos[i] == init[i]);
                assert(resolve_target(t, init[i]) == u);
            }
        }
        if !excluded.contains(last) {
            assert(prev.push(last).last() == last);
            if prev.push(last).contains(u) && u != last {
                let k = choose|k: int| 0 <= k < prev.push(last).len() && prev.push(last)[k] == u;
                assert(prev[k] == u);
            }
            if prev.contains(u) {
                let k = choose|k: int| 0 <= k < prev.len() && prev[k] == u;
                assert(prev.push(last)[k] == u);
            }
        }
    }
}

} // verus!
