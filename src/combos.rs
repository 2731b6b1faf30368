//! The combination generator: word lists, the `+` adjacency merge, and the
//! parallel and product expansions.
use vstd::prelude::*;

use rand::seq::SliceRandom;

use crate::text::{
    decimal, decimal_string, split_pieces, split_str, str_eq, trim_str, trimmed,
    Separators,
};

verus! {

/// A word list, as characters.
pub type Words = Seq<Seq<char>>;

/// A sequence of word lists, or of combinations.
pub type WordTable = Seq<Seq<Seq<char>>>;

/// Whether a list is the adjacency token alone.
pub open spec fn is_plus_list(l: Words) -> bool {
    l.len() == 1 && l[0] == seq!['+']
}

/// The lists left after every standalone `+` list has spliced its two
/// neighbours together; `None` when a `+` leads or dangles.
pub open spec fn merged_lists(raw: WordTable) -> Option<WordTable>
    decreases raw.len(), 0int,
{
    if raw.len() == 0 {
        Some(Seq::empty())
    } else if is_plus_list(raw[0]) {
        None
    } else {
        absorbed(raw[0], raw.drop_first())
    }
}

/// The merge of `rest`, after `cur` has absorbed every `+ list` pair that
/// follows it.
pub open spec fn absorbed(cur: Words, rest: WordTable) -> Option<WordTable>
    decreases rest.len(), 1int,
{
    if rest.len() > 0 && is_plus_list(rest[0]) {
        if rest.len() < 2 {
            None
        } else {
            absorbed(cur + rest[1], rest.skip(2))
        }
    } else {
        prepend_list(cur, merged_lists(rest))
    }
}

pub open spec fn prepend_list(cur: Words, m: Option<WordTable>) -> Option<WordTable> {
    match m {
        Some(t) => Some(seq![cur] + t),
        None => None,
    }
}

/// Synchronized iteration: combination `i` takes element `i mod len` of
/// every list, for each `i` below the length of the first list.
pub open spec fn parallel_combinations(ls: WordTable) -> WordTable {
    Seq::new(
        ls[0].len(),
        |i: int| Seq::new(ls.len(), |j: int| ls[j][i % (ls[j].len() as int)]),
    )
}

/// Each combination of `ts`, with `x` put in front.
pub open spec fn prefixed(x: Seq<char>, ts: WordTable) -> WordTable {
    ts.map_values(|t: Words| seq![x] + t)
}

/// For each word of `xs` in order, every combination of `ts` behind it.
pub open spec fn expand(xs: Words, ts: WordTable) -> WordTable
    decreases xs.len(),
{
    if xs.len() == 0 {
        Seq::empty()
    } else {
        expand(xs.drop_last(), ts) + prefixed(xs.last(), ts)
    }
}

/// The cartesian product of the lists, in list order, rightmost list
/// varying fastest.
pub open spec fn product_combinations(ls: WordTable) -> WordTable
    decreases ls.len(),
{
    if ls.len() == 0 {
        seq![Seq::empty()]
    } else {
        expand(ls[0], product_combinations(ls.drop_first()))
    }
}

/// The combinations in generation order, before any shuffle.
pub open spec fn ordered_combinations(ls: WordTable, parallel: bool) -> WordTable {
    if parallel {
        parallel_combinations(ls)
    } else {
        product_combinations(ls)
    }
}

/// Lists on which expansion is defined: at least one list and, in parallel
/// mode with a non-empty first list, no empty list to wrap around.
pub open spec fn expandable(ls: WordTable, parallel: bool) -> bool {
    &&& ls.len() > 0
    &&& (parallel && ls[0].len() > 0) ==> forall|j: int| 0 <= j < ls.len() ==> #[trigger] ls[j].len() > 0
}

/// The non-empty words of `pieces`, in order.
pub open spec fn non_empty(pieces: Words) -> Words
    decreases pieces.len(),
{
    if pieces.len() == 0 {
        Seq::empty()
    } else if pieces.last().len() == 0 {
        non_empty(pieces.drop_last())
    } else {
        non_empty(pieces.drop_last()).push(pieces.last())
    }
}

/// The words of a literal list: pieces between commas, trimmed, empties dropped.
pub open spec fn literal_words(token: Seq<char>) -> Words {
    non_empty(split_pieces(token, Separators::Comma).map_values(|p: Seq<char>| trimmed(p)))
}

/// Whether `s` is a non-empty run of ASCII digits.
pub open spec fn all_digits(s: Seq<char>) -> bool {
    s.len() > 0 && forall|i: int| 0 <= i < s.len() ==> '0' <= #[trigger] s[i] <= '9'
}

/// The value of a run of ASCII digits.
pub open spec fn digits_value(s: Seq<char>) -> nat
    decreases s.len(),
{
    if s.len() == 0 {
        0
    } else {
        digits_value(s.drop_last()) * 10 + ((s.last() as u32 - '0' as u32) as nat)
    }
}

/// The two bounds of a range text `start-end`, when it has that shape.
pub open spec fn range_bounds(s: Seq<char>) -> Option<(Seq<char>, Seq<char>)> {
    if exists|p: int|
        0 <= p < s.len() && s[p] == '-' && all_digits(s.take(p)) && all_digits(#[trigger] s.skip(p + 1))
    {
        let p = choose|p: int|
            0 <= p < s.len() && s[p] == '-' && all_digits(s.take(p)) && all_digits(#[trigger] s.skip(p + 1));
        Some((s.take(p), s.skip(p + 1)))
    } else {
        None
    }
}

/// Why a range text is refused.
#[derive(Debug, Clone, Copy, PartialEq, Eq, Structural)]
pub enum RangeError {
    /// Not of the form `start-end` with decimal bounds.
    InvalidFormat,
    /// A bound does not fit the integer type.
    OutOfRange,
    /// The end lies below the start.
    EndBeforeStart,
}

/// Why a sequence of word lists cannot be merged.
#[derive(Debug, Clone, Copy, PartialEq, Eq, Structural)]
pub enum MergeError {
    /// A `+` list stands first, or has no list after it.
    DanglingPlus,
}

/// The characters of the strings of a vector.
pub open spec fn words_of(v: Seq<String>) -> Words {
    v.map_values(|s: String| s@)
}

/// The characters of a vector of string vectors.
pub open spec fn table_of(v: Seq<Vec<String>>) -> WordTable {
    v.map_values(|l: Vec<String>| words_of(l@))
}

/// The decimal texts of `start..=end`.
pub open spec fn range_words(start: nat, end: nat) -> Words {
    Seq::new((end + 1 - start) as nat, |i: int| decimal((start + i) as nat))
}

/// The outcome of reading a range text.
pub open spec fn range_result(s: Seq<char>) -> Result<Words, RangeError> {
    match range_bounds(s) {
        None => Err(RangeError::InvalidFormat),
        Some((a, b)) => if digits_value(a) > u64::MAX || digits_value(b) > u64::MAX {
            Err(RangeError::OutOfRange)
        } else if digits_value(b) < digits_value(a) {
            Err(RangeError::EndBeforeStart)
        } else {
            Ok(range_words(digits_value(a), digits_value(b)))
        },
    }
}

/// A copy of a word vector.
fn copy_words(v: &Vec<String>) -> (r: Vec<String>)
    ensures
        r@ == v@,
{
    let mut r: Vec<String> = Vec::new();
    let mut i: usize = 0;
    while i < v.len()
        invariant
            i <= v@.len(),
            r@ == v@.take(i as int),
        decreases v@.len() - i,
    {
        r.push(v[i].clone());
        i = i + 1;
        assert(r@ =~= v@.take(i as int));
    }
    assert(v@.take(v@.len() as int) =~= v@);
    r
}

/// Whether a list is the adjacency token alone.
fn is_plus(l: &Vec<String>) -> (r: bool)
    ensures
        r == is_plus_list(words_of(l@)),
{
    proof {
        reveal_strlit("+");
    }
    if l.len() != 1 {
        return false;
    }
    let r = str_eq(l[0].as_str(), "+");
    assert(r == (words_of(l@)[0] == seq!['+'])) by {
        assert("+"@ =~= seq!['+']);
    }
    r
}

/// The non-empty words, in order.
pub fn drop_empty(words: Vec<String>) -> (r: Vec<String>)
    ensures
        words_of(r@) == non_empty(words_of(words@)),
{
    let ghost ws = words_of(words@);
    let mut r: Vec<String> = Vec::new();
    let mut i: usize = 0;
    while i < words.len()
        invariant
            i <= words@.len(),
            ws == words_of(words@),
            words_of(r@) == non_empty(ws.take(i as int)),
        decreases words@.len() - i,
    {
        assert(ws.take(i + 1).drop_last() =~= ws.take(i as int));
        if words[i].as_str().unicode_len() != 0 {
            let ghost prev = r@;
            let w = words[i].clone();
            r.push(w);
            assert(words_of(r@) =~= words_of(prev).push(w@));
        }
        i = i + 1;
    }
    assert(ws.take(words@.len() as int) =~= ws);
    r
}

/// The words of a literal, comma-separated list: each piece trimmed, empty
/// pieces dropped.
pub fn parse_wordlist(token: &str) -> (r: Vec<String>)
    ensures
        words_of(r@) == literal_words(token@),
{
    let pieces = split_str(token, Separators::Comma);
    let ghost ps = pieces@.map_values(|p: String| p@);
    let mut trimmed_pieces: Vec<String> = Vec::new();
    let mut i: usize = 0;
    while i < pieces.len()
        invariant
            i <= pieces@.len(),
            ps == pieces@.map_values(|p: String| p@),
            words_of(trimmed_pieces@) == ps.take(i as int).map_values(|p: Seq<char>| trimmed(p)),
        decreases pieces@.len() - i,
    {
        let ghost prev = trimmed_pieces@;
        let w = trim_str(pieces[i].as_str());
        trimmed_pieces.push(w);
        assert(words_of(trimmed_pieces@) =~= words_of(prev).push(w@));
        i = i + 1;
        assert(words_of(trimmed_pieces@) =~= ps.take(i as int).map_values(|p: Seq<char>| trimmed(p)));
    }
    assert(ps.take(pieces@.len() as int) =~= ps);
    drop_empty(trimmed_pieces)
}

/// Reads a run of ASCII digits `s[from..to]` as a number, if it fits.
fn digits_to_u64(s: &str, from: usize, to: usize) -> (r: Option<u64>)
    requires
        from <= to <= s@.len(),
        forall|i: int| from <= i < to ==> '0' <= #[trigger] s@[i] <= '9',
    ensures
        r matches Some(v) ==> v == digits_value(s@.subrange(from as int, to as int)),
        r is None ==> digits_value(s@.subrange(from as int, to as int)) > u64::MAX,
{
    let mut v: u64 = 0;
    let mut i: usize = from;
    while i < to
        invariant
            from <= i <= to <= s@.len(),
            forall|k: int| from <= k < to ==> '0' <= #[trigger] s@[k] <= '9',
            v == digits_value(s@.subrange(from as int, i as int)),
        decreases to - i,
    {
        let c = s.get_char(i);
        let d = (c as u32 - '0' as u32) as u64;
        assert(s@.subrange(from as int, i + 1).drop_last() =~= s@.subrange(from as int, i as int));
        if v > (u64::MAX - d) / 10 {
            proof {
                lemma_digits_value_grows(s@.subrange(from as int, to as int), (i + 1 - from) as int);
                assert(s@.subrange(from as int, to as int).take(i + 1 - from) =~= s@.subrange(
                    from as int,
                    i + 1,
                ));
                assert(v * 10 + d > u64::MAX) by (nonlinear_arith)
                    requires
                        v > (u64::MAX - d) / 10,
                        d <= 9,
                ;
            }
            return None;
        }
        v = v * 10 + d;
        i = i + 1;
    }
    Some(v)
}

/// A prefix of a digit run never has a larger value than the run.
proof fn lemma_digits_value_grows(s: Seq<char>, k: int)
    requires
        0 <= k <= s.len(),
        forall|i: int| 0 <= i < s.len() ==> '0' <= #[trigger] s[i] <= '9',
    ensures
        digits_value(s.take(k)) <= digits_value(s),
    decreases s.len() - k,
{
    if k < s.len() {
        lemma_digits_value_grows(s, k + 1);
        assert(s.take(k + 1).drop_last() =~= s.take(k));
    } else {
        assert(s.take(k) =~= s);
    }
}

/// Finds the position of the first `-` in `s`, if any.
fn find_dash(s: &str) -> (r: Option<usize>)
    ensures
        r matches Some(p) ==> p < s@.len() && s@[p as int] == '-' && forall|i: int|
            0 <= i < p ==> s@[i] != '-',
        r is None ==> forall|i: int| 0 <= i < s@.len() ==> s@[i] != '-',
{
    let n = s.unicode_len();
    let mut i: usize = 0;
    while i < n
        invariant
            n == s@.len(),
            i <= n,
            forall|k: int| 0 <= k < i ==> s@[k] != '-',
        decreases n - i,
    {
        if s.get_char(i) == '-' {
            return Some(i);
        }
        i = i + 1;
    }
    None
}

/// Whether `s[from..to]` is a non-empty run of ASCII digits.
fn digits_only(s: &str, from: usize, to: usize) -> (r: bool)
    requires
        from <= to <= s@.len(),
    ensures
        r == all_digits(s@.subrange(from as int, to as int)),
        r ==> forall|k: int| from <= k < to ==> '0' <= #[trigger] s@[k] <= '9',
{
    if from == to {
        return false;
    }
    let mut i: usize = from;
    while i < to
        invariant
            from <= i <= to <= s@.len(),
            forall|k: int| from <= k < i ==> '0' <= #[trigger] s@[k] <= '9',
        decreases to - i,
    {
        let c = s.get_char(i);
        if !('0' <= c && c <= '9') {
            assert(s@.subrange(from as int, to as int)[i - from] == c);
            return false;
        }
        i = i + 1;
    }
    assert forall|k: int| 0 <= k < to - from implies '0' <= #[trigger] s@.subrange(
        from as int,
        to as int,
    )[k] <= '9' by {
        assert(s@.subrange(from as int, to as int)[k] == s@[from + k]);
    }
    true
}

/// Reads a range `start-end` of decimal numbers into the decimal texts of
/// every number from `start` to `end`, both included.
pub fn parse_range(spec: &str) -> (r: Result<Vec<String>, RangeError>)
    ensures
        r matches Ok(v) ==> range_result(spec@) == Ok::<Words, RangeError>(words_of(v@)),
        r matches Err(e) ==> range_result(spec@) == Err::<Words, RangeError>(e),
{
    let n = spec.unicode_len();
    let dash = find_dash(spec);
    let p = match dash {
        None => {
            assert(range_bounds(spec@) is None);
            return Err(RangeError::InvalidFormat);
        },
        Some(p) => p,
    };
    if !(digits_only(spec, 0, p) && digits_only(spec, p + 1, n)) {
        proof {
            assert(spec@.take(p as int) =~= spec@.subrange(0, p as int));
            assert(spec@.skip(p + 1) =~= spec@.subrange(p + 1, n as int));
            assert forall|q: int|
                0 <= q < spec@.len() && spec@[q] == '-' && all_digits(spec@.take(q)) implies !all_digits(
                #[trigger] spec@.skip(q + 1),
            ) by {
                if q != p {
                    if q < p {
                    } else {
                        assert(spec@.take(q)[p as int] == '-');
                    }
                }
            }
        }
        return Err(RangeError::InvalidFormat);
    }
    proof {
        assert(spec@.take(p as int) =~= spec@.subrange(0, p as int));
        assert(spec@.skip(p + 1) =~= spec@.subrange(p + 1, n as int));
        assert forall|q: int|
            0 <= q < spec@.len() && spec@[q] == '-' && all_digits(spec@.take(q)) && all_digits(
                #[trigger] spec@.skip(q + 1),
            ) implies q == p by {
            if q > p {
                assert(spec@.take(q)[p as int] == '-');
            } else if q < p {
            }
        }
        assert(all_digits(spec@.skip(p + 1)));
        assert(range_bounds(spec@) == Some((spec@.subrange(0, p as int), spec@.subrange(p + 1, n as int))));
    }
    let start = match digits_to_u64(spec, 0, p) {
        None => {
            return Err(RangeError::OutOfRange);
        },
        Some(v) => v,
    };
    let end = match digits_to_u64(spec, p + 1, n) {
        None => {
            return Err(RangeError::OutOfRange);
        },
        Some(v) => v,
    };
    if end < start {
        return Err(RangeError::EndBeforeStart);
    }
    let ghost rw = range_words(start as nat, end as nat);
    let mut out: Vec<String> = Vec::new();
    let mut k: u64 = start;
    loop
        invariant_except_break
            start <= k <= end,
            words_of(out@) == rw.take(k - start),
        invariant
            rw == range_words(start as nat, end as nat),
        ensures
            words_of(out@) == rw,
        decreases end - k,
    {
        let ghost prev = out@;
        let w = decimal_string(k);
        out.push(w);
        assert(rw[k - start] == decimal(k as nat));
        assert(words_of(out@) =~= words_of(prev).push(w@));
        assert(rw.take(k - start + 1) =~= rw.take(k - start).push(rw[k - start]));
        if k == end {
            assert(rw.take(k - start + 1) =~= rw);
            break;
        }
        k = k + 1;
    }
    Ok(out)
}

/// Splices every standalone `+` list together with its two neighbours.
pub fn process_wordlists(raw: &Vec<Vec<String>>) -> (r: Result<Vec<Vec<String>>, MergeError>)
    ensures
        r matches Ok(v) ==> merged_lists(table_of(raw@)) == Some(table_of(v@)),
        r is Err ==> merged_lists(table_of(raw@)) is None,
{
    let ghost t = table_of(raw@);
    let mut processed: Vec<Vec<String>> = Vec::new();
    let mut i: usize = 0;
    assert(t.skip(0) =~= t);
    while i < raw.len()
        invariant
            t == table_of(raw@),
            i <= raw@.len(),
            merged_lists(t) == match merged_lists(t.skip(i as int)) {
                Some(m) => Some(table_of(processed@) + m),
                None => None::<WordTable>,
            },
        decreases raw@.len() - i,
    {
        if is_plus(&raw[i]) {
            return Err(MergeError::DanglingPlus);
        }
        let mut combined = copy_words(&raw[i]);
        let mut j: usize = i + 1;
        assert(t.skip(i as int).drop_first() =~= t.skip(i + 1));
        while j < raw.len() && is_plus(&raw[j])
            invariant
                t == table_of(raw@),
                i < j <= raw@.len(),
                merged_lists(t) == match absorbed(words_of(combined@), t.skip(j as int)) {
                    Some(m) => Some(table_of(processed@) + m),
                    None => None::<WordTable>,
                },
            decreases raw@.len() - j,
        {
            if j + 1 >= raw.len() {
                return Err(MergeError::DanglingPlus);
            }
            let ghost before = words_of(combined@);
            let mut k: usize = 0;
            let next = &raw[j + 1];
            while k < next.len()
                invariant
                    k <= next@.len(),
                    words_of(combined@) == before + words_of(next@).take(k as int),
                decreases next@.len() - k,
            {
                let ghost prev = combined@;
                let w = next[k].clone();
                combined.push(w);
                assert(words_of(combined@) =~= words_of(prev).push(w@));
                assert(words_of(next@).take(k + 1) =~= words_of(next@).take(k as int).push(w@));
                k = k + 1;
                assert(words_of(combined@) =~= before + words_of(next@).take(k as int));
            }
            assert(words_of(next@).take(next@.len() as int) =~= words_of(next@));
            assert(t.skip(j as int).skip(2) =~= t.skip(j + 2));
            assert(t.skip(j as int)[1] == t[j + 1]);
            j = j + 2;
        }
        proof {
            let rest = t.skip(j as int);
            assert(!(rest.len() > 0 && is_plus_list(rest[0])));
        }
        let ghost old_processed = table_of(processed@);
        processed.push(combined);
        assert(table_of(processed@) =~= old_processed.push(words_of(combined@)));
        assert(forall|m: WordTable|
            old_processed + (seq![words_of(combined@)] + m) =~= #[trigger] (table_of(processed@) + m));
        i = j;
    }
    assert(t.skip(i as int) =~= Seq::<Words>::empty());
    assert(table_of(processed@) + Seq::<Words>::empty() =~= table_of(processed@));
    Ok(processed)
}

/// `p` maps each position of `b` to the position of `a` it came from, one to one.
pub open spec fn permutes<T>(a: Seq<T>, b: Seq<T>, p: Seq<int>) -> bool {
    &&& a.len() == b.len() == p.len()
    &&& forall|i: int| 0 <= i < p.len() ==> 0 <= #[trigger] p[i] < a.len() && b[i] == a[p[i]]
    &&& forall|i: int, j: int| 0 <= i < j < p.len() ==> #[trigger] p[i] != #[trigger] p[j]
}

/// `b` holds the elements of `a`, each exactly once, in some order.
pub open spec fn is_permutation<T>(a: Seq<T>, b: Seq<T>) -> bool {
    exists|p: Seq<int>| permutes(a, b, p)
}

/// Relies on rand's `SliceRandom::shuffle` with the thread-local generator,
/// which only swaps elements: the result is a permutation of the input.
#[verifier::external_body]
fn shuffle_combinations(v: &mut Vec<Vec<String>>)
    ensures
        is_permutation(old(v)@, final(v)@),
{
    v.shuffle(&mut rand::thread_rng());
}

/// Synchronized iteration over the lists.
fn parallel_from(lists: &[Vec<String>]) -> (r: Vec<Vec<String>>)
    requires
        expandable(table_of(lists@), true),
    ensures
        table_of(r@) == parallel_combinations(table_of(lists@)),
{
    let ghost ls = table_of(lists@);
    let n = lists[0].len();
    let mut out: Vec<Vec<String>> = Vec::new();
    let mut i: usize = 0;
    while i < n
        invariant
            ls == table_of(lists@),
            expandable(ls, true),
            n == ls[0].len(),
            i <= n,
            table_of(out@) == parallel_combinations(ls).take(i as int),
        decreases n - i,
    {
        let mut combo: Vec<String> = Vec::new();
        let mut j: usize = 0;
        while j < lists.len()
            invariant
                ls == table_of(lists@),
                expandable(ls, true),
                n == ls[0].len(),
                i < n,
                j <= lists@.len(),
                words_of(combo@) == Seq::new(j as nat, |k: int| ls[k][(i as int) % (ls[k].len() as int)]),
            decreases lists@.len() - j,
        {
            let l = &lists[j];
            assert(ls[j as int].len() > 0);
            let ghost prev = combo@;
            let w = l[i % l.len()].clone();
            combo.push(w);
            assert(words_of(combo@) =~= words_of(prev).push(w@));
            j = j + 1;
            assert(words_of(combo@) =~= Seq::new(j as nat, |k: int| ls[k][(i as int) % (ls[k].len() as int)]));
        }
        let ghost prev = out@;
        out.push(combo);
        assert(table_of(out@) =~= table_of(prev).push(words_of(combo@)));
        i = i + 1;
        assert(table_of(out@) =~= parallel_combinations(ls).take(i as int));
    }
    assert(parallel_combinations(ls).take(n as int) =~= parallel_combinations(ls));
    out
}

proof fn lemma_expand_step(xs: Words, ts: WordTable, i: int)
    requires
        0 <= i < xs.len(),
    ensures
        expand(xs.take(i + 1), ts) == expand(xs.take(i), ts) + prefixed(xs[i], ts),
{
    assert(xs.take(i + 1).drop_last() =~= xs.take(i));
}

/// The cartesian product of `lists[k..]`.
fn product_from(lists: &[Vec<String>], k: usize) -> (r: Vec<Vec<String>>)
    requires
        k <= lists@.len(),
    ensures
        table_of(r@) == product_combinations(table_of(lists@).skip(k as int)),
    decreases lists@.len() - k,
{
    if k == lists.len() {
        let mut r: Vec<Vec<String>> = Vec::new();
        r.push(Vec::new());
        assert(table_of(lists@).skip(k as int) =~= Seq::<Words>::empty());
        assert(words_of(Seq::<String>::empty()) =~= Seq::<Seq<char>>::empty());
        assert(table_of(r@) =~= seq![Seq::<Seq<char>>::empty()]);
        return r;
    }
    let rest = product_from(lists, k + 1);
    let ghost ts = table_of(rest@);
    let xs = &lists[k];
    let ghost xw = words_of(xs@);
    proof {
        let t = table_of(lists@).skip(k as int);
        assert(t[0] == xw);
        assert(t.drop_first() =~= table_of(lists@).skip(k + 1));
    }
    let mut out: Vec<Vec<String>> = Vec::new();
    let mut i: usize = 0;
    assert(xw.take(0) =~= Seq::<Seq<char>>::empty());
    while i < xs.len()
        invariant
            ts == table_of(rest@),
            xw == words_of(xs@),
            i <= xs@.len(),
            table_of(out@) == expand(xw.take(i as int), ts),
        decreases xs@.len() - i,
    {
        let mut j: usize = 0;
        assert(prefixed(xw[i as int], ts.take(0)) =~= Seq::<Words>::empty());
        assert(table_of(out@) =~= expand(xw.take(i as int), ts) + prefixed(xw[i as int], ts.take(0)));
        while j < rest.len()
            invariant
                ts == table_of(rest@),
                xw == words_of(xs@),
                i < xs@.len(),
                j <= rest@.len(),
                table_of(out@) == expand(xw.take(i as int), ts) + prefixed(xw[i as int], ts.take(j as int)),
            decreases rest@.len() - j,
        {
            let mut t: Vec<String> = Vec::new();
            let head = xs[i].clone();
            t.push(head);
            let mut tail = copy_words(&rest[j]);
            t.append(&mut tail);
            assert(words_of(t@) =~= seq![xw[i as int]] + ts[j as int]);
            let ghost prev = out@;
            out.push(t);
            assert(table_of(out@) =~= table_of(prev).push(words_of(t@)));
            assert(prefixed(xw[i as int], ts.take(j + 1)) =~= prefixed(xw[i as int], ts.take(j as int)).push(
                seq![xw[i as int]] + ts[j as int],
            ));
            j = j + 1;
        }
        proof {
            lemma_expand_step(xw, ts, i as int);
            assert(ts.take(rest@.len() as int) =~= ts);
        }
        i = i + 1;
    }
    assert(xw.take(xs@.len() as int) =~= xw);
    out
}

/// Whether the lists can be expanded in the given mode (see `expandable`).
pub fn expandable_lists(lists: &[Vec<String>], parallel: bool) -> (r: bool)
    ensures
        r == expandable(table_of(lists@), parallel),
{
    if lists.len() == 0 {
        return false;
    }
    if !parallel || lists[0].len() == 0 {
        return true;
    }
    let mut j: usize = 0;
    while j < lists.len()
        invariant
            parallel,
            lists@.len() > 0,
            table_of(lists@)[0].len() > 0,
            j <= lists@.len(),
            forall|k: int| 0 <= k < j ==> #[trigger] table_of(lists@)[k].len() > 0,
        decreases lists@.len() - j,
    {
        if lists[j].len() == 0 {
            assert(table_of(lists@)[j as int].len() == 0);
            return false;
        }
        j = j + 1;
    }
    true
}

/// The combinations of the lists, in parallel or product mode, then
/// shuffled when `random` is set.
pub fn generate_combinations(lists: &[Vec<String>], parallel: bool, random: bool) -> (r: Vec<
    Vec<String>,
>)
    requires
        expandable(table_of(lists@), parallel),
    ensures
        !random ==> table_of(r@) == ordered_combinations(table_of(lists@), parallel),
        random ==> is_permutation(ordered_combinations(table_of(lists@), parallel), table_of(r@)),
{
    let mut combinations = if parallel {
        parallel_from(lists)
    } else {
        let r = product_from(lists, 0);
        assert(table_of(lists@).skip(0) =~= table_of(lists@));
        r
    };
    if random {
        let ghost before = combinations@;
        shuffle_combinations(&mut combinations);
        proof {
            let p = choose|p: Seq<int>| permutes(before, combinations@, p);
            assert(permutes(table_of(before), table_of(combinations@), p));
        }
    }
    combinations
}

/// Parallel expansion yields one combination per element of the first
/// list, whose element `j` is `list_j[i mod len(list_j)]`.
pub proof fn lemma_parallel_shape(ls: WordTable)
    requires
        ls.len() > 0,
        forall|j: int| 0 <= j < ls.len() ==> #[trigger] ls[j].len() > 0,
    ensures
        parallel_combinations(ls).len() == ls[0].len(),
        forall|i: int|
            0 <= i < ls[0].len() ==> (#[trigger] parallel_combinations(ls)[i]).len() == ls.len(),
        forall|i: int, j: int|
            0 <= i < ls[0].len() && 0 <= j < ls.len() ==> #[trigger] parallel_combinations(ls)[i][j]
                == ls[j][i % (ls[j].len() as int)],
{
}

/// A `+` list that stands first fails the merge.
pub proof fn lemma_leading_plus_fails(raw: WordTable)
    requires
        raw.len() > 0,
        is_plus_list(raw[0]),
    ensures
        merged_lists(raw) is None,
{
}

/// A trailing `+` list that is not itself the operand of a `+` before it
/// fails the merge.
pub proof fn lemma_dangling_plus_fails(raw: WordTable)
    requires
        raw.len() > 0,
        is_plus_list(raw.last()),
        raw.len() == 1 || !is_plus_list(raw[raw.len() - 2]),
    ensures
        merged_lists(raw) is None,
    decreases raw.len(), 0int,
{
    if !is_plus_list(raw[0]) {
        let rest = raw.drop_first();
        assert(rest.last() == raw.last());
        assert(rest.len() == 1 || rest[rest.len() - 2] == raw[raw.len() - 2]);
        lemma_absorbed_dangling_fails(raw[0], rest);
    }
}

proof fn lemma_absorbed_dangling_fails(cur: Words, rest: WordTable)
    requires
        rest.len() > 0,
        is_plus_list(rest.last()),
        rest.len() == 1 || !is_plus_list(rest[rest.len() - 2]),
    ensures
        absorbed(cur, rest) is None,
    decreases rest.len(), 1int,
{
    if is_plus_list(rest[0]) {
        if rest.len() >= 2 {
            let tail = rest.skip(2);
            assert(rest.len() > 2);
            assert(tail.last() == rest.last());
            assert(tail.len() == 1 || tail[tail.len() - 2] == rest[rest.len() - 2]);
            lemma_absorbed_dangling_fails(cur + rest[1], tail);
        }
    } else {
        lemma_dangling_plus_fails(rest);
    }
}

/// The product of the list lengths.
pub open spec fn lengths_product(ls: WordTable) -> nat
    decreases ls.len(),
{
    if ls.len() == 0 {
        1
    } else {
        ls[0].len() * lengths_product(ls.drop_first())
    }
}

/// `t` picks one word of each list, in list order.
pub open spec fn is_choice(ls: WordTable, t: Words) -> bool {
    t.len() == ls.len() && forall|j: int| 0 <= j < ls.len() ==> #[trigger] ls[j].contains(t[j])
}

proof fn lemma_expand_len(xs: Words, ts: WordTable)
    ensures
        expand(xs, ts).len() == xs.len() * ts.len(),
    decreases xs.len(),
{
    if xs.len() > 0 {
        lemma_expand_len(xs.drop_last(), ts);
        let n = xs.len() as int;
        let m = ts.len() as int;
        assert((n - 1) * m + m == n * m) by (nonlinear_arith);
    }
}

proof fn lemma_expand_at(xs: Words, ts: WordTable, a: int, b: int)
    requires
        0 <= a < xs.len(),
        0 <= b < ts.len(),
    ensures
        a * ts.len() + b < expand(xs, ts).len(),
        expand(xs, ts)[a * ts.len() + b] == seq![xs[a]] + ts[b],
    decreases xs.len(),
{
    let n = xs.len() as int;
    let m = ts.len() as int;
    lemma_expand_len(xs, ts);
    lemma_expand_len(xs.drop_last(), ts);
    if a < n - 1 {
        lemma_expand_at(xs.drop_last(), ts, a, b);
        assert((a + 1) * m <= (n - 1) * m) by (nonlinear_arith)
            requires
                a + 1 <= n - 1,
                0 <= m,
        ;
        assert((a + 1) * m == a * m + m) by (nonlinear_arith);
    } else {
        assert(a * m == (n - 1) * m);
        assert(a * m + b < n * m) by (nonlinear_arith)
            requires
                a == n - 1,
                b < m,
        ;
    }
}

proof fn lemma_expand_split(xs: Words, ts: WordTable, k: int)
    requires
        0 <= k < expand(xs, ts).len(),
    ensures
        ts.len() > 0,
        0 <= k / (ts.len() as int) < xs.len(),
        k == (k / (ts.len() as int)) * ts.len() + k % (ts.len() as int),
        0 <= k % (ts.len() as int) < ts.len(),
{
    lemma_expand_len(xs, ts);
    let n = xs.len() as int;
    let m = ts.len() as int;
    assert(m > 0) by (nonlinear_arith)
        requires
            0 <= k < n * m,
            0 <= n,
            0 <= m,
    ;
    assert(k / m < n) by (nonlinear_arith)
        requires
            0 <= k < n * m,
            m > 0,
    ;
    assert(k == (k / m) * m + k % m) by (nonlinear_arith)
        requires
            m > 0,
    ;
}

proof fn lemma_product_len(ls: WordTable)
    ensures
        product_combinations(ls).len() == lengths_product(ls),
    decreases ls.len(),
{
    if ls.len() > 0 {
        lemma_product_len(ls.drop_first());
        lemma_expand_len(ls[0], product_combinations(ls.drop_first()));
    }
}

proof fn lemma_product_contains(ls: WordTable, t: Words)
    ensures
        product_combinations(ls).contains(t) <==> is_choice(ls, t),
    decreases ls.len(),
{
    if ls.len() == 0 {
        if is_choice(ls, t) {
            assert(t =~= Seq::<Seq<char>>::empty());
            assert(product_combinations(ls)[0] == t);
        }
    } else {
        let rest = ls.drop_first();
        let ps = product_combinations(rest);
        let e = product_combinations(ls);
        if e.contains(t) {
            let k = choose|k: int| 0 <= k < e.len() && e[k] == t;
            lemma_expand_split(ls[0], ps, k);
            let a = k / (ps.len() as int);
            let b = k % (ps.len() as int);
            lemma_expand_at(ls[0], ps, a, b);
            assert(ps.contains(ps[b]));
            lemma_product_contains(rest, ps[b]);
            assert(t.drop_first() =~= ps[b]);
            assert(ls[0].contains(t[0]));
            assert forall|j: int| 0 <= j < ls.len() implies #[trigger] ls[j].contains(t[j]) by {
                if j > 0 {
                    assert(rest[j - 1] == ls[j]);
                    assert(rest[j - 1].contains(ps[b][j - 1]));
                }
            }
        }
        if is_choice(ls, t) {
            let tail = t.drop_first();
            assert forall|j: int| 0 <= j < rest.len() implies #[trigger] rest[j].contains(tail[j]) by {
                assert(ls[j + 1].contains(t[j + 1]));
            }
            lemma_product_contains(rest, tail);
            let b = choose|b: int| 0 <= b < ps.len() && ps[b] == tail;
            assert(ls[0].contains(t[0]));
            let a = choose|a: int| 0 <= a < ls[0].len() && ls[0][a] == t[0];
            lemma_expand_at(ls[0], ps, a, b);
            assert(seq![ls[0][a]] + ps[b] =~= t);
            assert(e[a * ps.len() + b] == t);
        }
    }
}

proof fn lemma_product_no_duplicates(ls: WordTable)
    requires
        forall|j: int| 0 <= j < ls.len() ==> (#[trigger] ls[j]).no_duplicates(),
    ensures
        product_combinations(ls).no_duplicates(),
    decreases ls.len(),
{
    if ls.len() > 0 {
        let rest = ls.drop_first();
        assert forall|j: int| 0 <= j < rest.len() implies (#[trigger] rest[j]).no_duplicates() by {
            assert(rest[j] == ls[j + 1]);
        }
        lemma_product_no_duplicates(rest);
        let ps = product_combinations(rest);
        let e = product_combinations(ls);
        assert forall|k1: int, k2: int|
            0 <= k1 < e.len() && 0 <= k2 < e.len() && k1 != k2 implies e[k1] != e[k2] by {
            lemma_expand_split(ls[0], ps, k1);
            lemma_expand_split(ls[0], ps, k2);
            let m = ps.len() as int;
            let (a1, b1) = (k1 / m, k1 % m);
            let (a2, b2) = (k2 / m, k2 % m);
            lemma_expand_at(ls[0], ps, a1, b1);
            lemma_expand_at(ls[0], ps, a2, b2);
            if e[k1] == e[k2] {
                assert(e[k1][0] == ls[0][a1]);
                assert(e[k2][0] == ls[0][a2]);
                assert(e[k1].drop_first() =~= ps[b1]);
                assert(e[k2].drop_first() =~= ps[b2]);
                assert(a1 == a2);
                assert(b1 == b2);
            }
        }
    }
}

/// In product mode the number of combinations is the product of the list
/// lengths.
pub proof fn lemma_product_size(ls: WordTable)
    requires
        ls.len() > 1,
        forall|j: int| 0 <= j < ls.len() ==> #[trigger] ls[j].len() > 0,
    ensures
        product_combinations(ls).len() == lengths_product(ls),
{
    lemma_product_len(ls);
}

/// In product mode every choice of one word per list appears, and appears
/// exactly once, when no list repeats a word.
pub proof fn lemma_product_each_once(ls: WordTable)
    requires
        ls.len() > 1,
        forall|j: int| 0 <= j < ls.len() ==> #[trigger] ls[j].len() > 0,
        forall|j: int| 0 <= j < ls.len() ==> (#[trigger] ls[j]).no_duplicates(),
    ensures
        forall|t: Words| #[trigger] product_combinations(ls).contains(t) <==> is_choice(ls, t),
        product_combinations(ls).no_duplicates(),
{
    assert forall|t: Words| #[trigger] product_combinations(ls).contains(t) <==> is_choice(ls, t) by {
        lemma_product_contains(ls, t);
    }
    lemma_product_no_duplicates(ls);
}

} // verus!
