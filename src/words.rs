use vstd::prelude::*;
use vstd::string::StrSliceExecFns;

use crate::text::{
    compare_str, count_char, lemma_lex_antisymmetric, lemma_lex_transitive, lex_lt, occurrences,
};

verus! {

/// The words of `s`: its maximal runs of characters that are not whitespace
/// (as Unicode's White_Space property defines it), in order.
pub uninterp spec fn words_of(s: Seq<char>) -> Seq<Seq<char>>;

/// The views of a sequence of strings.
pub open spec fn string_views(s: Seq<String>) -> Seq<Seq<char>> {
    s.map_values(|w: String| w@)
}

/// The words of a list of word counts.
pub open spec fn counted_words(s: Seq<(String, usize)>) -> Seq<Seq<char>> {
    s.map_values(|p: (String, usize)| p.0@)
}

/// Relies on str::split_whitespace: the substrings of `text` between
/// whitespace, in order, none of them empty. (Lines end in whitespace, so
/// splitting each line gives the same words.)
#[verifier::external_body]
fn split_words(text: &str) -> (r: Vec<String>)
    ensures
        string_views(r@) == words_of(text@),
        forall|k: int| 0 <= k < r@.len() ==> (#[trigger] r@[k])@.len() > 0,
{
    text.split_whitespace().map(String::from).collect()
}

/// `counts` lists each word of `words` once, in strictly increasing
/// lexicographic order, with how often it occurs in `words`.
pub open spec fn counts_words(counts: Seq<(String, usize)>, words: Seq<Seq<char>>) -> bool {
    &&& forall|a: int, b: int|
        0 <= a < b < counts.len() ==> lex_lt(#[trigger] counts[a].0@, #[trigger] counts[b].0@)
    &&& forall|k: int|
        0 <= k < counts.len() ==> words.contains(#[trigger] counts[k].0@) && counts[k].1
            == occurrences(words, counts[k].0@)
    &&& forall|j: int| 0 <= j < words.len() ==> counted_words(counts).contains(#[trigger] words[j])
}

proof fn lemma_occurrences_contains<A>(s: Seq<A>, x: A)
    ensures
        occurrences(s, x) > 0 ==> s.contains(x),
    decreases s.len(),
{
    if s.len() > 0 {
        lemma_occurrences_contains(s.drop_last(), x);
        if occurrences(s.drop_last(), x) > 0 {
            let j = choose|j: int| 0 <= j < s.drop_last().len() && s.drop_last()[j] == x;
            assert(s[j] == x);
        } else if s.last() == x {
            assert(s[s.len() - 1] == x);
        }
    }
}

/// Counts the words of a list: each distinct word once, in lexicographic
/// order, with how often it occurs.
pub fn frequencies_of(words: &Vec<String>) -> (r: Vec<(String, usize)>)
    ensures
        counts_words(r@, string_views(words@)),
{
    let ghost ws = string_views(words@);
    let mut keys: Vec<String> = Vec::new();
    let mut counts: Vec<usize> = Vec::new();
    let mut i: usize = 0;
    while i < words.len()
        invariant
            i <= words@.len(),
            ws == string_views(words@),
            keys@.len() == counts@.len(),
            forall|a: int, b: int|
                0 <= a < b < keys@.len() ==> lex_lt(#[trigger] keys@[a]@, #[trigger] keys@[b]@),
            forall|k: int|
                0 <= k < keys@.len() ==> ws.take(i as int).contains(#[trigger] keys@[k]@)
                    && counts@[k] == occurrences(ws.take(i as int), keys@[k]@) && counts@[k] <= i,
            forall|j: int| 0 <= j < i ==> string_views(keys@).contains(#[trigger] ws[j]),
        decreases words@.len() - i,
    {
        let w = &words[i];
        let ghost wv = w@;
        let ghost before = ws.take(i as int);
        let ghost after = ws.take(i + 1);
        assert(after.drop_last() =~= before);
        assert(after.last() == wv);
        let mut p: usize = 0;
        let mut done = false;
        let mut found = false;
        while p < keys.len() && !done
            invariant
                p <= keys@.len(),
                wv == w@,
                keys@.len() == counts@.len(),
                found ==> done,
                forall|k: int| 0 <= k < p ==> lex_lt(#[trigger] keys@[k]@, wv),
                done ==> p < keys@.len() && (found <==> keys@[p as int]@ == wv) && (!found
                    ==> lex_lt(wv, keys@[p as int]@)),
            decreases keys@.len() - p + if done { 0int } else { 1int },
        {
            let c = compare_str(keys[p].as_str(), w.as_str());
            if c < 0 {
                p = p + 1;
            } else {
                done = true;
                found = c == 0;
            }
        }
        if found {
            let ghost old_counts = counts@;
            let n = counts[p] + 1;
            counts.set(p, n);
            proof {
                assert forall|k: int| 0 <= k < keys@.len() implies after.contains(#[trigger] keys@[k]@)
                    && counts@[k] == occurrences(after, keys@[k]@) && counts@[k] <= i + 1 by {
                    let j = choose|j: int| 0 <= j < before.len() && before[j] == keys@[k]@;
                    assert(after[j] == keys@[k]@);
                    if k != p {
                        if keys@[k]@ == wv {
                            if k < p {
                                assert(lex_lt(keys@[k]@, keys@[p as int]@));
                            } else {
                                assert(lex_lt(keys@[p as int]@, keys@[k]@));
                            }
                        }
                    }
                }
                assert forall|j: int| 0 <= j < i + 1 implies string_views(keys@).contains(
                    #[trigger] ws[j],
                ) by {
                    if j == i {
                        assert(string_views(keys@)[p as int] == wv);
                    }
                }
            }
        } else {
            let ghost old_keys = keys@;
            proof {
                assert forall|k: int| 0 <= k < old_keys.len() implies old_keys[k]@ != wv by {
                    if k < p {
                    } else {
                        if k > p {
                            assert(lex_lt(old_keys[p as int]@, old_keys[k]@));
                        }
                        if old_keys[k]@ == wv {
                            lemma_lex_antisymmetric(wv, old_keys[p as int]@);
                        }
                    }
                }
                lemma_occurrences_contains(before, wv);
                if occurrences(before, wv) > 0 {
                    let j = choose|j: int| 0 <= j < before.len() && before[j] == wv;
                    assert(ws[j] == wv);
                    assert(string_views(old_keys).contains(wv));
                    let k = choose|k: int| 0 <= k < string_views(old_keys).len() && string_views(old_keys)[k] == wv;
                    assert(old_keys[k]@ == wv);
                }
            }
            keys.insert(p, w.clone());
            counts.insert(p, 1);
            proof {
                assert forall|a: int, b: int| 0 <= a < b < keys@.len() implies lex_lt(
                    #[trigger] keys@[a]@,
                    #[trigger] keys@[b]@,
                ) by {
                    if b == p {
                        assert(keys@[a] == old_keys[a]);
                    } else if a == p {
                        assert(keys@[b] == old_keys[b - 1]);
                        if b - 1 > p {
                            assert(lex_lt(old_keys[p as int]@, old_keys[b - 1]@));
                            lemma_lex_transitive(wv, old_keys[p as int]@, old_keys[b - 1]@);
                            if wv == old_keys[b - 1]@ {
                                lemma_lex_antisymmetric(wv, old_keys[p as int]@);
                            }
                        }
                    } else if a < p && b < p {
                    } else if a < p {
                        assert(keys@[b] == old_keys[b - 1]);
                    } else {
                        assert(keys@[a] == old_keys[a - 1]);
                        assert(keys@[b] == old_keys[b - 1]);
                    }
                }
                assert forall|k: int| 0 <= k < keys@.len() implies after.contains(#[trigger] keys@[k]@)
                    && counts@[k] == occurrences(after, keys@[k]@) && counts@[k] <= i + 1 by {
                    if k == p {
                        assert(after[i as int] == wv);
                    } else {
                        let q = if k < p {
                            k
                        } else {
                            k - 1
                        };
                        assert(keys@[k] == old_keys[q]);
                        let j = choose|j: int| 0 <= j < before.len() && before[j] == keys@[k]@;
                        assert(after[j] == keys@[k]@);
                    }
                }
                assert forall|j: int| 0 <= j < i + 1 implies string_views(keys@).contains(
                    #[trigger] ws[j],
                ) by {
                    if j == i {
                        assert(string_views(keys@)[p as int] == wv);
                    } else {
                        let k = choose|k: int|
                            0 <= k < string_views(old_keys).len() && string_views(old_keys)[k]
                                == ws[j];
                        if k < p {
                            assert(string_views(keys@)[k] == ws[j]);
                        } else {
                            assert(string_views(keys@)[k + 1] == ws[j]);
                        }
                    }
                }
            }
        }
        i = i + 1;
    }
    assert(ws.take(i as int) =~= ws);
    let mut r: Vec<(String, usize)> = Vec::new();
    let mut k: usize = 0;
    while k < keys.len()
        invariant
            k <= keys@.len(),
            keys@.len() == counts@.len(),
            r@.len() == k,
            forall|m: int| 0 <= m < k ==> (#[trigger] r@[m]).0@ == keys@[m]@ && r@[m].1 == counts@[m],
        decreases keys@.len() - k,
    {
        r.push((keys[k].clone(), counts[k]));
        k = k + 1;
    }
    proof {
        assert forall|j: int| 0 <= j < ws.len() implies counted_words(r@).contains(#[trigger] ws[j]) by {
            let m = choose|m: int| 0 <= m < string_views(keys@).len() && string_views(keys@)[m] == ws[j];
            assert(counted_words(r@)[m] == ws[j]);
        }
    }
    r
}

/// Counts the words of `text`: each distinct word once, in lexicographic
/// order, with how often it occurs.
pub fn word_frequencies(text: &str) -> (r: Vec<(String, usize)>)
    ensures
        counts_words(r@, words_of(text@)),
{
    let words = split_words(text);
    frequencies_of(&words)
}

/// Whether `c` is the most common character of `s`, the one with the
/// largest code point among equally common ones.
pub open spec fn most_common(s: Seq<char>, c: char) -> bool {
    &&& s.contains(c)
    &&& forall|j: int|
        0 <= j < s.len() ==> occurrences(s, #[trigger] s[j]) < occurrences(s, c) || (occurrences(
            s,
            s[j],
        ) == occurrences(s, c) && (s[j] as int) <= (c as int))
}

/// The character reported for a word: its most common character (see
/// `most_common`), or `'\0'` for an empty word.
pub open spec fn reported_char(s: Seq<char>, c: char) -> bool {
    if s.len() == 0 {
        c == '\0'
    } else {
        most_common(s, c)
    }
}

/// The most common character of `word`; among equally common ones the one
/// with the largest code point; `'\0'` for an empty word.
pub fn most_common_char(word: &str) -> (r: char)
    ensures
        reported_char(word@, r),
{
    let n = word.unicode_len();
    if n == 0 {
        return '\0';
    }
    let mut best = word.get_char(0);
    let mut best_count = count_char(word, best);
    let mut i: usize = 1;
    while i < n
        invariant
            n == word@.len(),
            1 <= i <= n,
            word@.contains(best),
            best_count == occurrences(word@, best),
            forall|j: int|
                0 <= j < i ==> occurrences(word@, #[trigger] word@[j]) < best_count || (
                occurrences(word@, word@[j]) == best_count && (word@[j] as int) <= (best as int)),
        decreases n - i,
    {
        let c = word.get_char(i);
        let k = count_char(word, c);
        if k > best_count || (k == best_count && (c as u32) > (best as u32)) {
            best = c;
            best_count = k;
        }
        i = i + 1;
    }
    best
}

/// One row of the word table.
pub struct WordInfo {
    pub word: String,
    pub frequency: usize,
    /// The length of the word in bytes (UTF-8), as `str::len` gives it.
    pub length: usize,
    pub most_common_char: char,
}

/// One row per counted word: the word, its count, its length in bytes and
/// its most common character.
pub fn word_infos(counts: &Vec<(String, usize)>) -> (r: Vec<WordInfo>)
    ensures
        r@.len() == counts@.len(),
        forall|k: int|
            0 <= k < r@.len() ==> (#[trigger] r@[k]).word@ == counts@[k].0@ && r@[k].frequency
                == counts@[k].1 && r@[k].length == vstd::utf8::encode_utf8(
                counts@[k].0@,
            ).len() as usize
                && reported_char(counts@[k].0@, r@[k].most_common_char),
{
    let mut r: Vec<WordInfo> = Vec::new();
    let mut k: usize = 0;
    while k < counts.len()
        invariant
            k <= counts@.len(),
            r@.len() == k,
            forall|m: int|
                0 <= m < k ==> (#[trigger] r@[m]).word@ == counts@[m].0@ && r@[m].frequency
                    == counts@[m].1 && r@[m].length == vstd::utf8::encode_utf8(counts@[m].0@).len() as usize
                    && reported_char(counts@[m].0@, r@[m].most_common_char),
        decreases counts@.len() - k,
    {
        let word = counts[k].0.as_str();
        let info = WordInfo {
            word: counts[k].0.clone(),
            frequency: counts[k].1,
            length: word.len(),
            most_common_char: most_common_char(word),
        };
        assert(word@ == counts@[k as int].0@);
        r.push(info);
        k = k + 1;
    }
    r
}

/// `grid` with every cell other than `keep` replaced by `.`.
pub fn mask_except<const R: usize, const C: usize>(grid: [[char; C]; R], keep: char) -> (r: [[char; C]; R])
    ensures
        forall|i: int, j: int|
            0 <= i < R && 0 <= j < C ==> #[trigger] r[i][j] == if grid[i][j] == keep {
                keep
            } else {
                '.'
            },
{
    let mut out = grid;
    let mut i: usize = 0;
    while i < R
        invariant
            i <= R,
            forall|a: int, j: int|
                0 <= a < i && 0 <= j < C ==> #[trigger] out[a][j] == if grid[a][j] == keep {
                    keep
                } else {
                    '.'
                },
            forall|a: int| i <= a < R ==> #[trigger] out[a] == grid[a],
        decreases R - i,
    {
        let mut row = out[i];
        let mut j: usize = 0;
        while j < C
            invariant
                i < R,
                j <= C,
                forall|b: int| 0 <= b < j ==> #[trigger] row[b] == if grid[i as int][b] == keep {
                    keep
                } else {
                    '.'
                },
                forall|b: int| j <= b < C ==> #[trigger] row[b] == grid[i as int][b],
            decreases C - j,
        {
            if row[j] != keep {
                row[j] = '.';
            }
            j = j + 1;
        }
        out[i] = row;
        i = i + 1;
    }
    out
}

} // verus!
