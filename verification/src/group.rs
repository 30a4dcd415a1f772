//! Checking that two word lists describe a permutation of one set of
//! distinct words: the lists are equally long, hold the same words equally
//! often, and no word is repeated.

use vstd::prelude::*;
use crate::text::chars_of;
use crate::substitution::{map_of_entries, zip_pairs};

verus! {

/// How often `w` occurs in `ws`.
pub open spec fn occurrences(ws: Seq<Seq<char>>, w: Seq<char>) -> nat
    decreases ws.len(),
{
    if ws.len() == 0 {
        0
    } else {
        occurrences(ws.drop_last(), w) + if ws.last() == w { 1nat } else { 0nat }
    }
}

/// Whether `s` and `t` hold the same words, each equally often.
pub open spec fn same_words(s: Seq<Seq<char>>, t: Seq<Seq<char>>) -> bool {
    forall|w: Seq<char>| #[trigger] occurrences(s, w) == occurrences(t, w)
}

/// Whether `w` occurs more than once in `s`.
pub open spec fn repeated(s: Seq<Seq<char>>, w: Seq<char>) -> bool {
    occurrences(s, w) >= 2
}

/// Whether some word occurs more than once in `s`.
pub open spec fn has_repeated(s: Seq<Seq<char>>) -> bool {
    exists|w: Seq<char>| #[trigger] occurrences(s, w) >= 2
}

/// Lexicographic order of words by the code points of their characters
/// (which is also the byte order of their UTF-8 encodings).
pub open spec fn word_lt(a: Seq<char>, b: Seq<char>) -> bool
    decreases a.len(),
{
    if a.len() == 0 {
        b.len() > 0
    } else if b.len() == 0 {
        false
    } else if (a[0] as u32) < (b[0] as u32) {
        true
    } else if a[0] == b[0] {
        word_lt(a.drop_first(), b.drop_first())
    } else {
        false
    }
}

/// Whether `w` is the least of the words that occur more than once in `s`.
pub open spec fn is_first_repeated(s: Seq<Seq<char>>, w: Seq<char>) -> bool {
    &&& occurrences(s, w) >= 2
    &&& forall|x: Seq<char>| #[trigger] occurrences(s, x) >= 2 ==> !word_lt(x, w)
}

/// No word is less than itself.
pub proof fn lemma_word_lt_irreflexive(a: Seq<char>)
    ensures
        !word_lt(a, a),
    decreases a.len(),
{
    if a.len() > 0 {
        lemma_word_lt_irreflexive(a.drop_first());
    }
}

/// The order of words is transitive.
pub proof fn lemma_word_lt_transitive(a: Seq<char>, b: Seq<char>, c: Seq<char>)
    requires
        word_lt(a, b),
        word_lt(b, c),
    ensures
        word_lt(a, c),
    decreases a.len(),
{
    if a.len() > 0 && b.len() > 0 && c.len() > 0 && a[0] == b[0] && b[0] == c[0] {
        lemma_word_lt_transitive(a.drop_first(), b.drop_first(), c.drop_first());
    }
}

/// A word occurs in `ws` exactly when its count there is positive.
pub proof fn lemma_occurrences_contains(ws: Seq<Seq<char>>, w: Seq<char>)
    ensures
        (occurrences(ws, w) > 0) == ws.contains(w),
    decreases ws.len(),
{
    if ws.len() > 0 {
        let u = ws.drop_last();
        lemma_occurrences_contains(u, w);
        if u.contains(w) {
            let k = choose|k: int| 0 <= k < u.len() && u[k] == w;
            assert(ws[k] == w);
        }
        if ws.contains(w) && ws.last() != w {
            let k = choose|k: int| 0 <= k < ws.len() && ws[k] == w;
            assert(u[k] == w);
        }
    }
}

/// A word at two different positions of `ws` occurs more than once.
pub proof fn lemma_occurrences_two(ws: Seq<Seq<char>>, i: int, j: int)
    requires
        0 <= i < j < ws.len(),
        ws[i] == ws[j],
    ensures
        occurrences(ws, ws[i]) >= 2,
    decreases ws.len(),
{
    let u = ws.drop_last();
    if j == ws.len() - 1 {
        assert(u[i] == ws[i]);
        lemma_occurrences_contains(u, ws[i]);
    } else {
        assert(u[i] == ws[i] && u[j] == ws[j]);
        lemma_occurrences_two(u, i, j);
    }
}

/// Inserting pairs with distinct keys maps each key to its own value, and
/// to nothing else.
pub proof fn lemma_map_of_distinct_entries(es: Seq<(Seq<char>, Seq<char>)>)
    requires
        forall|i: int, j: int| 0 <= i < j < es.len() ==> (#[trigger] es[i]).0 != (#[trigger] es[j]).0,
    ensures
        forall|i: int| 0 <= i < es.len() ==> map_of_entries(es).contains_key((#[trigger] es[i]).0)
            && map_of_entries(es)[es[i].0] == es[i].1,
        forall|k: Seq<char>| #[trigger] map_of_entries(es).contains_key(k)
            ==> exists|i: int| 0 <= i < es.len() && (#[trigger] es[i]).0 == k,
    decreases es.len(),
{
    if es.len() > 0 {
        let u = es.drop_last();
        assert forall|i: int, j: int| 0 <= i < j < u.len() implies (#[trigger] u[i]).0 != (#[trigger] u[j]).0 by {
            assert(u[i] == es[i] && u[j] == es[j]);
        }
        lemma_map_of_distinct_entries(u);
        let last = es.last();
        assert forall|i: int| 0 <= i < es.len() implies map_of_entries(es).contains_key((#[trigger] es[i]).0)
            && map_of_entries(es)[es[i].0] == es[i].1 by {
            if i < es.len() - 1 {
                assert(u[i] == es[i]);
                assert(es[i].0 != last.0);
            }
        }
        assert forall|k: Seq<char>| #[trigger] map_of_entries(es).contains_key(k)
            implies exists|i: int| 0 <= i < es.len() && (#[trigger] es[i]).0 == k by {
            if k == last.0 {
                assert(es[es.len() - 1].0 == k);
            } else {
                assert(map_of_entries(u).contains_key(k));
                let i = choose|i: int| 0 <= i < u.len() && (#[trigger] u[i]).0 == k;
                assert(es[i] == u[i]);
            }
        }
    }
}

/// Word lists that pass validation describe a permutation of the source
/// words: the map from each source word to the target word at its position
/// is defined on exactly the source words, takes its values among them, is
/// one-to-one, and every source word is the image of one of them.
pub proof fn lemma_valid_group_is_permutation(s: Seq<Seq<char>>, t: Seq<Seq<char>>)
    requires
        s.len() == t.len(),
        same_words(s, t),
        !has_repeated(s),
    ensures
        forall|k: Seq<char>| #[trigger] map_of_entries(zip_pairs(s, t)).contains_key(k) <==> s.contains(k),
        forall|k: Seq<char>| #[trigger] map_of_entries(zip_pairs(s, t)).contains_key(k)
            ==> map_of_entries(zip_pairs(s, t)).contains_key(map_of_entries(zip_pairs(s, t))[k]),
        forall|k1: Seq<char>, k2: Seq<char>|
            #[trigger] map_of_entries(zip_pairs(s, t)).contains_key(k1)
                && #[trigger] map_of_entries(zip_pairs(s, t)).contains_key(k2)
                && map_of_entries(zip_pairs(s, t))[k1] == map_of_entries(zip_pairs(s, t))[k2] ==> k1 == k2,
        forall|k: Seq<char>| #[trigger] map_of_entries(zip_pairs(s, t)).contains_key(k)
            ==> exists|k2: Seq<char>| map_of_entries(zip_pairs(s, t)).contains_key(k2)
                && #[trigger] map_of_entries(zip_pairs(s, t))[k2] == k,
{
    let es = zip_pairs(s, t);
    let m = map_of_entries(es);
    assert(es.len() == s.len());
    assert forall|i: int| 0 <= i < es.len() implies #[trigger] es[i] == (s[i], t[i]) by {}
    assert forall|i: int, j: int| 0 <= i < j < s.len() implies s[i] != s[j] by {
        if s[i] == s[j] {
            lemma_occurrences_two(s, i, j);
            assert(occurrences(s, s[i]) >= 2);
        }
    }
    assert forall|i: int, j: int| 0 <= i < j < t.len() implies t[i] != t[j] by {
        if t[i] == t[j] {
            lemma_occurrences_two(t, i, j);
            assert(occurrences(s, t[i]) == occurrences(t, t[i]));
            assert(occurrences(s, t[i]) >= 2);
        }
    }
    assert forall|i: int, j: int| 0 <= i < j < es.len() implies (#[trigger] es[i]).0 != (#[trigger] es[j]).0 by {
        assert(s[i] != s[j]);
    }
    lemma_map_of_distinct_entries(es);
    assert forall|k: Seq<char>| #[trigger] m.contains_key(k) <==> s.contains(k) by {
        if m.contains_key(k) {
            let i = choose|i: int| 0 <= i < es.len() && (#[trigger] es[i]).0 == k;
            assert(s[i] == k);
        }
        if s.contains(k) {
            let i = choose|i: int| 0 <= i < s.len() && s[i] == k;
            assert(es[i].0 == k);
        }
    }
    assert forall|k: Seq<char>| #[trigger] m.contains_key(k) implies m.contains_key(m[k]) by {
        let i = choose|i: int| 0 <= i < es.len() && (#[trigger] es[i]).0 == k;
        assert(m[k] == t[i]);
        assert(t.contains(t[i]));
        lemma_occurrences_contains(t, t[i]);
        assert(occurrences(s, t[i]) == occurrences(t, t[i]));
        lemma_occurrences_contains(s, t[i]);
    }
    assert forall|k1: Seq<char>, k2: Seq<char>|
        #[trigger] m.contains_key(k1) && #[trigger] m.contains_key(k2) && m[k1] == m[k2] implies k1 == k2 by {
        let i = choose|i: int| 0 <= i < es.len() && (#[trigger] es[i]).0 == k1;
        let j = choose|j: int| 0 <= j < es.len() && (#[trigger] es[j]).0 == k2;
        assert(m[k1] == t[i] && m[k2] == t[j]);
        if i < j {
            assert(t[i] != t[j]);
        } else if j < i {
            assert(t[j] != t[i]);
        }
    }
    assert forall|k: Seq<char>| #[trigger] m.contains_key(k)
        implies exists|k2: Seq<char>| m.contains_key(k2) && #[trigger] m[k2] == k by {
        let i = choose|i: int| 0 <= i < es.len() && (#[trigger] es[i]).0 == k;
        assert(s.contains(s[i]));
        lemma_occurrences_contains(s, s[i]);
        assert(occurrences(s, s[i]) == occurrences(t, s[i]));
        lemma_occurrences_contains(t, s[i]);
        let j = choose|j: int| 0 <= j < t.len() && t[j] == k;
        assert(m[es[j].0] == t[j]);
        assert(m.contains_key(s[j]));
    }
}

/// The count of the words of `ws` that equal `w`.
fn count_word(words: &[String], w: &String) -> (n: usize)
    ensures
        n == occurrences(words.deep_view(), w@),
{
    let ghost ws = words.deep_view();
    let mut n: usize = 0;
    let mut i: usize = 0;
    assert(ws.take(0) =~= Seq::<Seq<char>>::empty());
    while i < words.len()
        invariant
            ws == words.deep_view(),
            i <= words.len(),
            n <= i,
            n == occurrences(ws.take(i as int), w@),
        decreases words.len() - i,
    {
        assert(ws.take(i + 1).drop_last() =~= ws.take(i as int));
        if words[i] == *w {
            n += 1;
        }
        i += 1;
    }
    assert(ws.take(words.len() as int) =~= ws);
    n
}

/// Whether `a` comes before `b` in the order of words.
fn chars_lt(a: &Vec<char>, b: &Vec<char>) -> (r: bool)
    ensures
        r == word_lt(a@, b@),
{
    let mut k: usize = 0;
    assert(a@.skip(0) =~= a@ && b@.skip(0) =~= b@);
    while k < a.len() && k < b.len()
        invariant
            k <= a.len(),
            k <= b.len(),
            word_lt(a@, b@) == word_lt(a@.skip(k as int), b@.skip(k as int)),
        decreases a.len() - k,
    {
        let ghost ra = a@.skip(k as int);
        let ghost rb = b@.skip(k as int);
        assert(ra.len() > 0 && rb.len() > 0);
        assert(ra[0] == a@[k as int]);
        assert(rb[0] == b@[k as int]);
        let ca = a[k];
        let cb = b[k];
        if (ca as u32) < (cb as u32) {
            assert(word_lt(ra, rb));
            return true;
        }
        if ca != cb {
            assert(!word_lt(ra, rb));
            return false;
        }
        assert(a@.skip(k as int).drop_first() =~= a@.skip(k + 1));
        assert(b@.skip(k as int).drop_first() =~= b@.skip(k + 1));
        k += 1;
    }
    k == a.len() && k < b.len()
}

/// Why two word lists do not describe a permutation of one set of words.
#[derive(Debug)]
pub enum GroupError {
    /// The lists differ in length.
    LengthMismatch,
    /// The lists do not hold the same words equally often.
    WordSetMismatch,
    /// This word occurs more than once (the least such word).
    DuplicateWord(String),
}

impl GroupError {
    /// The message that reports the error.
    pub fn message(&self) -> (m: String)
        ensures
            self matches GroupError::LengthMismatch ==> m@ == "エラー: 要素数が一致しません。"@,
            self matches GroupError::WordSetMismatch ==> m@ == "エラー: 置換元と置換先の単語セットが一致しません。"@,
            self matches GroupError::DuplicateWord(w) ==> m@ == "エラー: 置換元に重複する単語 '"@ + w@ + "' があります。"@,
    {
        match self {
            GroupError::LengthMismatch => String::from_str("エラー: 要素数が一致しません。"),
            GroupError::WordSetMismatch => String::from_str("エラー: 置換元と置換先の単語セットが一致しません。"),
            GroupError::DuplicateWord(w) => {
                let mut m = String::from_str("エラー: 置換元に重複する単語 '");
                m.append(w.as_str());
                m.append("' があります。");
                m
            },
        }
    }
}

/// Checks that `t_words` is a rearrangement of `s_words` and that no word of
/// `s_words` is repeated: first the lengths, then the words and their counts,
/// then the repetitions, the least repeated word being reported.
pub fn validate_alternating_group(s_words: &[String], t_words: &[String]) -> (r: Result<(), GroupError>)
    ensures
        s_words.len() != t_words.len() ==> r matches Err(GroupError::LengthMismatch),
        s_words.len() == t_words.len() && !same_words(s_words.deep_view(), t_words.deep_view())
            ==> r matches Err(GroupError::WordSetMismatch),
        s_words.len() == t_words.len() && same_words(s_words.deep_view(), t_words.deep_view())
            && has_repeated(s_words.deep_view())
            ==> (r matches Err(GroupError::DuplicateWord(w)) && is_first_repeated(s_words.deep_view(), w@)),
        s_words.len() == t_words.len() && same_words(s_words.deep_view(), t_words.deep_view())
            && !has_repeated(s_words.deep_view()) ==> r is Ok,
{
    let ghost s = s_words.deep_view();
    let ghost t = t_words.deep_view();
    if s_words.len() != t_words.len() {
        return Err(GroupError::LengthMismatch);
    }
    let n = s_words.len();
    let mut i: usize = 0;
    while i < n
        invariant
            s == s_words.deep_view(),
            t == t_words.deep_view(),
            n == s_words.len(),
            n == t_words.len(),
            i <= n,
            forall|q: int| 0 <= q < i ==> occurrences(s, #[trigger] s[q]) == occurrences(t, s[q]),
            forall|q: int| 0 <= q < i ==> occurrences(s, #[trigger] t[q]) == occurrences(t, t[q]),
        decreases n - i,
    {
        if count_word(s_words, &s_words[i]) != count_word(t_words, &s_words[i]) {
            assert(!same_words(s, t)) by {
                assert(occurrences(s, s[i as int]) != occurrences(t, s[i as int]));
            }
            return Err(GroupError::WordSetMismatch);
        }
        if count_word(s_words, &t_words[i]) != count_word(t_words, &t_words[i]) {
            assert(!same_words(s, t)) by {
                assert(occurrences(s, t[i as int]) != occurrences(t, t[i as int]));
            }
            return Err(GroupError::WordSetMismatch);
        }
        i += 1;
    }
    assert(same_words(s, t)) by {
        assert forall|w: Seq<char>| #[trigger] occurrences(s, w) == occurrences(t, w) by {
            lemma_occurrences_contains(s, w);
            lemma_occurrences_contains(t, w);
            if s.contains(w) {
                let k = choose|k: int| 0 <= k < s.len() && s[k] == w;
                assert(occurrences(s, s[k]) == occurrences(t, s[k]));
            } else if t.contains(w) {
                let k = choose|k: int| 0 <= k < t.len() && t[k] == w;
                assert(occurrences(s, t[k]) == occurrences(t, t[k]));
            }
        }
    }
    let mut best: Option<usize> = None;
    let mut best_chars: Vec<char> = Vec::new();
    let mut k: usize = 0;
    while k < n
        invariant
            s == s_words.deep_view(),
            n == s_words.len(),
            k <= n,
            match best {
                Some(b) => {
                    &&& b < k
                    &&& best_chars@ == s[b as int]
                    &&& occurrences(s, s[b as int]) >= 2
                    &&& forall|q: int| 0 <= q < k && occurrences(s, #[trigger] s[q]) >= 2 ==> !word_lt(s[q], s[b as int])
                },
                None => forall|q: int| 0 <= q < k ==> occurrences(s, #[trigger] s[q]) < 2,
            },
        decreases n - k,
    {
        let c = count_word(s_words, &s_words[k]);
        if c >= 2 {
            let wk = chars_of(s_words[k].as_str());
            match best {
                Some(b) => {
                    if chars_lt(&wk, &best_chars) {
                        proof {
                            lemma_word_lt_irreflexive(s[k as int]);
                            assert forall|q: int| 0 <= q < k + 1 && occurrences(s, #[trigger] s[q]) >= 2
                                implies !word_lt(s[q], s[k as int]) by {
                                if q < k && word_lt(s[q], s[k as int]) {
                                    lemma_word_lt_transitive(s[q], s[k as int], s[b as int]);
                                }
                            }
                        }
                        best = Some(k);
                        best_chars = wk;
                    }
                },
                None => {
                    proof {
                        lemma_word_lt_irreflexive(s[k as int]);
                    }
                    best = Some(k);
                    best_chars = wk;
                },
            }
        }
        k += 1;
    }
    match best {
        Some(b) => {
            proof {
                assert forall|x: Seq<char>| #[trigger] occurrences(s, x) >= 2 implies !word_lt(x, s[b as int]) by {
                    lemma_occurrences_contains(s, x);
                    let q = choose|q: int| 0 <= q < s.len() && s[q] == x;
                    assert(occurrences(s, s[q]) >= 2);
                }
                assert(has_repeated(s));
            }
            Err(GroupError::DuplicateWord(s_words[b].clone()))
        },
        None => {
            proof {
                assert forall|x: Seq<char>| !(#[trigger] occurrences(s, x) >= 2) by {
                    lemma_occurrences_contains(s, x);
                    if occurrences(s, x) >= 2 {
                        let q = choose|q: int| 0 <= q < s.len() && s[q] == x;
                        assert(occurrences(s, s[q]) < 2);
                    }
                }
            }
            Ok(())
        },
    }
}

} // verus!
