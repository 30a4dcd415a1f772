//! Simultaneous substitution of words in a text: at each position the
//! longest key that starts there is replaced by its image, and the scan goes
//! on after it, so that no replaced text is ever replaced again.

use vstd::prelude::*;
use vstd::utf8::{encode_scalar, encode_utf8};
use crate::text::chars_of;

verus! {

/// The map that inserting the pairs of `entries` one after the other
/// builds: a later pair wins over an earlier one with the same key.
pub open spec fn map_of_entries(entries: Seq<(Seq<char>, Seq<char>)>) -> Map<Seq<char>, Seq<char>>
    decreases entries.len(),
{
    if entries.len() == 0 {
        Map::empty()
    } else {
        map_of_entries(entries.drop_last()).insert(entries.last().0, entries.last().1)
    }
}

/// The pairs `(keys[i], values[i])`, as far as both sequences reach.
pub open spec fn zip_pairs(keys: Seq<Seq<char>>, values: Seq<Seq<char>>) -> Seq<(Seq<char>, Seq<char>)> {
    let n = if keys.len() <= values.len() { keys.len() } else { values.len() };
    Seq::new(n, |i: int| (keys[i], values[i]))
}

/// A map from words to words, keyed by the words' characters.
pub struct WordMap {
    entries: Vec<(String, String)>,
}

impl View for WordMap {
    type V = Map<Seq<char>, Seq<char>>;

    closed spec fn view(&self) -> Map<Seq<char>, Seq<char>> {
        map_of_entries(self.entries.deep_view())
    }
}

impl WordMap {
    /// An empty map.
    pub fn new() -> (m: WordMap)
        ensures
            m@ == Map::<Seq<char>, Seq<char>>::empty(),
    {
        WordMap { entries: Vec::new() }
    }

    /// Maps `key` to `value`, replacing any earlier image of `key`.
    pub fn insert(&mut self, key: String, value: String)
        ensures
            final(self)@ == old(self)@.insert(key@, value@),
    {
        let ghost before = self.entries.deep_view();
        self.entries.push((key, value));
        assert(self.entries.deep_view().drop_last() =~= before);
    }

    /// The image of `key`, if it has one.
    pub fn get(&self, key: &String) -> (r: Option<&String>)
        ensures
            match r {
                Some(v) => self@.contains_key(key@) && self@[key@] == v@,
                None => !self@.contains_key(key@),
            },
    {
        let ghost es = self.entries.deep_view();
        let ghost m = map_of_entries(es);
        let mut i = self.entries.len();
        assert(es.take(i as int) =~= es);
        while i > 0
            invariant
                es == self.entries.deep_view(),
                m == map_of_entries(es),
                i <= es.len(),
                m.contains_key(key@) == map_of_entries(es.take(i as int)).contains_key(key@),
                m.contains_key(key@) ==> m[key@] == map_of_entries(es.take(i as int))[key@],
            decreases i,
        {
            assert(es.take(i as int).drop_last() =~= es.take(i - 1));
            if self.entries[i - 1].0 == *key {
                return Some(&self.entries[i - 1].1);
            }
            i -= 1;
        }
        None
    }

    /// The map that inserting `(keys[i], values[i])` in order builds, as far
    /// as both slices reach.
    pub fn from_pairs(keys: &[String], values: &[String]) -> (m: WordMap)
        ensures
            m@ == map_of_entries(zip_pairs(keys.deep_view(), values.deep_view())),
    {
        let n = if keys.len() <= values.len() { keys.len() } else { values.len() };
        let ghost pairs = zip_pairs(keys.deep_view(), values.deep_view());
        let mut m = WordMap::new();
        let mut i: usize = 0;
        while i < n
            invariant
                n == pairs.len(),
                n <= keys.len(),
                n <= values.len(),
                pairs == zip_pairs(keys.deep_view(), values.deep_view()),
                i <= n,
                m@ == map_of_entries(pairs.take(i as int)),
            decreases n - i,
        {
            assert(pairs.take(i + 1).drop_last() =~= pairs.take(i as int));
            m.insert(keys[i].clone(), values[i].clone());
            i += 1;
        }
        assert(pairs.take(n as int) =~= pairs);
        m
    }
}

/// The length in bytes of the UTF-8 encoding of `w`, as `str::len`
/// reports it.
pub open spec fn byte_len(w: Seq<char>) -> usize {
    encode_utf8(w).len() as usize
}

/// Whether `s` begins with `p`.
pub open spec fn starts_with(s: Seq<char>, p: Seq<char>) -> bool {
    p.len() <= s.len() && s.take(p.len() as int) == p
}

/// The key that a substitution at the start of `rest` uses: among the keys
/// that `rest` begins with, one of the greatest byte length, and of those the
/// first in `keys`.
pub open spec fn best_match(rest: Seq<char>, keys: Seq<Seq<char>>) -> Option<int>
    decreases keys.len(),
{
    if keys.len() == 0 {
        None
    } else {
        let prev = best_match(rest, keys.drop_last());
        let j = keys.len() - 1;
        if starts_with(rest, keys[j]) && (prev is None || byte_len(keys[prev->0]) < byte_len(keys[j])) {
            Some(j)
        } else {
            prev
        }
    }
}

/// `text` after the substitution of `map`'s images for the `keys` that it
/// holds, scanning from the left: where a key matches (see `best_match`),
/// its image is written and the scan goes on after the key; elsewhere one
/// character is copied.
pub open spec fn replaced(text: Seq<char>, keys: Seq<Seq<char>>, map: Map<Seq<char>, Seq<char>>) -> Seq<char>
    decreases text.len(),
{
    if text.len() == 0 {
        Seq::empty()
    } else {
        let b = best_match(text, keys);
        if b is Some && 0 < keys[b->0].len() <= text.len() {
            map[keys[b->0]] + replaced(text.skip(keys[b->0].len() as int), keys, map)
        } else {
            seq![text[0]] + replaced(text.skip(1), keys, map)
        }
    }
}

/// A key that `best_match` picks is one of `keys`, and `rest` begins with it.
pub proof fn lemma_best_match_is_match(rest: Seq<char>, keys: Seq<Seq<char>>)
    ensures
        best_match(rest, keys) matches Some(j) ==> 0 <= j < keys.len() && starts_with(rest, keys[j]),
    decreases keys.len(),
{
    if keys.len() > 0 {
        lemma_best_match_is_match(rest, keys.drop_last());
    }
}

/// Longest match first: where some key starts, one is picked, and no key
/// that starts there is longer in bytes, nor as long and earlier in `keys`.
pub proof fn lemma_best_match_longest(rest: Seq<char>, keys: Seq<Seq<char>>)
    ensures
        (exists|i: int| 0 <= i < keys.len() && #[trigger] starts_with(rest, keys[i])) ==> best_match(rest, keys) is Some,
        best_match(rest, keys) matches Some(j) ==> forall|i: int|
            0 <= i < keys.len() && #[trigger] starts_with(rest, keys[i]) ==> byte_len(keys[i]) < byte_len(keys[j])
                || (byte_len(keys[i]) == byte_len(keys[j]) && j <= i),
    decreases keys.len(),
{
    if keys.len() > 0 {
        let u = keys.drop_last();
        lemma_best_match_longest(rest, u);
        lemma_best_match_is_match(rest, u);
        let last = keys.len() - 1;
        if exists|i: int| 0 <= i < keys.len() && #[trigger] starts_with(rest, keys[i]) {
            let i = choose|i: int| 0 <= i < keys.len() && #[trigger] starts_with(rest, keys[i]);
            if i < last {
                assert(starts_with(rest, u[i]));
            }
        }
        if best_match(rest, keys) is Some {
            let j = best_match(rest, keys)->0;
            assert forall|i: int| 0 <= i < keys.len() && #[trigger] starts_with(rest, keys[i])
                implies byte_len(keys[i]) < byte_len(keys[j]) || (byte_len(keys[i]) == byte_len(keys[j]) && j <= i) by {
                if i < last {
                    assert(u[i] == keys[i]);
                    assert(starts_with(rest, u[i]));
                    if best_match(rest, u) is Some {
                        assert(u[best_match(rest, u)->0] == keys[best_match(rest, u)->0]);
                    }
                }
            }
        }
    }
}

/// Where no key starts, no key is picked.
pub proof fn lemma_best_match_none(rest: Seq<char>, keys: Seq<Seq<char>>)
    requires
        forall|j: int| 0 <= j < keys.len() ==> !starts_with(rest, #[trigger] keys[j]),
    ensures
        best_match(rest, keys) is None,
    decreases keys.len(),
{
    if keys.len() > 0 {
        let u = keys.drop_last();
        assert forall|j: int| 0 <= j < u.len() implies !starts_with(rest, #[trigger] u[j]) by {
            assert(u[j] == keys[j]);
        }
        lemma_best_match_none(rest, u);
    }
}

/// Substituting words by themselves leaves every text as it was.
pub proof fn lemma_replace_identity(text: Seq<char>, keys: Seq<Seq<char>>, map: Map<Seq<char>, Seq<char>>)
    requires
        forall|j: int| 0 <= j < keys.len() ==> map.contains_key(#[trigger] keys[j]) && map[keys[j]] == keys[j],
    ensures
        replaced(text, keys, map) == text,
    decreases text.len(),
{
    if text.len() > 0 {
        lemma_best_match_is_match(text, keys);
        let b = best_match(text, keys);
        if b is Some && 0 < keys[b->0].len() <= text.len() {
            let key = keys[b->0];
            let n = key.len() as int;
            lemma_replace_identity(text.skip(n), keys, map);
            assert(text.take(n) + text.skip(n) =~= text);
        } else {
            lemma_replace_identity(text.skip(1), keys, map);
            assert(seq![text[0]] + text.skip(1) =~= text);
        }
    }
}

/// A text in which no key occurs is left as it was.
pub proof fn lemma_replace_without_keys(text: Seq<char>, keys: Seq<Seq<char>>, map: Map<Seq<char>, Seq<char>>)
    requires
        forall|i: int, j: int| 0 <= i < text.len() && 0 <= j < keys.len() ==> !#[trigger] starts_with(text.skip(i), keys[j]),
    ensures
        replaced(text, keys, map) == text,
    decreases text.len(),
{
    if text.len() > 0 {
        assert(text.skip(0) =~= text);
        assert forall|j: int| 0 <= j < keys.len() implies !starts_with(text, #[trigger] keys[j]) by {
            assert(!starts_with(text.skip(0), keys[j]));
        }
        lemma_best_match_none(text, keys);
        let rest = text.skip(1);
        assert forall|i: int, j: int| 0 <= i < rest.len() && 0 <= j < keys.len() implies !#[trigger] starts_with(rest.skip(i), keys[j]) by {
            assert(rest.skip(i) =~= text.skip(i + 1));
            assert(!starts_with(text.skip(i + 1), keys[j]));
        }
        lemma_replace_without_keys(rest, keys, map);
        assert(seq![text[0]] + rest =~= text);
    }
}

/// Whether the UTF-8 encoding of `w` fits in memory, as that of every
/// `String` does.
pub open spec fn fits_in_memory(w: Seq<char>) -> bool {
    encode_utf8(w).len() <= usize::MAX
}

/// A longer prefix of a text takes more bytes than a shorter one.
proof fn lemma_prefix_bytes_grow(s: Seq<char>, n1: int, n2: int)
    requires
        0 <= n1 < n2 <= s.len(),
    ensures
        encode_utf8(s.take(n1)).len() < encode_utf8(s.take(n2)).len(),
    decreases n1,
{
    let a = s.take(n1);
    let b = s.take(n2);
    assert(b.drop_first() =~= s.drop_first().take(n2 - 1));
    if n1 == 0 {
        assert(a =~= Seq::<char>::empty());
        assert(encode_utf8(b) == encode_scalar(b[0] as u32) + encode_utf8(b.drop_first()));
    } else {
        assert(a.drop_first() =~= s.drop_first().take(n1 - 1));
        assert(a[0] == b[0]);
        lemma_prefix_bytes_grow(s.drop_first(), n1 - 1, n2 - 1);
    }
}

/// Two keys that a text begins with and that take as many bytes are the
/// same key.
proof fn lemma_same_byte_len_prefix(rest: Seq<char>, k1: Seq<char>, k2: Seq<char>)
    requires
        starts_with(rest, k1),
        starts_with(rest, k2),
        fits_in_memory(k1),
        fits_in_memory(k2),
        byte_len(k1) == byte_len(k2),
    ensures
        k1 == k2,
{
    if k1.len() < k2.len() {
        lemma_prefix_bytes_grow(rest, k1.len() as int, k2.len() as int);
    } else if k2.len() < k1.len() {
        lemma_prefix_bytes_grow(rest, k2.len() as int, k1.len() as int);
    }
}

/// Two key lists that hold the same keys pick the same key at every
/// position.
proof fn lemma_best_match_same_keys(rest: Seq<char>, keys: Seq<Seq<char>>, keys2: Seq<Seq<char>>)
    requires
        forall|k: Seq<char>| keys.contains(k) <==> keys2.contains(k),
        forall|j: int| 0 <= j < keys.len() ==> fits_in_memory(#[trigger] keys[j]),
    ensures
        best_match(rest, keys) is Some <==> best_match(rest, keys2) is Some,
        best_match(rest, keys) is Some ==> keys[best_match(rest, keys)->0] == keys2[best_match(rest, keys2)->0],
{
    lemma_best_match_is_match(rest, keys);
    lemma_best_match_is_match(rest, keys2);
    lemma_best_match_longest(rest, keys);
    lemma_best_match_longest(rest, keys2);
    if best_match(rest, keys) is Some {
        let j = best_match(rest, keys)->0;
        assert(keys.contains(keys[j]));
        let i2 = choose|i2: int| 0 <= i2 < keys2.len() && keys2[i2] == keys[j];
        assert(starts_with(rest, keys2[i2]));
    }
    if best_match(rest, keys2) is Some {
        let j2 = best_match(rest, keys2)->0;
        assert(keys2.contains(keys2[j2]));
        let i = choose|i: int| 0 <= i < keys.len() && keys[i] == keys2[j2];
        assert(starts_with(rest, keys[i]));
    }
    if best_match(rest, keys) is Some {
        let j = best_match(rest, keys)->0;
        let j2 = best_match(rest, keys2)->0;
        assert(keys.contains(keys[j]));
        let i2 = choose|i2: int| 0 <= i2 < keys2.len() && keys2[i2] == keys[j];
        assert(starts_with(rest, keys2[i2]));
        assert(keys2.contains(keys2[j2]));
        let i = choose|i: int| 0 <= i < keys.len() && keys[i] == keys2[j2];
        assert(starts_with(rest, keys[i]));
        assert(fits_in_memory(keys[i]));
        lemma_same_byte_len_prefix(rest, keys[j], keys2[j2]);
    }
}

/// The order of the keys, and their repetition, do not matter: two key
/// lists that hold the same keys give the same substitution of every text.
pub proof fn lemma_replace_key_order(
    text: Seq<char>,
    keys: Seq<Seq<char>>,
    keys2: Seq<Seq<char>>,
    map: Map<Seq<char>, Seq<char>>,
)
    requires
        forall|k: Seq<char>| keys.contains(k) <==> keys2.contains(k),
        forall|j: int| 0 <= j < keys.len() ==> fits_in_memory(#[trigger] keys[j]),
    ensures
        replaced(text, keys, map) == replaced(text, keys2, map),
    decreases text.len(),
{
    if text.len() > 0 {
        lemma_best_match_same_keys(text, keys, keys2);
        let b = best_match(text, keys);
        if b is Some && 0 < keys[b->0].len() <= text.len() {
            lemma_replace_key_order(text.skip(keys[b->0].len() as int), keys, keys2, map);
        } else {
            lemma_replace_key_order(text.skip(1), keys, keys2, map);
        }
    }
}

/// One step of the scan, stated over all keys: where no key starts the
/// text, the first character is copied and the scan goes on after it;
/// where a non-empty key starts the text and no key that starts there is
/// longer in bytes, that key's image is written and the scan goes on after
/// the key. Every position of the text, after any line break, is scanned.
pub proof fn lemma_replace_step(text: Seq<char>, keys: Seq<Seq<char>>, map: Map<Seq<char>, Seq<char>>, j: int)
    requires
        text.len() > 0,
        forall|q: int| 0 <= q < keys.len() ==> fits_in_memory(#[trigger] keys[q]),
    ensures
        (forall|q: int| 0 <= q < keys.len() ==> !starts_with(text, #[trigger] keys[q]))
            ==> replaced(text, keys, map) == seq![text[0]] + replaced(text.skip(1), keys, map),
        (0 <= j < keys.len() && keys[j].len() > 0 && starts_with(text, keys[j])
            && forall|q: int| 0 <= q < keys.len() && #[trigger] starts_with(text, keys[q])
                ==> byte_len(keys[q]) <= byte_len(keys[j]))
            ==> replaced(text, keys, map) == map[keys[j]] + replaced(text.skip(keys[j].len() as int), keys, map),
{
    lemma_best_match_is_match(text, keys);
    lemma_best_match_longest(text, keys);
    if forall|q: int| 0 <= q < keys.len() ==> !starts_with(text, #[trigger] keys[q]) {
        lemma_best_match_none(text, keys);
    }
    if 0 <= j < keys.len() && keys[j].len() > 0 && starts_with(text, keys[j])
        && forall|q: int| 0 <= q < keys.len() && #[trigger] starts_with(text, keys[q])
            ==> byte_len(keys[q]) <= byte_len(keys[j]) {
        let b = best_match(text, keys)->0;
        assert(starts_with(text, keys[b]));
        lemma_same_byte_len_prefix(text, keys[b], keys[j]);
    }
}

/// Two texts joined by a character that no key holds are substituted
/// each on its own: no key reaches across the join.
pub proof fn lemma_replace_concat(
    x: Seq<char>,
    c: char,
    y: Seq<char>,
    keys: Seq<Seq<char>>,
    map: Map<Seq<char>, Seq<char>>,
)
    requires
        forall|q: int| 0 <= q < keys.len() ==> fits_in_memory(#[trigger] keys[q]),
        forall|q: int| 0 <= q < keys.len() ==> !(#[trigger] keys[q]).contains(c) && keys[q].len() > 0,
    ensures
        replaced(x + seq![c] + y, keys, map) == replaced(x, keys, map) + seq![c] + replaced(y, keys, map),
    decreases x.len(),
{
    let t = x + seq![c] + y;
    if x.len() == 0 {
        assert(t =~= seq![c] + y);
        assert forall|q: int| 0 <= q < keys.len() implies !starts_with(t, #[trigger] keys[q]) by {
            if starts_with(t, keys[q]) {
                assert(keys[q][0] == t.take(keys[q].len() as int)[0]);
                assert(keys[q][0] == c);
            }
        }
        lemma_replace_step(t, keys, map, 0);
        assert(t.skip(1) =~= y);
        assert(replaced(x, keys, map) =~= Seq::<char>::empty());
        assert(replaced(x, keys, map) + seq![c] + y =~= seq![c] + y);
        assert(replaced(x, keys, map) + seq![c] + replaced(y, keys, map) =~= seq![c] + replaced(y, keys, map));
    } else {
        // A key that starts `t` lies inside `x`, and starts `x` too, and back.
        assert forall|q: int| 0 <= q < keys.len() implies #[trigger] starts_with(t, keys[q]) == starts_with(x, keys[q]) by {
            let k = keys[q];
            if starts_with(t, k) {
                if k.len() > x.len() {
                    assert(t[x.len() as int] == c);
                    assert(k[x.len() as int] == t.take(k.len() as int)[x.len() as int]);
                    assert(k.contains(c));
                }
                assert(x.take(k.len() as int) =~= t.take(k.len() as int));
            }
            if starts_with(x, k) {
                assert(x.take(k.len() as int) =~= t.take(k.len() as int));
            }
        }
        lemma_best_match_agree(t, x, keys);
        lemma_best_match_is_match(x, keys);
        let b = best_match(x, keys);
        if b is Some && 0 < keys[b->0].len() <= x.len() {
            let n = keys[b->0].len() as int;
            assert(t.skip(n) =~= x.skip(n) + seq![c] + y);
            lemma_replace_concat(x.skip(n), c, y, keys, map);
            assert(replaced(t, keys, map) == map[keys[b->0]] + replaced(t.skip(n), keys, map));
        } else {
            assert(t.skip(1) =~= x.skip(1) + seq![c] + y);
            lemma_replace_concat(x.skip(1), c, y, keys, map);
            assert(t[0] == x[0]);
        }
    }
}

/// Two texts that the same keys start pick the same key.
proof fn lemma_best_match_agree(t: Seq<char>, x: Seq<char>, keys: Seq<Seq<char>>)
    requires
        forall|q: int| 0 <= q < keys.len() ==> #[trigger] starts_with(t, keys[q]) == starts_with(x, keys[q]),
    ensures
        best_match(t, keys) == best_match(x, keys),
    decreases keys.len(),
{
    if keys.len() > 0 {
        let u = keys.drop_last();
        assert forall|q: int| 0 <= q < u.len() implies #[trigger] starts_with(t, u[q]) == starts_with(x, u[q]) by {
            assert(u[q] == keys[q]);
        }
        lemma_best_match_agree(t, x, u);
        assert(starts_with(t, keys[keys.len() - 1]) == starts_with(x, keys[keys.len() - 1]));
    }
}

/// Whether every key is a single character.
pub open spec fn single_char_keys(keys: Seq<Seq<char>>) -> bool {
    forall|j: int| 0 <= j < keys.len() ==> (#[trigger] keys[j]).len() == 1
}

/// What a substitution by single-character keys writes for the character
/// `c`: its image where `c` is a key, `c` itself otherwise.
pub open spec fn char_image(c: char, keys: Seq<Seq<char>>, map: Map<Seq<char>, Seq<char>>) -> Seq<char> {
    if keys.contains(seq![c]) {
        map[seq![c]]
    } else {
        seq![c]
    }
}

/// With single-character keys, the substitution goes character by
/// character.
proof fn lemma_replace_single_step(text: Seq<char>, keys: Seq<Seq<char>>, map: Map<Seq<char>, Seq<char>>)
    requires
        single_char_keys(keys),
        text.len() > 0,
    ensures
        replaced(text, keys, map) == char_image(text[0], keys, map) + replaced(text.skip(1), keys, map),
{
    lemma_best_match_is_match(text, keys);
    lemma_best_match_longest(text, keys);
    let c = text[0];
    let b = best_match(text, keys);
    if b is Some {
        let j = b->0;
        assert(keys[j].len() == 1);
        assert(keys[j] =~= seq![c]);
        assert(keys.contains(seq![c]));
    } else {
        if keys.contains(seq![c]) {
            let j = choose|j: int| 0 <= j < keys.len() && keys[j] == seq![c];
            assert(text.take(1) =~= seq![c]);
            assert(starts_with(text, keys[j]));
        }
    }
}

/// A substitution by single-character keys that maps the keys onto keys is
/// undone by the substitution by its inverse: each key goes to its image
/// and back, every other character stays.
pub proof fn lemma_replace_inverse(
    text: Seq<char>,
    keys: Seq<Seq<char>>,
    map: Map<Seq<char>, Seq<char>>,
    inv: Map<Seq<char>, Seq<char>>,
)
    requires
        single_char_keys(keys),
        forall|j: int| 0 <= j < keys.len() ==> map.contains_key(#[trigger] keys[j]) && keys.contains(map[keys[j]]),
        forall|j: int| 0 <= j < keys.len() ==> inv.contains_key(map[#[trigger] keys[j]]) && inv[map[keys[j]]] == keys[j],
    ensures
        replaced(replaced(text, keys, map), keys, inv) == text,
    decreases text.len(),
{
    if text.len() > 0 {
        let c = text[0];
        let rest = text.skip(1);
        lemma_replace_single_step(text, keys, map);
        lemma_replace_inverse(rest, keys, map, inv);
        let img = char_image(c, keys, map);
        let first = replaced(text, keys, map);
        let tail = replaced(rest, keys, map);
        if keys.contains(seq![c]) {
            let j = choose|j: int| 0 <= j < keys.len() && keys[j] == seq![c];
            let m = map[keys[j]];
            let j2 = choose|j2: int| 0 <= j2 < keys.len() && keys[j2] == m;
            assert(keys[j2].len() == 1);
            assert(img =~= seq![img[0]]);
        }
        assert(img.len() == 1);
        assert(first[0] == img[0]);
        assert(first.skip(1) =~= tail);
        lemma_replace_single_step(first, keys, inv);
        assert(seq![c] + rest =~= text);
    }
}

/// Whether `key` occurs in `text` at position `i`.
fn occurs_at(text: &Vec<char>, i: usize, key: &Vec<char>) -> (r: bool)
    requires
        i <= text.len(),
    ensures
        r == starts_with(text@.skip(i as int), key@),
{
    let ghost rest = text@.skip(i as int);
    if key.len() > text.len() - i {
        return false;
    }
    let mut k: usize = 0;
    while k < key.len()
        invariant
            rest == text@.skip(i as int),
            i + key.len() <= text.len(),
            k <= key.len(),
            forall|q: int| 0 <= q < k ==> rest[q] == key@[q],
        decreases key.len() - k,
    {
        if text[i + k] != key[k] {
            assert(rest.take(key.len() as int)[k as int] != key@[k as int]);
            return false;
        }
        k += 1;
    }
    assert(rest.take(key.len() as int) =~= key@);
    true
}

/// The index of the key that a substitution at position `i` uses, if any.
fn best_key_at(text: &Vec<char>, i: usize, keys: &Vec<Vec<char>>, lens: &Vec<usize>) -> (r: Option<usize>)
    requires
        i <= text.len(),
        lens.len() == keys.len(),
        forall|j: int| 0 <= j < keys.len() ==> lens[j] == byte_len(#[trigger] keys[j]@),
    ensures
        match r {
            Some(j) => best_match(text@.skip(i as int), keys.deep_view()) == Some(j as int),
            None => best_match(text@.skip(i as int), keys.deep_view()) is None,
        },
{
    let ghost rest = text@.skip(i as int);
    let ghost ks = keys.deep_view();
    let mut best: Option<usize> = None;
    let mut j: usize = 0;
    while j < keys.len()
        invariant
            rest == text@.skip(i as int),
            ks == keys.deep_view(),
            i <= text.len(),
            lens.len() == keys.len(),
            forall|q: int| 0 <= q < keys.len() ==> lens[q] == byte_len(#[trigger] keys[q]@),
            j <= keys.len(),
            match best {
                Some(b) => b < j && best_match(rest, ks.take(j as int)) == Some(b as int),
                None => best_match(rest, ks.take(j as int)) is None,
            },
        decreases keys.len() - j,
    {
        let ghost kj = ks.take(j + 1);
        assert(kj.drop_last() =~= ks.take(j as int));
        assert(kj[j as int] == keys[j as int]@);
        let hit = occurs_at(text, i, &keys[j]);
        match best {
            Some(b) => {
                assert(kj[b as int] == keys[b as int]@);
                if hit && lens[b] < lens[j] {
                    best = Some(j);
                }
            },
            None => {
                if hit {
                    best = Some(j);
                }
            },
        }
        j += 1;
    }
    assert(ks.take(keys.len() as int) =~= ks);
    best
}

/// Whether the scan of `text` (see `replaced`) only ever picks keys that are
/// not empty and that `map` has an image for. An empty key would stop the
/// scan from advancing; a key without an image has nothing to be replaced by.
pub open spec fn scan_defined(text: Seq<char>, keys: Seq<Seq<char>>, map: Map<Seq<char>, Seq<char>>) -> bool
    decreases text.len(),
{
    if text.len() == 0 {
        true
    } else {
        let b = best_match(text, keys);
        if b is Some {
            &&& 0 < keys[b->0].len()
            &&& map.contains_key(keys[b->0])
            &&& keys[b->0].len() <= text.len() ==> scan_defined(text.skip(keys[b->0].len() as int), keys, map)
        } else {
            scan_defined(text.skip(1), keys, map)
        }
    }
}

/// Where every key is non-empty and has an image, every scan is defined.
pub proof fn lemma_scan_defined(text: Seq<char>, keys: Seq<Seq<char>>, map: Map<Seq<char>, Seq<char>>)
    requires
        forall|j: int| 0 <= j < keys.len() ==> (#[trigger] keys[j]).len() > 0 && map.contains_key(keys[j]),
    ensures
        scan_defined(text, keys, map),
    decreases text.len(),
{
    if text.len() > 0 {
        lemma_best_match_is_match(text, keys);
        let b = best_match(text, keys);
        if b is Some {
            let n = keys[b->0].len() as int;
            lemma_scan_defined(text.skip(n), keys, map);
        } else {
            lemma_scan_defined(text.skip(1), keys, map);
        }
    }
}

/// Replaces, in one scan from the left, every occurrence of one of `keys` in
/// `text` by its image under `map`. Where several keys start at one
/// position, the longest in bytes wins, and of equally long ones the first
/// in `keys`; text that a replacement produced is never scanned again.
pub fn replace_multiple(text: &str, map: &WordMap, keys: &[String]) -> (out: String)
    requires
        scan_defined(text@, keys.deep_view(), map@),
    ensures
        out@ == replaced(text@, keys.deep_view(), map@),
{
    let tc = chars_of(text);
    let ghost t = tc@;
    let ghost ks = keys.deep_view();
    let mut key_chars: Vec<Vec<char>> = Vec::new();
    let mut lens: Vec<usize> = Vec::new();
    let mut j: usize = 0;
    while j < keys.len()
        invariant
            ks == keys.deep_view(),
            j <= keys.len(),
            key_chars.len() == j,
            lens.len() == j,
            forall|q: int| 0 <= q < j ==> (#[trigger] key_chars[q])@ == keys[q]@,
            forall|q: int| 0 <= q < j ==> lens[q] == byte_len(#[trigger] keys[q]@),
        decreases keys.len() - j,
    {
        key_chars.push(chars_of(keys[j].as_str()));
        lens.push(keys[j].as_str().len());
        j += 1;
    }
    assert forall|q: int| 0 <= q < keys.len() implies key_chars.deep_view()[q] == ks[q] by {
        assert(key_chars.deep_view()[q] =~= key_chars[q]@);
    }
    assert(key_chars.deep_view() =~= ks);
    let mut out = String::new();
    let mut i: usize = 0;
    assert(t.skip(0) =~= t);
    while i < tc.len()
        invariant
            t == tc@,
            t == text@,
            ks == keys.deep_view(),
            key_chars.deep_view() == ks,
            key_chars.len() == keys.len(),
            lens.len() == keys.len(),
            forall|q: int| 0 <= q < keys.len() ==> lens[q] == byte_len(#[trigger] key_chars[q]@),
            i <= tc.len(),
            scan_defined(t.skip(i as int), ks, map@),
            replaced(t, ks, map@) == out@ + replaced(t.skip(i as int), ks, map@),
        decreases tc.len() - i,
    {
        let ghost rest = t.skip(i as int);
        let b = best_key_at(&tc, i, &key_chars, &lens);
        proof {
            lemma_best_match_is_match(rest, ks);
        }
        match b {
            Some(k) => {
                let key = &keys[k];
                assert(ks[k as int] == key@);
                match map.get(key) {
                    Some(image) => {
                        out.append(image.as_str());
                    },
                    None => {},
                }
                let klen = key_chars[k].len();
                assert(rest.skip(klen as int) =~= t.skip(i + klen));
                i += klen;
            },
            None => {
                crate::text::push_char(&mut out, tc[i]);
                assert(rest.skip(1) =~= t.skip(i + 1));
                i += 1;
            },
        }
    }
    assert(t.skip(i as int) =~= Seq::<char>::empty());
    out
}

} // verus!
