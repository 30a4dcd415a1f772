//! Word lists of an alternating group, written like `"(dog cat rabbit)"`:
//! the parentheses around the list are stripped and the rest is split at
//! whitespace.

use vstd::prelude::*;
use crate::text::{chars_of, string_of};

verus! {

/// Whether `c` has the Unicode `White_Space` property: the controls from
/// tab to carriage return, space, next line, no-break space, ogham space
/// mark, the spaces from en quad to hair space, line and paragraph
/// separators, narrow no-break space, medium mathematical space and
/// ideographic space.
pub open spec fn is_white_space(c: char) -> bool {
    let n = c as u32;
    (0x9 <= n <= 0xD) || n == 0x20 || n == 0x85 || n == 0xA0 || n == 0x1680
        || (0x2000 <= n <= 0x200A) || n == 0x2028 || n == 0x2029 || n == 0x202F
        || n == 0x205F || n == 0x3000
}

/// Whether `c` is whitespace, as `char::is_whitespace` answers: the Unicode
/// `White_Space` property.
fn char_is_whitespace(c: char) -> (r: bool)
    ensures
        r == is_white_space(c),
{
    let n = c as u32;
    (0x9 <= n && n <= 0xD) || n == 0x20 || n == 0x85 || n == 0xA0 || n == 0x1680
        || (0x2000 <= n && n <= 0x200A) || n == 0x2028 || n == 0x2029 || n == 0x202F
        || n == 0x205F || n == 0x3000
}

/// The characters stripped around a word list: the grouping parentheses.
pub open spec fn is_paren(c: char) -> bool {
    c == '(' || c == ')'
}

/// `s` without its leading parentheses.
pub open spec fn trim_front(s: Seq<char>) -> Seq<char>
    decreases s.len(),
{
    if s.len() > 0 && is_paren(s[0]) {
        trim_front(s.drop_first())
    } else {
        s
    }
}

/// `s` without its trailing parentheses.
pub open spec fn trim_back(s: Seq<char>) -> Seq<char>
    decreases s.len(),
{
    if s.len() > 0 && is_paren(s.last()) {
        trim_back(s.drop_last())
    } else {
        s
    }
}

/// `s` with the parentheses at both ends stripped.
pub open spec fn trim_parens(s: Seq<char>) -> Seq<char> {
    trim_back(trim_front(s))
}

/// The maximal runs of the characters of `t` that `white` does not mark, in
/// order (`white` holds one mark per character).
pub open spec fn split_marked(t: Seq<char>, white: Seq<bool>) -> Seq<Seq<char>>
    decreases t.len(),
{
    if t.len() == 0 {
        Seq::empty()
    } else {
        let prev = split_marked(t.drop_last(), white.drop_last());
        let c = t.last();
        if white[t.len() - 1] {
            prev
        } else if t.len() >= 2 && !white[t.len() - 2] {
            prev.update(prev.len() - 1, prev.last().push(c))
        } else {
            prev.push(seq![c])
        }
    }
}

/// Which characters of `t` are whitespace.
pub open spec fn white_marks(t: Seq<char>) -> Seq<bool> {
    Seq::new(t.len(), |i: int| is_white_space(t[i]))
}

/// The maximal runs of non-whitespace characters of `t`, in order.
pub open spec fn split_words(t: Seq<char>) -> Seq<Seq<char>> {
    split_marked(t, white_marks(t))
}

/// Splitting a text drops its last character's contribution with it.
proof fn lemma_split_words_unfold(t: Seq<char>)
    requires
        t.len() > 0,
    ensures
        split_marked(t.drop_last(), white_marks(t).drop_last()) == split_words(t.drop_last()),
        white_marks(t)[t.len() - 1] == is_white_space(t.last()),
        t.len() >= 2 ==> white_marks(t)[t.len() - 2] == is_white_space(t[t.len() - 2]),
{
    assert(white_marks(t).drop_last() =~= white_marks(t.drop_last()));
}

/// The words written in a group string such as `"(dog cat rabbit)"`.
pub open spec fn group_words(s: Seq<char>) -> Seq<Seq<char>> {
    split_words(trim_parens(s))
}

/// The words that splitting yields are non-empty and hold no whitespace.
pub proof fn lemma_split_words_clean(t: Seq<char>)
    ensures
        forall|i: int| 0 <= i < split_words(t).len() ==> #[trigger] split_words(t)[i].len() > 0,
        forall|i: int, j: int|
            0 <= i < split_words(t).len() && 0 <= j < split_words(t)[i].len()
                ==> !is_white_space(#[trigger] split_words(t)[i][j]),
        t.len() > 0 && !is_white_space(t.last()) ==> split_words(t).len() > 0,
    decreases t.len(),
{
    if t.len() > 0 {
        let u = t.drop_last();
        lemma_split_words_unfold(t);
        lemma_split_words_clean(u);
        let prev = split_words(u);
        let c = t.last();
        if !is_white_space(c) {
            if t.len() >= 2 && !is_white_space(t[t.len() - 2]) {
                assert(u.last() == t[t.len() - 2]);
                assert(prev.len() > 0);
                let w = prev.last().push(c);
                assert(split_words(t) == prev.update(prev.len() - 1, w));
                assert forall|i: int, j: int|
                    0 <= i < split_words(t).len() && 0 <= j < split_words(t)[i].len()
                        implies !is_white_space(#[trigger] split_words(t)[i][j]) by {
                    if i == prev.len() - 1 {
                        if j < prev.last().len() {
                            assert(split_words(t)[i][j] == prev[i][j]);
                        }
                    } else {
                        assert(split_words(t)[i] == prev[i]);
                    }
                }
            } else {
                assert(split_words(t) == prev.push(seq![c]));
                assert forall|i: int, j: int|
                    0 <= i < split_words(t).len() && 0 <= j < split_words(t)[i].len()
                        implies !is_white_space(#[trigger] split_words(t)[i][j]) by {
                    if i < prev.len() {
                        assert(split_words(t)[i] == prev[i]);
                    }
                }
            }
        }
    }
}

/// `t` without its whitespace characters.
pub open spec fn without_white_space(t: Seq<char>) -> Seq<char>
    decreases t.len(),
{
    if t.len() == 0 {
        Seq::empty()
    } else if is_white_space(t.last()) {
        without_white_space(t.drop_last())
    } else {
        without_white_space(t.drop_last()).push(t.last())
    }
}

/// Splitting loses no character but the whitespace: the words, put
/// together, are the text without its whitespace.
pub proof fn lemma_split_words_keeps_text(t: Seq<char>)
    ensures
        split_words(t).flatten_alt() == without_white_space(t),
    decreases t.len(),
{
    if t.len() > 0 {
        let u = t.drop_last();
        lemma_split_words_unfold(t);
        lemma_split_words_keeps_text(u);
        lemma_split_words_clean(t);
        lemma_split_words_clean(u);
        let prev = split_words(u);
        let c = t.last();
        if !is_white_space(c) {
            if t.len() >= 2 && !is_white_space(t[t.len() - 2]) {
                assert(u.last() == t[t.len() - 2]);
                let w = prev.last().push(c);
                let next = prev.update(prev.len() - 1, w);
                assert(next.drop_last() =~= prev.drop_last());
                assert(next.flatten_alt() == next.drop_last().flatten_alt() + w);
                assert(prev.flatten_alt() == prev.drop_last().flatten_alt() + prev.last());
                assert(next.flatten_alt() =~= prev.flatten_alt().push(c));
            } else {
                let next = prev.push(seq![c]);
                assert(next.drop_last() =~= prev);
                assert(next.flatten_alt() =~= prev.flatten_alt().push(c));
            }
        }
    }
}

/// Every word of a parsed group string is non-empty and holds no
/// whitespace, and the words together are the string, stripped of its outer
/// parentheses, without its whitespace.
pub proof fn lemma_group_words_properties(s: Seq<char>)
    ensures
        forall|i: int| 0 <= i < group_words(s).len() ==> #[trigger] group_words(s)[i].len() > 0,
        forall|i: int, j: int|
            0 <= i < group_words(s).len() && 0 <= j < group_words(s)[i].len()
                ==> !is_white_space(#[trigger] group_words(s)[i][j]),
        group_words(s).flatten_alt() == without_white_space(trim_parens(s)),
{
    lemma_split_words_clean(trim_parens(s));
    lemma_split_words_keeps_text(trim_parens(s));
}

/// The words of `w` joined by single spaces.
pub open spec fn joined(w: Seq<Seq<char>>) -> Seq<char>
    decreases w.len(),
{
    if w.len() == 0 {
        Seq::empty()
    } else if w.len() == 1 {
        w[0]
    } else {
        joined(w.drop_last()) + seq![' '] + w.last()
    }
}

/// The group string of the words `w`: `"("`, the words joined by single
/// spaces, `")"`.
pub open spec fn group_string(w: Seq<Seq<char>>) -> Seq<char> {
    seq!['('] + joined(w) + seq![')']
}

/// A trailing whitespace character adds no word.
proof fn lemma_split_words_trailing_space(t: Seq<char>)
    ensures
        split_words(t.push(' ')) == split_words(t),
{
    let u = t.push(' ');
    lemma_split_words_unfold(u);
    assert(u.drop_last() =~= t);
}

/// A word that follows whitespace (or stands at the start) is split off
/// whole.
proof fn lemma_split_words_append_word(t: Seq<char>, x: Seq<char>)
    requires
        t.len() == 0 || is_white_space(t.last()),
        x.len() > 0,
        forall|j: int| 0 <= j < x.len() ==> !is_white_space(#[trigger] x[j]),
    ensures
        split_words(t + x) == split_words(t).push(x),
    decreases x.len(),
{
    let u = t + x;
    lemma_split_words_unfold(u);
    assert(u.drop_last() =~= t + x.drop_last());
    assert(u.last() == x.last());
    if x.len() == 1 {
        assert(t + x.drop_last() =~= t);
        if t.len() > 0 {
            assert(u[u.len() - 2] == t.last());
        }
        assert(seq![x.last()] =~= x);
    } else {
        lemma_split_words_append_word(t, x.drop_last());
        assert(u[u.len() - 2] == x[x.len() - 2]);
        let prev = split_words(t).push(x.drop_last());
        assert(x.drop_last().push(x.last()) =~= x);
        assert(prev.update(prev.len() - 1, prev.last().push(x.last())) =~= split_words(t).push(x));
    }
}

/// Splitting words joined by single spaces gives the words back.
proof fn lemma_split_joined(w: Seq<Seq<char>>)
    requires
        forall|i: int| 0 <= i < w.len() ==> (#[trigger] w[i]).len() > 0,
        forall|i: int, j: int| 0 <= i < w.len() && 0 <= j < w[i].len() ==> !is_white_space(#[trigger] w[i][j]),
    ensures
        split_words(joined(w)) == w,
    decreases w.len(),
{
    if w.len() == 0 {
        assert(split_words(Seq::<char>::empty()) =~= Seq::<Seq<char>>::empty());
        assert(w =~= Seq::<Seq<char>>::empty());
    } else {
        let x = w.last();
        assert forall|j: int| 0 <= j < x.len() implies !is_white_space(#[trigger] x[j]) by {
            assert(x[j] == w[w.len() - 1][j]);
        }
        if w.len() == 1 {
            lemma_split_words_append_word(Seq::empty(), x);
            assert(Seq::<char>::empty() + x =~= x);
            assert(split_words(Seq::<char>::empty()) =~= Seq::<Seq<char>>::empty());
            assert(w =~= seq![x]);
        } else {
            let v = w.drop_last();
            assert forall|i: int, j: int| 0 <= i < v.len() && 0 <= j < v[i].len()
                implies !is_white_space(#[trigger] v[i][j]) by {
                assert(v[i] == w[i]);
            }
            assert forall|i: int| 0 <= i < v.len() implies (#[trigger] v[i]).len() > 0 by {
                assert(v[i] == w[i]);
            }
            lemma_split_joined(v);
            let t = joined(v).push(' ');
            assert(joined(v) + seq![' '] =~= t);
            lemma_split_words_trailing_space(joined(v));
            lemma_split_words_append_word(t, x);
            assert(v.push(x) =~= w);
        }
    }
}

/// The words joined by spaces begin with the first word and end with the
/// last one.
proof fn lemma_joined_ends(w: Seq<Seq<char>>)
    requires
        w.len() > 0,
        forall|i: int| 0 <= i < w.len() ==> (#[trigger] w[i]).len() > 0,
    ensures
        joined(w).len() > 0,
        joined(w)[0] == w[0][0],
        joined(w).last() == w.last().last(),
    decreases w.len(),
{
    if w.len() > 1 {
        let v = w.drop_last();
        assert forall|i: int| 0 <= i < v.len() implies (#[trigger] v[i]).len() > 0 by {
            assert(v[i] == w[i]);
        }
        lemma_joined_ends(v);
        assert(w[w.len() - 1].len() > 0);
    }
}

/// Parsing the group string of a word list gives the words back, where the
/// words are non-empty, hold no whitespace, and the first does not begin
/// nor the last end with a parenthesis (those would be stripped with the
/// outer ones).
pub proof fn lemma_parse_group_string(w: Seq<Seq<char>>)
    requires
        forall|i: int| 0 <= i < w.len() ==> (#[trigger] w[i]).len() > 0,
        forall|i: int, j: int| 0 <= i < w.len() && 0 <= j < w[i].len() ==> !is_white_space(#[trigger] w[i][j]),
        w.len() > 0 ==> !is_paren(w[0][0]) && !is_paren(w.last().last()),
    ensures
        group_words(group_string(w)) == w,
{
    let j = joined(w);
    let s = group_string(w);
    lemma_split_joined(w);
    assert(s.drop_first() =~= j.push(')'));
    if w.len() == 0 {
        assert(j =~= Seq::<char>::empty());
        let e = s.drop_first().drop_first();
        assert(e =~= Seq::<char>::empty());
        assert(trim_front(e) == e);
        assert(trim_front(s.drop_first()) == trim_front(e));
        assert(trim_front(s) == trim_front(s.drop_first()));
    } else {
        lemma_joined_ends(w);
        assert(j.push(')')[0] == j[0]);
        assert(trim_front(j.push(')')) == j.push(')'));
        assert(trim_front(s) == trim_front(s.drop_first()));
        assert(j.push(')').drop_last() =~= j);
        assert(trim_back(j.push(')')) == trim_back(j));
        assert(trim_back(j) == j);
    }
}

/// Splits a group string into its words: the parentheses at both ends are
/// stripped, then the text is split at whitespace.
pub fn parse_alternating_group_string(input: &str) -> (words: Vec<String>)
    ensures
        words.deep_view() == group_words(input@),
{
    let cs = chars_of(input);
    let n = cs.len();
    let ghost s = cs@;
    let mut lo: usize = 0;
    assert(s.subrange(0, n as int) =~= s);
    while lo < n && (cs[lo] == '(' || cs[lo] == ')')
        invariant
            n == s.len(),
            cs@ == s,
            lo <= n,
            trim_front(s) == trim_front(s.subrange(lo as int, n as int)),
        decreases n - lo,
    {
        assert(s.subrange(lo as int, n as int).drop_first() =~= s.subrange(lo + 1, n as int));
        lo += 1;
    }
    let ghost front = s.subrange(lo as int, n as int);
    assert(trim_front(s) == front);
    let mut hi: usize = n;
    while hi > lo && (cs[hi - 1] == '(' || cs[hi - 1] == ')')
        invariant
            n == s.len(),
            cs@ == s,
            lo <= hi <= n,
            front == s.subrange(lo as int, n as int),
            trim_back(front) == trim_back(s.subrange(lo as int, hi as int)),
        decreases hi - lo,
    {
        assert(s.subrange(lo as int, hi as int).drop_last() =~= s.subrange(lo as int, hi - 1));
        hi -= 1;
    }
    let ghost t = s.subrange(lo as int, hi as int);
    assert(trim_parens(s) == t);
    let mut seg: Vec<char> = Vec::new();
    let mut marks: Vec<bool> = Vec::new();
    let mut i: usize = lo;
    while i < hi
        invariant
            n == s.len(),
            cs@ == s,
            lo <= i <= hi <= n,
            t == s.subrange(lo as int, hi as int),
            seg@ == t.take(i - lo),
            marks@ == white_marks(t.take(i - lo)),
        decreases hi - i,
    {
        let w = char_is_whitespace(cs[i]);
        seg.push(cs[i]);
        marks.push(w);
        assert(seg@ =~= t.take(i + 1 - lo));
        assert(marks@ =~= white_marks(t.take(i + 1 - lo)));
        i += 1;
    }
    assert(t.take(hi - lo) =~= t);
    split_marked_words(&seg, &marks)
}

/// Splits `cs` at the characters that `white` marks: the maximal runs of
/// unmarked characters, in order.
pub fn split_marked_words(cs: &[char], white: &[bool]) -> (words: Vec<String>)
    requires
        cs.len() == white.len(),
    ensures
        words.deep_view() == split_marked(cs@, white@),
{
    let ghost t = cs@;
    let mut words: Vec<String> = Vec::new();
    let mut cur: Vec<char> = Vec::new();
    let mut in_word = false;
    let mut i: usize = 0;
    while i < cs.len()
        invariant
            t == cs@,
            cs.len() == white.len(),
            i <= cs.len(),
            in_word == (i > 0 && !white@[i - 1]),
            in_word ==> split_marked(t.take(i as int), white@.take(i as int)) == words.deep_view().push(cur@),
            !in_word ==> split_marked(t.take(i as int), white@.take(i as int)) == words.deep_view(),
        decreases cs.len() - i,
    {
        let c = cs[i];
        let ghost p = t.take(i as int);
        let ghost q = t.take(i + 1);
        assert(q.drop_last() =~= p);
        assert(white@.take(i + 1).drop_last() =~= white@.take(i as int));
        assert(q.last() == c);
        if white[i] {
            if in_word {
                let w = string_of(&cur);
                words.push(w);
                cur = Vec::new();
            }
            in_word = false;
        } else {
            if in_word {
                cur.push(c);
            } else {
                cur = Vec::new();
                cur.push(c);
                in_word = true;
            }
        }
        i += 1;
    }
    assert(t.take(cs.len() as int) =~= t);
    assert(white@.take(cs.len() as int) =~= white@);
    if in_word {
        let w = string_of(&cur);
        words.push(w);
    }
    words
}

} // verus!
