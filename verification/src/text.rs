//! Text as a sequence of characters: searching, trimming, cutting, joining.

use vstd::prelude::*;

verus! {

// ── Searching ──

/// Whether `word` stands in `text` at character position `i`.
pub open spec fn occurs_at(text: Seq<char>, word: Seq<char>, i: int) -> bool {
    0 <= i && i + word.len() <= text.len() && text.subrange(i, i + word.len()) == word
}

/// Whether `word` stands anywhere in `text`.
pub open spec fn contains_text(text: Seq<char>, word: Seq<char>) -> bool {
    exists|i: int| #[trigger] occurs_at(text, word, i)
}

/// The first position from `i` on at which `word` stands in `text`.
pub open spec fn first_from(text: Seq<char>, word: Seq<char>, i: int) -> Option<int>
    decreases text.len() + 1 - i,
{
    if i < 0 || i + word.len() > text.len() {
        None
    } else if occurs_at(text, word, i) {
        Some(i)
    } else {
        first_from(text, word, i + 1)
    }
}

/// The first position at which `word` stands in `text`.
pub open spec fn first_occurrence(text: Seq<char>, word: Seq<char>) -> Option<int> {
    first_from(text, word, 0)
}

/// `first_from` finds an occurrence if there is one, and none before it.
pub proof fn lemma_first_from(text: Seq<char>, word: Seq<char>, i: int)
    requires
        0 <= i,
    ensures
        match first_from(text, word, i) {
            Some(k) => i <= k && occurs_at(text, word, k) && forall|j: int|
                i <= j < k ==> !#[trigger] occurs_at(text, word, j),
            None => forall|j: int| i <= j ==> !#[trigger] occurs_at(text, word, j),
        },
    decreases text.len() + 1 - i,
{
    if i + word.len() <= text.len() && !occurs_at(text, word, i) {
        lemma_first_from(text, word, i + 1);
    }
}

/// A text contains a word exactly if the word has a first occurrence in it.
pub proof fn lemma_contains_is_first(text: Seq<char>, word: Seq<char>)
    ensures
        contains_text(text, word) <==> first_occurrence(text, word) is Some,
{
    lemma_first_from(text, word, 0);
    if contains_text(text, word) {
        let i = choose|i: int| occurs_at(text, word, i);
        assert(occurs_at(text, word, i));
    }
}

/// The characters of a string.
pub fn chars_of(text: &str) -> (chars: Vec<char>)
    ensures
        chars@ == text@,
{
    let mut chars: Vec<char> = Vec::new();
    for c in iter: text.chars()
        invariant
            chars@ == text@.take(iter.index() as int),
            iter.seq() == text@,
    {
        chars.push(c);
        assert(text@.take(iter.index() + 1) == text@.take(iter.index() as int).push(c));
    }
    assert(text@.take(text@.len() as int) == text@);
    chars
}

/// Whether `word` stands in `text` at position `i`.
fn stands_at(text: &Vec<char>, word: &Vec<char>, i: usize) -> (hit: bool)
    ensures
        hit == occurs_at(text@, word@, i as int),
{
    if word.len() > text.len() || i > text.len() - word.len() {
        return false;
    }
    let mut k: usize = 0;
    while k < word.len()
        invariant
            i + word.len() <= text.len(),
            k <= word.len(),
            forall|j: int| 0 <= j < k ==> text@[i + j] == word@[j],
        decreases word.len() - k,
    {
        if text[i + k] != word[k] {
            proof {
                if occurs_at(text@, word@, i as int) {
                    assert(text@.subrange(i as int, i + word@.len())[k as int] == word@[k as int]);
                }
            }
            return false;
        }
        k = k + 1;
    }
    assert(text@.subrange(i as int, i + word@.len()) == word@);
    true
}

/// The first position from `start` on at which `word` stands in `text`.
fn find_from(text: &Vec<char>, word: &Vec<char>, start: usize) -> (found: Option<usize>)
    ensures
        match found {
            Some(i) => first_from(text@, word@, start as int) == Some(i as int),
            None => first_from(text@, word@, start as int) is None,
        },
{
    if word.len() > text.len() {
        return None;
    }
    let last: usize = text.len() - word.len();
    let mut i: usize = start;
    while i <= last
        invariant
            last + word.len() == text.len(),
            first_from(text@, word@, start as int) == first_from(text@, word@, i as int),
        decreases text.len() + 1 - i,
    {
        if stands_at(text, word, i) {
            return Some(i);
        }
        if i == last {
            assert(first_from(text@, word@, i + 1) is None);
            return None;
        }
        i = i + 1;
    }
    None
}

/// The first position, counted in characters, at which `word` stands in `text`.
pub fn find(text: &str, word: &str) -> (found: Option<usize>)
    ensures
        match found {
            Some(i) => first_occurrence(text@, word@) == Some(i as int),
            None => first_occurrence(text@, word@) is None,
        },
{
    let t = chars_of(text);
    let w = chars_of(word);
    find_from(&t, &w, 0)
}

/// Whether `word` stands anywhere in `text`.
pub fn contains(text: &str, word: &str) -> (hit: bool)
    ensures
        hit == contains_text(text@, word@),
{
    proof {
        lemma_contains_is_first(text@, word@);
    }
    find(text, word).is_some()
}

/// Whether two texts are the same.
pub fn same_text(a: &str, b: &str) -> (same: bool)
    ensures
        same == (a@ == b@),
{
    let x = chars_of(a);
    let y = chars_of(b);
    if x.len() != y.len() {
        return false;
    }
    let same = stands_at(&x, &y, 0);
    assert(x@.subrange(0, y@.len() as int) == x@);
    same
}

/// Whether `text` begins with `prefix`.
pub open spec fn begins_with(text: Seq<char>, prefix: Seq<char>) -> bool {
    occurs_at(text, prefix, 0)
}

/// Whether `text` begins with `prefix`.
pub fn starts_with(text: &str, prefix: &str) -> (hit: bool)
    ensures
        hit == begins_with(text@, prefix@),
{
    let t = chars_of(text);
    let p = chars_of(prefix);
    stands_at(&t, &p, 0)
}

// ── Lists of texts ──

/// The texts of a list of strings.
pub open spec fn texts(list: Seq<String>) -> Seq<Seq<char>> {
    list.map_values(|s: String| s@)
}

/// Whether one of `words` stands in `text`.
pub open spec fn contains_any(text: Seq<char>, words: Seq<Seq<char>>) -> bool {
    exists|i: int| 0 <= i < words.len() && contains_text(text, #[trigger] words[i])
}

/// Whether there are words and each of them stands in `text`.
pub open spec fn contains_all(text: Seq<char>, words: Seq<Seq<char>>) -> bool {
    words.len() > 0 && forall|i: int|
        0 <= i < words.len() ==> contains_text(text, #[trigger] words[i])
}

/// Whether one of `words` stands in `text`.
pub fn has_any(text: &str, words: &Vec<String>) -> (hit: bool)
    ensures
        hit == contains_any(text@, texts(words@)),
{
    let mut i: usize = 0;
    while i < words.len()
        invariant
            i <= words.len(),
            forall|j: int| 0 <= j < i ==> !contains_text(text@, #[trigger] texts(words@)[j]),
        decreases words.len() - i,
    {
        if contains(text, words[i].as_str()) {
            assert(contains_text(text@, texts(words@)[i as int]));
            return true;
        }
        i = i + 1;
    }
    false
}

/// Whether there are words and each of them stands in `text`.
pub fn has_all(text: &str, words: &Vec<String>) -> (hit: bool)
    ensures
        hit == contains_all(text@, texts(words@)),
{
    let mut i: usize = 0;
    while i < words.len()
        invariant
            i <= words.len(),
            forall|j: int| 0 <= j < i ==> contains_text(text@, #[trigger] texts(words@)[j]),
        decreases words.len() - i,
    {
        if !contains(text, words[i].as_str()) {
            assert(!contains_text(text@, texts(words@)[i as int]));
            return false;
        }
        i = i + 1;
    }
    words.len() > 0
}

/// Whether `text` is one of the texts of the list.
pub fn listed(list: &Vec<String>, text: &str) -> (hit: bool)
    ensures
        hit == texts(list@).contains(text@),
{
    let mut i: usize = 0;
    while i < list.len()
        invariant
            i <= list.len(),
            forall|j: int| 0 <= j < i ==> #[trigger] texts(list@)[j] != text@,
        decreases list.len() - i,
    {
        if same_text(list[i].as_str(), text) {
            assert(texts(list@)[i as int] == text@);
            return true;
        }
        i = i + 1;
    }
    false
}

/// The texts of a list with `separator` between each two.
pub open spec fn joined(list: Seq<Seq<char>>, separator: Seq<char>) -> Seq<char>
    decreases list.len(),
{
    if list.len() == 0 {
        Seq::empty()
    } else if list.len() == 1 {
        list[0]
    } else {
        joined(list.drop_last(), separator) + separator + list.last()
    }
}

/// The texts of a list with `separator` between each two.
pub fn join(list: &Vec<String>, separator: &str) -> (all: String)
    ensures
        all@ == joined(texts(list@), separator@),
{
    let mut all = String::new();
    let mut i: usize = 0;
    let ghost seen = texts(list@);
    while i < list.len()
        invariant
            i <= list.len(),
            seen == texts(list@),
            all@ == joined(seen.take(i as int), separator@),
        decreases list.len() - i,
    {
        if i > 0 {
            all.append(separator);
        }
        all.append(list[i].as_str());
        proof {
            let next = seen.take(i + 1);
            assert(next.drop_last() == seen.take(i as int));
            assert(next.last() == list@[i as int]@);
        }
        i = i + 1;
    }
    assert(seen.take(list.len() as int) == seen);
    all
}

// ── Cutting ──

/// At most the first `n` characters of a text.
pub open spec fn first_chars(text: Seq<char>, n: int) -> Seq<char> {
    if text.len() <= n {
        text
    } else {
        text.take(n)
    }
}

/// The characters of `text` from `from` up to, but without, `to`.
pub fn cut(text: &str, from: usize, to: usize) -> (part: String)
    requires
        from <= to <= text@.len(),
    ensures
        part@ == text@.subrange(from as int, to as int),
{
    text.substring_char(from, to).to_owned()
}

/// At most the first `n` characters of a text.
pub fn take_chars(text: &str, n: usize) -> (part: String)
    ensures
        part@ == first_chars(text@, n as int),
{
    if text.unicode_len() <= n {
        text.to_owned()
    } else {
        cut(text, 0, n)
    }
}

// ── Trimming ──

/// Whether a character has the Unicode property White_Space.
pub open spec fn is_white_space(c: char) -> bool {
    ||| '\u{9}' <= c <= '\u{d}'
    ||| c == '\u{20}'
    ||| c == '\u{85}'
    ||| c == '\u{a0}'
    ||| c == '\u{1680}'
    ||| '\u{2000}' <= c <= '\u{200a}'
    ||| c == '\u{2028}'
    ||| c == '\u{2029}'
    ||| c == '\u{202f}'
    ||| c == '\u{205f}'
    ||| c == '\u{3000}'
}

/// Whether a character has the Unicode property White_Space.
pub fn white_space(c: char) -> (hit: bool)
    ensures
        hit == is_white_space(c),
{
    ('\u{9}' <= c && c <= '\u{d}') || c == '\u{20}' || c == '\u{85}' || c == '\u{a0}' || c
        == '\u{1680}' || ('\u{2000}' <= c && c <= '\u{200a}') || c == '\u{2028}' || c
        == '\u{2029}' || c == '\u{202f}' || c == '\u{205f}' || c == '\u{3000}'
}

/// A text without the leading characters that satisfy `drop`.
pub open spec fn without_leading(text: Seq<char>, drop: spec_fn(char) -> bool) -> Seq<char>
    decreases text.len(),
{
    if text.len() > 0 && drop(text[0]) {
        without_leading(text.drop_first(), drop)
    } else {
        text
    }
}

/// A text without the trailing characters that satisfy `drop`.
pub open spec fn without_trailing(text: Seq<char>, drop: spec_fn(char) -> bool) -> Seq<char>
    decreases text.len(),
{
    if text.len() > 0 && drop(text.last()) {
        without_trailing(text.drop_last(), drop)
    } else {
        text
    }
}

/// A text without white space at either end.
pub open spec fn trimmed(text: Seq<char>) -> Seq<char> {
    let blank = |c: char| is_white_space(c);
    without_trailing(without_leading(text, blank), blank)
}

/// Dropping leading or trailing characters leaves a text that is no longer.
pub proof fn lemma_without_len(text: Seq<char>, drop: spec_fn(char) -> bool)
    ensures
        without_leading(text, drop).len() <= text.len(),
        without_trailing(text, drop).len() <= text.len(),
    decreases text.len(),
{
    if text.len() > 0 {
        lemma_without_len(text.drop_first(), drop);
        lemma_without_len(text.drop_last(), drop);
    }
}

/// A trimmed text is no longer than the text.
pub proof fn lemma_trimmed_len(text: Seq<char>)
    ensures
        trimmed(text).len() <= text.len(),
{
    let blank = |c: char| is_white_space(c);
    lemma_without_len(text, blank);
    lemma_without_len(without_leading(text, blank), blank);
}

/// A text without white space at either end.
pub fn trim(text: &str) -> (part: String)
    ensures
        part@ == trimmed(text@),
{
    let chars = chars_of(text);
    let ghost blank = |c: char| is_white_space(c);
    let mut from: usize = 0;
    assert(text@.skip(0) == text@);
    while from < chars.len() && white_space(chars[from])
        invariant
            from <= chars.len(),
            chars@ == text@,
            blank == (|c: char| is_white_space(c)),
            without_leading(text@, blank) == without_leading(text@.skip(from as int), blank),
        decreases chars.len() - from,
    {
        assert(text@.skip(from as int).drop_first() == text@.skip(from + 1));
        from = from + 1;
    }
    let ghost rest = text@.skip(from as int);
    assert(without_leading(text@, blank) == rest);
    let mut to: usize = chars.len();
    assert(text@.subrange(from as int, to as int) == rest);
    while to > from && white_space(chars[to - 1])
        invariant
            from <= to <= chars.len(),
            chars@ == text@,
            blank == (|c: char| is_white_space(c)),
            without_trailing(rest, blank) == without_trailing(
                text@.subrange(from as int, to as int),
                blank,
            ),
        decreases to - from,
    {
        assert(text@.subrange(from as int, to as int).drop_last() == text@.subrange(
            from as int,
            to - 1,
        ));
        to = to - 1;
    }
    cut(text, from, to)
}

/// A text without its leading characters `c`.
pub fn drop_leading(text: &str, c: char) -> (part: String)
    ensures
        part@ == without_leading(text@, |x: char| x == c),
{
    let chars = chars_of(text);
    let ghost drop = |x: char| x == c;
    let mut from: usize = 0;
    assert(text@.skip(0) == text@);
    while from < chars.len() && chars[from] == c
        invariant
            from <= chars.len(),
            chars@ == text@,
            drop == (|x: char| x == c),
            without_leading(text@, drop) == without_leading(text@.skip(from as int), drop),
        decreases chars.len() - from,
    {
        assert(text@.skip(from as int).drop_first() == text@.skip(from + 1));
        from = from + 1;
    }
    cut(text, from, chars.len())
}

/// A text without its trailing characters `c`.
pub fn drop_trailing(text: &str, c: char) -> (part: String)
    ensures
        part@ == without_trailing(text@, |x: char| x == c),
{
    let chars = chars_of(text);
    let ghost drop = |x: char| x == c;
    let mut to: usize = chars.len();
    assert(text@.take(to as int) == text@);
    while to > 0 && chars[to - 1] == c
        invariant
            to <= chars.len(),
            chars@ == text@,
            drop == (|x: char| x == c),
            without_trailing(text@, drop) == without_trailing(text@.take(to as int), drop),
        decreases to,
    {
        assert(text@.take(to as int).drop_last() == text@.take(to - 1));
        to = to - 1;
    }
    cut(text, 0, to)
}

// ── Splitting ──

/// The pieces of a text between the characters `c`. There is always at least one.
pub open spec fn pieces(text: Seq<char>, c: char) -> Seq<Seq<char>>
    decreases text.len(),
{
    if text.len() == 0 {
        seq![Seq::empty()]
    } else {
        let before = pieces(text.drop_last(), c);
        if text.last() == c {
            before.push(Seq::empty())
        } else {
            before.drop_last().push(before.last().push(text.last()))
        }
    }
}

/// There is always at least one piece.
pub proof fn lemma_pieces_len(text: Seq<char>, c: char)
    ensures
        pieces(text, c).len() > 0,
    decreases text.len(),
{
    if text.len() > 0 {
        lemma_pieces_len(text.drop_last(), c);
    }
}

/// The pieces of a text, put together again, are the text.
pub proof fn pieces_make_up_the_text(text: Seq<char>, c: char)
    ensures
        joined(pieces(text, c), seq![c]) == text,
    decreases text.len(),
{
    lemma_pieces_len(text, c);
    if text.len() > 0 {
        let before = pieces(text.drop_last(), c);
        pieces_make_up_the_text(text.drop_last(), c);
        lemma_pieces_len(text.drop_last(), c);
        let after = pieces(text, c);
        if text.last() == c {
            assert(after.drop_last() == before);
            assert(joined(after, seq![c]) == joined(before, seq![c]) + seq![c] + Seq::empty());
            assert(joined(after, seq![c]) == text);
        } else {
            assert(after.drop_last() == before.drop_last());
            assert(after.last() == before.last().push(text.last()));
            assert(joined(after, seq![c]) == joined(before, seq![c]).push(text.last()));
        }
        assert(text == text.drop_last().push(text.last()));
    }
}

/// The pieces of a text between the characters `c`.
pub fn split(text: &str, c: char) -> (list: Vec<String>)
    ensures
        texts(list@) == pieces(text@, c),
{
    let chars = chars_of(text);
    let mut list: Vec<String> = Vec::new();
    let mut from: usize = 0;
    let mut i: usize = 0;
    assert(text@.take(0) == Seq::<char>::empty());
    assert(text@.subrange(0, 0) == Seq::<char>::empty());
    assert(pieces(text@.take(0), c) == texts(list@).push(text@.subrange(0, 0)));
    while i < chars.len()
        invariant
            from <= i <= chars.len(),
            chars@ == text@,
            pieces(text@.take(i as int), c) == texts(list@).push(
                text@.subrange(from as int, i as int),
            ),
        decreases chars.len() - i,
    {
        let ghost done = texts(list@);
        let ghost open = text@.subrange(from as int, i as int);
        let ghost next = text@.take(i + 1);
        assert(next.drop_last() == text@.take(i as int));
        assert(next.last() == chars@[i as int]);
        assert(done.push(open).drop_last() == done);
        if chars[i] == c {
            let ghost before = list@;
            let piece = cut(text, from, i);
            list.push(piece);
            assert(texts(list@) == texts(before).push(open));
            from = i + 1;
            assert(text@.subrange(i + 1, i + 1) == Seq::<char>::empty());
        } else {
            assert(text@.subrange(from as int, i + 1) == open.push(chars@[i as int]));
        }
        i = i + 1;
    }
    assert(text@.take(i as int) == text@);
    let ghost before = list@;
    let piece = cut(text, from, i);
    list.push(piece);
    assert(texts(list@) == texts(before).push(piece@));
    list
}

// ── Comparing ──

/// Whether a text comes before another by their first different character, or is a proper
/// beginning of it.
pub open spec fn comes_before(a: Seq<char>, b: Seq<char>) -> bool
    decreases a.len(),
{
    if b.len() == 0 {
        false
    } else if a.len() == 0 {
        true
    } else if a[0] == b[0] {
        comes_before(a.drop_first(), b.drop_first())
    } else {
        a[0] < b[0]
    }
}

/// Of two texts one comes before the other, or they are the same.
pub proof fn texts_are_ordered(a: Seq<char>, b: Seq<char>)
    ensures
        !(comes_before(a, b) && comes_before(b, a)),
        comes_before(a, b) || comes_before(b, a) || a == b,
        a == b ==> !comes_before(a, b),
    decreases a.len(),
{
    if a.len() == 0 || b.len() == 0 {
        if a.len() == 0 && b.len() == 0 {
            assert(a == b);
        }
    } else if a[0] == b[0] {
        texts_are_ordered(a.drop_first(), b.drop_first());
        if a.drop_first() == b.drop_first() {
            assert(a == seq![a[0]] + a.drop_first());
            assert(b == seq![b[0]] + b.drop_first());
        }
    }
}

/// A text that comes before one that is not after a third comes before the third.
pub proof fn order_is_transitive(a: Seq<char>, b: Seq<char>, c: Seq<char>)
    requires
        comes_before(a, b),
        !comes_before(c, b),
    ensures
        comes_before(a, c),
    decreases a.len(),
{
    if a.len() > 0 && b.len() > 0 && c.len() > 0 && a[0] == b[0] && b[0] == c[0] {
        order_is_transitive(a.drop_first(), b.drop_first(), c.drop_first());
    }
}

/// Whether a text comes before another.
pub fn precedes(a: &str, b: &str) -> (hit: bool)
    ensures
        hit == comes_before(a@, b@),
{
    let x = chars_of(a);
    let y = chars_of(b);
    let mut i: usize = 0;
    assert(a@.skip(0) == a@);
    assert(b@.skip(0) == b@);
    while i < x.len() && i < y.len()
        invariant
            i <= x.len(),
            i <= y.len(),
            x@ == a@,
            y@ == b@,
            comes_before(a@, b@) == comes_before(a@.skip(i as int), b@.skip(i as int)),
        decreases x.len() - i,
    {
        assert(a@.skip(i as int)[0] == x@[i as int]);
        assert(b@.skip(i as int)[0] == y@[i as int]);
        assert(a@.skip(i as int).drop_first() == a@.skip(i + 1));
        assert(b@.skip(i as int).drop_first() == b@.skip(i + 1));
        if x[i] != y[i] {
            return x[i] < y[i];
        }
        i = i + 1;
    }
    i < y.len()
}

// ── Laws ──

/// A word stands at a place exactly where each of its characters does.
pub proof fn a_word_stands_by_its_characters(text: Seq<char>, word: Seq<char>, i: int)
    ensures
        occurs_at(text, word, i) <==> 0 <= i && i + word.len() <= text.len() && forall|k: int|
            0 <= k < word.len() ==> text[i + k] == #[trigger] word[k],
{
    if occurs_at(text, word, i) {
        assert forall|k: int| 0 <= k < word.len() implies text[i + k] == #[trigger] word[k] by {
            assert(text.subrange(i, i + word.len())[k] == word[k]);
        }
    } else if 0 <= i && i + word.len() <= text.len() && forall|k: int|
        0 <= k < word.len() ==> text[i + k] == #[trigger] word[k] {
        assert(text.subrange(i, i + word.len()) =~= word);
    }
}

/// A text contains a word that is written in it, whatever stands around the word; and it begins
/// with a word that nothing stands before.
pub proof fn a_written_word_is_contained(before: Seq<char>, word: Seq<char>, after: Seq<char>)
    ensures
        contains_text(before + word + after, word),
        begins_with(word + after, word),
{
    let text = before + word + after;
    assert(text.subrange(before.len() as int, (before.len() + word.len()) as int) =~= word);
    assert(occurs_at(text, word, before.len() as int));
    assert((word + after).subrange(0, word.len() as int) =~= word);
}

/// A word that a text contains is written in it: something stands before it and something behind
/// it, and together they are the text. Nothing stands before a word that the text begins with.
pub proof fn a_contained_word_is_written(text: Seq<char>, word: Seq<char>)
    ensures
        contains_text(text, word) ==> exists|before: Seq<char>, after: Seq<char>|
            text == #[trigger] (before + word + after),
        begins_with(text, word) ==> text == word + text.skip(word.len() as int),
{
    if contains_text(text, word) {
        let i = choose|i: int| occurs_at(text, word, i);
        let before = text.take(i);
        let after = text.skip(i + word.len());
        assert(text =~= before + word + after) by {
            assert(text.subrange(i, i + word.len()) == word);
        }
    }
    if begins_with(text, word) {
        assert(text =~= word + text.skip(word.len() as int)) by {
            assert(text.subrange(0, word.len() as int) == word);
        }
    }
}

/// A word that a part of a text contains, the whole text contains.
pub proof fn a_longer_text_contains_no_less(
    before: Seq<char>,
    part: Seq<char>,
    after: Seq<char>,
    word: Seq<char>,
)
    requires
        contains_text(part, word),
    ensures
        contains_text(before + part + after, word),
{
    let i = choose|i: int| occurs_at(part, word, i);
    let text = before + part + after;
    assert(text.subrange(before.len() + i, before.len() + i + word.len()) =~= part.subrange(
        i,
        i + word.len(),
    ));
    assert(occurs_at(text, word, before.len() + i));
}

/// One of some words, or all of them, are looked for one by one: of one word there is no
/// difference, of two lists it does not matter where the one ends and the other begins, and of no
/// words none stands in a text.
pub proof fn words_are_looked_for_one_by_one(
    text: Seq<char>,
    word: Seq<char>,
    a: Seq<Seq<char>>,
    b: Seq<Seq<char>>,
)
    ensures
        !contains_any(text, Seq::empty()),
        !contains_all(text, Seq::empty()),
        contains_any(text, seq![word]) == contains_text(text, word),
        contains_all(text, seq![word]) == contains_text(text, word),
        contains_any(text, a + b) == (contains_any(text, a) || contains_any(text, b)),
        a.len() > 0 && b.len() > 0 ==> contains_all(text, a + b) == (contains_all(text, a)
            && contains_all(text, b)),
{
    assert(seq![word][0] == word);
    if contains_any(text, a) {
        let i = choose|i: int| 0 <= i < a.len() && contains_text(text, #[trigger] a[i]);
        assert((a + b)[i] == a[i]);
    }
    if contains_any(text, b) {
        let i = choose|i: int| 0 <= i < b.len() && contains_text(text, #[trigger] b[i]);
        assert((a + b)[a.len() + i] == b[i]);
    }
    if contains_any(text, a + b) {
        let i = choose|i: int| 0 <= i < (a + b).len() && contains_text(text, #[trigger] (a + b)[i]);
        if i < a.len() {
            assert(contains_text(text, a[i]));
        } else {
            assert(contains_text(text, b[i - a.len()]));
        }
    }
    if contains_all(text, a + b) {
        assert forall|i: int| 0 <= i < a.len() implies contains_text(text, #[trigger] a[i]) by {
            assert((a + b)[i] == a[i]);
        }
        assert forall|i: int| 0 <= i < b.len() implies contains_text(text, #[trigger] b[i]) by {
            assert((a + b)[a.len() + i] == b[i]);
        }
    }
}

/// Lists of texts are joined as their parts are, with one more separator between these.
pub proof fn parts_of_a_list_are_joined(a: Seq<Seq<char>>, b: Seq<Seq<char>>, separator: Seq<char>)
    ensures
        joined(Seq::empty(), separator) == Seq::<char>::empty(),
        a.len() == 1 ==> joined(a, separator) == a[0],
        a.len() > 0 && b.len() > 0 ==> joined(a + b, separator) == joined(a, separator)
            + separator + joined(b, separator),
    decreases b.len(),
{
    if a.len() > 0 && b.len() > 0 {
        let all = a + b;
        assert(all.drop_last() =~= a + b.drop_last());
        assert(all.last() == b.last());
        if b.len() == 1 {
            assert(a + b.drop_last() =~= a);
        } else {
            parts_of_a_list_are_joined(a, b.drop_last(), separator);
            assert(joined(all, separator) =~= joined(a, separator) + separator + joined(
                b,
                separator,
            ));
        }
    }
}

/// The first characters of a text are a beginning of it, as many as are asked for or as there are.
pub proof fn the_first_characters_begin_the_text(text: Seq<char>, n: int, i: int)
    requires
        0 <= n,
    ensures
        first_chars(text, n).len() == if text.len() < n {
            text.len() as int
        } else {
            n
        },
        0 <= i < first_chars(text, n).len() ==> first_chars(text, n)[i] == text[i],
{
}

/// Dropping characters at an end takes those that are to go and stops at the first that stays.
pub proof fn dropping_stops_at_what_stays(
    gone: Seq<char>,
    kept: Seq<char>,
    drop: spec_fn(char) -> bool,
)
    requires
        forall|i: int| 0 <= i < gone.len() ==> drop(#[trigger] gone[i]),
    ensures
        kept.len() == 0 || !drop(kept[0]) ==> without_leading(gone + kept, drop) == kept,
        kept.len() == 0 || !drop(kept.last()) ==> without_trailing(kept + gone, drop) == kept,
    decreases gone.len(),
{
    if gone.len() == 0 {
        assert(gone + kept =~= kept);
        assert(kept + gone =~= kept);
    } else {
        let fewer = gone.drop_first();
        assert forall|i: int| 0 <= i < fewer.len() implies drop(#[trigger] fewer[i]) by {
            assert(fewer[i] == gone[i + 1]);
        }
        dropping_stops_at_what_stays(fewer, kept, drop);
        assert((gone + kept).drop_first() =~= fewer + kept);
        assert((gone + kept)[0] == gone[0]);
        let less = gone.drop_last();
        assert forall|i: int| 0 <= i < less.len() implies drop(#[trigger] less[i]) by {
            assert(less[i] == gone[i]);
        }
        dropping_stops_at_what_stays(less, kept, drop);
        assert((kept + gone).drop_last() =~= kept + less);
        assert((kept + gone).last() == gone[gone.len() - 1]);
    }
}

/// Trimming takes the white space around a text and nothing of the text.
pub proof fn trimming_takes_the_white_space_around(
    before: Seq<char>,
    core: Seq<char>,
    after: Seq<char>,
)
    requires
        forall|i: int| 0 <= i < before.len() ==> is_white_space(#[trigger] before[i]),
        forall|i: int| 0 <= i < after.len() ==> is_white_space(#[trigger] after[i]),
        core.len() > 0 ==> !is_white_space(core[0]) && !is_white_space(core.last()),
    ensures
        trimmed(before + core + after) == core,
{
    let blank = |c: char| is_white_space(c);
    if core.len() == 0 {
        let all = before + after;
        assert(before + core + after =~= all + core);
        assert forall|i: int| 0 <= i < all.len() implies blank(#[trigger] all[i]) by {
            if i < before.len() {
                assert(all[i] == before[i]);
            } else {
                assert(all[i] == after[i - before.len()]);
            }
        }
        dropping_stops_at_what_stays(all, core, blank);
    } else {
        assert(before + core + after =~= before + (core + after));
        dropping_stops_at_what_stays(before, core + after, blank);
        dropping_stops_at_what_stays(after, core, blank);
    }
}

/// White space is what Unicode says it is.
pub proof fn white_space_by_code_point(c: char)
    ensures
        is_white_space(c) <==> {
            let n = c as int;
            9 <= n <= 13 || n == 32 || n == 133 || n == 160 || n == 5760 || 8192 <= n <= 8202 || n
                == 8232 || n == 8233 || n == 8239 || n == 8287 || n == 12288
        },
{
}

/// No piece of a split text holds the character that the text is split at.
pub proof fn a_piece_holds_no_separator(text: Seq<char>, c: char, i: int)
    requires
        0 <= i < pieces(text, c).len(),
    ensures
        !pieces(text, c)[i].contains(c),
    decreases text.len(),
{
    if text.len() > 0 {
        let before = pieces(text.drop_last(), c);
        lemma_pieces_len(text.drop_last(), c);
        if i < before.len() - 1 {
            a_piece_holds_no_separator(text.drop_last(), c, i);
        } else if text.last() != c {
            a_piece_holds_no_separator(text.drop_last(), c, before.len() - 1);
            let piece = pieces(text, c)[i];
            assert(piece == before.last().push(text.last()));
            if piece.contains(c) {
                let k = choose|k: int| 0 <= k < piece.len() && piece[k] == c;
                assert(before.last()[k] == c);
            }
        } else if i == before.len() - 1 {
            a_piece_holds_no_separator(text.drop_last(), c, i);
        }
    }
}

/// Texts are ordered by their first different character; a beginning of a text comes before it.
pub proof fn the_first_difference_decides(same: Seq<char>, a: Seq<char>, b: Seq<char>)
    ensures
        comes_before(same + a, same + b) == comes_before(a, b),
        a.len() > 0 && b.len() > 0 && a[0] != b[0] ==> comes_before(a, b) == ((a[0] as int) < (
        b[0] as int)),
        b.len() > 0 ==> comes_before(same, same + b),
        !comes_before(same + a, same),
    decreases same.len(),
{
    if same.len() == 0 {
        assert(same + a =~= a);
        assert(same + b =~= b);
    } else {
        the_first_difference_decides(same.drop_first(), a, b);
        assert((same + a).drop_first() =~= same.drop_first() + a);
        assert((same + b).drop_first() =~= same.drop_first() + b);
    }
}

/// A text is split at each separator: what stands before it and what stands behind it are split for
/// themselves, and a text without one is its only piece.
pub proof fn a_text_is_split_at_each_separator(a: Seq<char>, b: Seq<char>, c: char)
    ensures
        pieces(a.push(c) + b, c) == pieces(a, c) + pieces(b, c),
        !a.contains(c) ==> pieces(a, c) == seq![a],
    decreases b.len(), a.len(),
{
    if b.len() == 0 {
        assert(a.push(c) + b =~= a.push(c));
        assert(a.push(c).drop_last() =~= a);
        assert(pieces(a.push(c), c) =~= pieces(a, c) + pieces(b, c));
        if a.len() > 0 && !a.contains(c) {
            assert(a.last() != c);
            assert(!a.drop_last().contains(c)) by {
                if a.drop_last().contains(c) {
                    let k = choose|k: int| 0 <= k < a.drop_last().len() && a.drop_last()[k] == c;
                    assert(a[k] == c);
                }
            }
            a_text_is_split_at_each_separator(a.drop_last(), b, c);
            let before = pieces(a.drop_last(), c);
            assert(before == seq![a.drop_last()]);
            assert(before.last() == a.drop_last());
            assert(before.last().push(a.last()) =~= a);
            assert(before.drop_last() =~= Seq::<Seq<char>>::empty());
            assert(pieces(a, c) =~= seq![a]);
        } else if a.len() == 0 {
            assert(a =~= Seq::<char>::empty());
            assert(pieces(a, c) =~= seq![a]);
        }
    } else {
        let rest = b.drop_last();
        let text = a.push(c) + b;
        assert(text.drop_last() =~= a.push(c) + rest);
        assert(text.last() == b.last());
        a_text_is_split_at_each_separator(a, rest, c);
        lemma_pieces_len(rest, c);
        assert(pieces(text, c) =~= pieces(a, c) + pieces(b, c));
    }
}

} // verus!
