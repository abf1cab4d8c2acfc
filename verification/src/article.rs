//! Article numbers of laws: `第十八条`, `第18条` and `十八条` all stand for 18.

use crate::number::parse_unsigned;
use crate::text::{chars_of, cut, drop_trailing, trim};
use vstd::prelude::*;

verus! {

/// The number that a Chinese digit stands for.
pub open spec fn chinese_digit(c: char) -> Option<nat> {
    if c == '零' {
        Some(0)
    } else if c == '一' {
        Some(1)
    } else if c == '二' {
        Some(2)
    } else if c == '三' {
        Some(3)
    } else if c == '四' {
        Some(4)
    } else if c == '五' {
        Some(5)
    } else if c == '六' {
        Some(6)
    } else if c == '七' {
        Some(7)
    } else if c == '八' {
        Some(8)
    } else if c == '九' {
        Some(9)
    } else {
        None
    }
}

/// A number or, in place of none, one.
pub open spec fn or_one(n: nat) -> nat {
    if n == 0 {
        1
    } else {
        n
    }
}

/// What a row of Chinese digits, `十` and `百` has come to: the sum of the tens and hundreds, and
/// the digit that still waits for its place. `None` if another character stands in the row.
pub open spec fn chinese_sum(text: Seq<char>) -> Option<(nat, nat)>
    decreases text.len(),
{
    if text.len() == 0 {
        Some((0, 0))
    } else {
        match chinese_sum(text.drop_last()) {
            Some((sum, digit)) => if text.last() == '十' {
                Some((sum + or_one(digit) * 10, 0))
            } else if text.last() == '百' {
                Some((sum + or_one(digit) * 100, 0))
            } else {
                match chinese_digit(text.last()) {
                    Some(d) => Some((sum, d)),
                    None => None,
                }
            },
            None => None,
        }
    }
}

/// The number that a Chinese numeral stands for.
pub open spec fn chinese_number(text: Seq<char>) -> Option<nat> {
    match chinese_sum(text) {
        Some((sum, digit)) => Some(sum + digit),
        None => None,
    }
}

/// The number that a numeral stands for, in decimal digits or in Chinese.
pub open spec fn numeral_value(numeral: Seq<char>) -> Option<nat> {
    if numeral.len() == 0 {
        None
    } else {
        match crate::number::unsigned_literal(numeral) {
            Some(n) => if n <= u32::MAX {
                Some(n)
            } else {
                None
            },
            None => chinese_number(numeral),
        }
    }
}

/// A text without the `条` at its end.
pub open spec fn before_tiao(text: Seq<char>) -> Seq<char> {
    crate::text::without_trailing(text, |c: char| c == '条')
}

/// The number of an article: that of the numeral between `第` and `条`, or that of a Chinese
/// numeral before `条`.
pub open spec fn article_number(article: Seq<char>) -> Option<nat> {
    let text = crate::text::trimmed(article);
    if text.len() > 0 && text[0] == '第' {
        numeral_value(before_tiao(text.drop_first()))
    } else if text.len() > 0 && text.last() == '条' && before_tiao(text).len() > 0 {
        chinese_number(before_tiao(text))
    } else {
        None
    }
}

/// Whether the number of an article, if it has one, is one of 32 bits.
pub open spec fn article_is_small(article: Seq<char>) -> bool {
    article_number(article) matches Some(n) ==> n <= u32::MAX
}

/// The smaller of a number and `u32::MAX + 1`.
pub open spec fn capped(n: nat) -> nat {
    if n <= u32::MAX {
        n
    } else {
        0x1_0000_0000
    }
}

/// The number that a Chinese digit stands for.
fn digit_of(c: char) -> (digit: Option<u64>)
    ensures
        match digit {
            Some(d) => chinese_digit(c) == Some(d as nat) && d < 10,
            None => chinese_digit(c) is None,
        },
{
    if c == '零' {
        Some(0)
    } else if c == '一' {
        Some(1)
    } else if c == '二' {
        Some(2)
    } else if c == '三' {
        Some(3)
    } else if c == '四' {
        Some(4)
    } else if c == '五' {
        Some(5)
    } else if c == '六' {
        Some(6)
    } else if c == '七' {
        Some(7)
    } else if c == '八' {
        Some(8)
    } else if c == '九' {
        Some(9)
    } else {
        None
    }
}

/// A number, held to the cap.
fn cap(n: u64) -> (m: u64)
    ensures
        m == capped(n as nat),
{
    if n <= 0xffff_ffff {
        n
    } else {
        0x1_0000_0000
    }
}

/// A row with a character that is no numeral is none, whatever follows.
proof fn lemma_no_numeral(text: Seq<char>, i: int)
    requires
        0 <= i <= text.len(),
        chinese_sum(text.take(i)) is None,
    ensures
        chinese_sum(text) is None,
    decreases text.len() - i,
{
    if i < text.len() {
        assert(text.take(i + 1).drop_last() == text.take(i));
        lemma_no_numeral(text, i + 1);
    } else {
        assert(text.take(i) == text);
    }
}

/// The number that a Chinese numeral stands for, held to the cap.
fn read_chinese(text: &str) -> (value: Option<u64>)
    ensures
        match value {
            Some(n) => chinese_number(text@) matches Some(m) && n == capped(m),
            None => chinese_number(text@) is None,
        },
{
    let chars = chars_of(text);
    let mut sum: u64 = 0;
    let mut digit: u64 = 0;
    let mut i: usize = 0;
    assert(text@.take(0) == Seq::<char>::empty());
    while i < chars.len()
        invariant
            i <= chars.len(),
            chars@ == text@,
            digit < 10,
            sum <= 0x1_0000_0000,
            chinese_sum(text@.take(i as int)) matches Some((s, d)) && sum == capped(s) && digit
                == d,
        decreases chars.len() - i,
    {
        let c = chars[i];
        let ghost next = text@.take(i + 1);
        assert(next.drop_last() == text@.take(i as int));
        assert(next.last() == c);
        let tens = if digit == 0 {
            1u64
        } else {
            digit
        };
        if c == '十' {
            sum = cap(sum + tens * 10);
            digit = 0;
        } else if c == '百' {
            sum = cap(sum + tens * 100);
            digit = 0;
        } else {
            match digit_of(c) {
                Some(d) => {
                    digit = d;
                },
                None => {
                    proof {
                        lemma_no_numeral(text@, i + 1);
                    }
                    return None;
                },
            }
        }
        i = i + 1;
    }
    assert(text@.take(i as int) == text@);
    Some(cap(sum + digit))
}

/// The number that a numeral stands for, held to the cap.
fn read_numeral(numeral: &str) -> (value: Option<u64>)
    ensures
        match value {
            Some(n) => numeral_value(numeral@) matches Some(m) && n == capped(m),
            None => numeral_value(numeral@) is None,
        },
{
    if numeral.unicode_len() == 0 {
        return None;
    }
    if let Some(n) = parse_unsigned(numeral, 0xffff_ffff) {
        return Some(n);
    }
    proof {
        if crate::number::unsigned_literal(numeral@) is Some {
            lemma_digits_are_not_chinese(numeral@);
        }
    }
    read_chinese(numeral)
}

/// A row that ends in a decimal digit is no Chinese numeral.
proof fn lemma_digits_are_not_chinese(text: Seq<char>)
    requires
        text.len() > 0,
        crate::number::unsigned_literal(text) is Some,
    ensures
        chinese_number(text) is None,
{
    if text[0] == '+' {
        assert(crate::number::is_digit(text.drop_first().last()));
        assert(text.drop_first().last() == text.last());
    } else {
        assert(crate::number::is_digit(text.last()));
    }
}

/// The number of an article, held to the cap.
fn read_article(article: &str) -> (value: Option<u64>)
    ensures
        match value {
            Some(n) => article_number(article@) matches Some(m) && n == capped(m),
            None => article_number(article@) is None,
        },
{
    let text = trim(article);
    let chars = chars_of(text.as_str());
    if chars.len() > 0 && chars[0] == '第' {
        let rest = cut(text.as_str(), 1, chars.len());
        assert(rest@ == text@.drop_first());
        let numeral = drop_trailing(rest.as_str(), '条');
        read_numeral(numeral.as_str())
    } else if chars.len() > 0 && chars[chars.len() - 1] == '条' {
        let numeral = drop_trailing(text.as_str(), '条');
        if numeral.as_str().unicode_len() == 0 {
            return None;
        }
        read_chinese(numeral.as_str())
    } else {
        None
    }
}

/// Whether the number of an article, if it has one, is one of 32 bits.
pub fn article_fits(article: &str) -> (fits: bool)
    ensures
        fits == article_is_small(article@),
{
    match read_article(article) {
        Some(n) => n <= 0xffff_ffff,
        None => true,
    }
}

/// The number of an article.
pub fn normalize_article(article: &str) -> (number: Option<u32>)
    requires
        article_is_small(article@),
    ensures
        match number {
            Some(n) => article_number(article@) == Some(n as nat),
            None => article_number(article@) is None,
        },
{
    match read_article(article) {
        Some(n) => Some(n as u32),
        None => None,
    }
}

// ── Laws ──

/// The Chinese digit for a number from 1 to 9.
pub open spec fn digit_numeral(n: nat) -> char {
    if n == 1 {
        '一'
    } else if n == 2 {
        '二'
    } else if n == 3 {
        '三'
    } else if n == 4 {
        '四'
    } else if n == 5 {
        '五'
    } else if n == 6 {
        '六'
    } else if n == 7 {
        '七'
    } else if n == 8 {
        '八'
    } else {
        '九'
    }
}

/// A number from 1 to 99 as it is written in Chinese: `八`, `十`, `十八`, `二十`, `九十九`.
pub open spec fn chinese_numeral(n: nat) -> Seq<char> {
    let tens = if n < 10 {
        Seq::empty()
    } else if n < 20 {
        seq!['十']
    } else {
        seq![digit_numeral(n / 10), '十']
    };
    if n % 10 == 0 {
        tens
    } else {
        tens.push(digit_numeral(n % 10))
    }
}

/// A Chinese numeral from 1 to 99 reads as its number.
pub proof fn a_chinese_numeral_reads_back(n: nat)
    requires
        1 <= n <= 99,
    ensures
        chinese_number(chinese_numeral(n)) == Some(n),
{
    let tens = if n < 10 {
        Seq::<char>::empty()
    } else if n < 20 {
        seq!['十']
    } else {
        seq![digit_numeral(n / 10), '十']
    };
    reveal_with_fuel(chinese_sum, 4);
    if n < 10 {
        assert(chinese_sum(tens) == Some((0nat, 0nat)));
    } else if n < 20 {
        assert(tens.drop_last() == Seq::<char>::empty());
        assert(chinese_sum(tens) == Some((10nat, 0nat)));
    } else {
        assert(tens.drop_last() == seq![digit_numeral(n / 10)]);
        assert(tens.drop_last().drop_last() == Seq::<char>::empty());
        assert(chinese_digit(digit_numeral(n / 10)) == Some(n / 10));
        assert(chinese_sum(tens) == Some(((n / 10) * 10, 0nat)));
    }
    if n % 10 != 0 {
        assert(tens.push(digit_numeral(n % 10)).drop_last() == tens);
        assert(chinese_digit(digit_numeral(n % 10)) == Some(n % 10));
    }
}

/// A text that begins and ends with no white space is trimmed already.
proof fn lemma_trimmed_already(text: Seq<char>)
    requires
        text.len() > 0,
        !crate::text::is_white_space(text[0]),
        !crate::text::is_white_space(text.last()),
    ensures
        crate::text::trimmed(text) == text,
{
}

/// What stands between `第` and `条`, or before `条`, is the numeral of the article.
proof fn lemma_numeral_of(numeral: Seq<char>)
    requires
        numeral.len() > 0,
        numeral[0] != '第',
        !crate::text::is_white_space(numeral[0]),
        numeral.last() != '条',
    ensures
        article_number(seq!['第'] + numeral + seq!['条']) == numeral_value(numeral),
        article_number(numeral + seq!['条']) == chinese_number(numeral),
{
    let long = seq!['第'] + numeral + seq!['条'];
    lemma_trimmed_already(long);
    assert(long.drop_first() == numeral + seq!['条']);
    let short = numeral + seq!['条'];
    lemma_trimmed_already(short);
    assert(short.drop_last() == numeral);
    reveal_with_fuel(crate::text::without_trailing, 2);
    assert(before_tiao(short) == numeral);
}

/// An article says the same number in Chinese numerals, with `第` or without it, and in decimal
/// digits behind `第`.
pub proof fn the_forms_of_an_article_agree(n: nat)
    requires
        1 <= n <= 99,
    ensures
        article_number(seq!['第'] + chinese_numeral(n) + seq!['条']) == Some(n),
        article_number(chinese_numeral(n) + seq!['条']) == Some(n),
        article_number(seq!['第'] + crate::number::decimal_text(n) + seq!['条']) == Some(n),
{
    a_chinese_numeral_reads_back(n);
    let numeral = chinese_numeral(n);
    lemma_numeral_of(numeral);
    assert(!crate::number::is_digit(numeral.last()));
    assert(crate::number::unsigned_literal(numeral) is None) by {
        if numeral[0] == '+' {
            assert(numeral.drop_first().len() > 0 ==> numeral.drop_first().last()
                == numeral.last());
        }
    }
    a_decimal_article_reads_back(n);
}

/// An article in decimal digits reads as its number behind `第`, and as none without it.
pub proof fn a_decimal_article_reads_back(n: nat)
    requires
        n <= u32::MAX,
    ensures
        article_number(seq!['第'] + crate::number::decimal_text(n) + seq!['条']) == Some(n),
        article_number(crate::number::decimal_text(n) + seq!['条']) is None,
{
    crate::number::decimal_text_reads_back(n);
    let digits = crate::number::decimal_text(n);
    assert(crate::number::is_digit(digits[0]));
    assert(crate::number::is_digit(digits.last()));
    lemma_numeral_of(digits);
    lemma_digits_are_not_chinese(digits);
}

/// Whether a character may stand in a Chinese numeral.
pub open spec fn is_numeral(c: char) -> bool {
    c == '零' || c == '一' || c == '二' || c == '三' || c == '四' || c == '五' || c == '六' || c
        == '七' || c == '八' || c == '九' || c == '十' || c == '百'
}

/// A row of characters is a Chinese numeral exactly if each of them may stand in one.
pub proof fn numerals_have_their_characters(text: Seq<char>)
    ensures
        chinese_number(text) is Some <==> forall|i: int|
            0 <= i < text.len() ==> is_numeral(#[trigger] text[i]),
    decreases text.len(),
{
    if text.len() > 0 {
        let rest = text.drop_last();
        numerals_have_their_characters(rest);
        assert forall|i: int| 0 <= i < rest.len() implies rest[i] == #[trigger] text[i] by {}
        if chinese_number(text) is Some {
            assert(is_numeral(text.last()));
            assert forall|i: int| 0 <= i < text.len() implies is_numeral(#[trigger] text[i]) by {
                if i < rest.len() {
                    assert(is_numeral(rest[i]));
                }
            }
        }
        if forall|i: int| 0 <= i < text.len() ==> is_numeral(#[trigger] text[i]) {
            assert forall|i: int| 0 <= i < rest.len() implies is_numeral(#[trigger] rest[i]) by {
                assert(is_numeral(text[i]));
            }
            assert(is_numeral(text[text.len() - 1]));
        }
    }
}

/// What follows a row in which no digit waits for its place is added to it.
proof fn lemma_added(front: Seq<char>, back: Seq<char>)
    requires
        chinese_sum(front) matches Some((_, digit)) && digit == 0,
    ensures
        match chinese_sum(back) {
            Some((sum, digit)) => chinese_sum(front + back) == Some(
                ((chinese_sum(front).unwrap().0 + sum) as nat, digit),
            ),
            None => chinese_sum(front + back) is None,
        },
    decreases back.len(),
{
    if back.len() == 0 {
        assert(front + back =~= front);
    } else {
        assert((front + back).drop_last() =~= front + back.drop_last());
        assert((front + back).last() == back.last());
        lemma_added(front, back.drop_last());
    }
}

/// Behind a ten, a hundred or a zero the number starts anew, and what follows is added: `一百` and
/// `零八` are 108.
pub proof fn numerals_are_added_up(front: Seq<char>, back: Seq<char>)
    requires
        front.len() > 0,
        front.last() == '十' || front.last() == '百' || front.last() == '零',
        chinese_number(front) is Some,
        chinese_number(back) is Some,
    ensures
        chinese_number(front + back) == Some((chinese_number(front)->0 + chinese_number(back)->0) as nat),
{
    assert(chinese_sum(front.drop_last()) is Some);
    lemma_added(front, back);
}

/// A hundred counts as often as the digit before it says, and once without one. A ten does, too.
pub proof fn a_digit_counts_tens_and_hundreds(n: nat)
    requires
        1 <= n <= 9,
    ensures
        chinese_number(seq![digit_numeral(n)]) == Some(n),
        chinese_number(seq!['零']) == Some(0nat),
        chinese_number(seq![digit_numeral(n), '十']) == Some((10 * n) as nat),
        chinese_number(seq![digit_numeral(n), '百']) == Some((100 * n) as nat),
        chinese_number(seq!['十']) == Some(10nat),
        chinese_number(seq!['百']) == Some(100nat),
{
    reveal_with_fuel(chinese_sum, 4);
    let none = Seq::<char>::empty();
    let digit = seq![digit_numeral(n)];
    assert(digit.drop_last() =~= none);
    assert(chinese_digit(digit_numeral(n)) == Some(n));
    assert(chinese_sum(digit) == Some((0nat, n)));
    assert(seq!['零'].drop_last() =~= none);
    assert(seq!['十'].drop_last() =~= none);
    assert(seq!['百'].drop_last() =~= none);
    assert(seq![digit_numeral(n), '十'].drop_last() =~= digit);
    assert(seq![digit_numeral(n), '百'].drop_last() =~= digit);
}

/// What follows depends only on what a row has come to.
proof fn lemma_same_sum(a: Seq<char>, b: Seq<char>, back: Seq<char>)
    requires
        chinese_sum(a) == chinese_sum(b),
    ensures
        chinese_sum(a + back) == chinese_sum(b + back),
    decreases back.len(),
{
    if back.len() == 0 {
        assert(a + back =~= a);
        assert(b + back =~= b);
    } else {
        assert((a + back).drop_last() =~= a + back.drop_last());
        assert((b + back).drop_last() =~= b + back.drop_last());
        assert((a + back).last() == back.last());
        assert((b + back).last() == back.last());
        lemma_same_sum(a, b, back.drop_last());
    }
}

/// Of two digits in a row the last counts, whatever stands around them.
pub proof fn of_two_digits_the_last_counts(front: Seq<char>, a: char, b: char, back: Seq<char>)
    requires
        is_numeral(a) && a != '十' && a != '百',
        is_numeral(b) && b != '十' && b != '百',
    ensures
        chinese_number(front.push(a).push(b) + back) == chinese_number(front.push(b) + back),
{
    reveal_with_fuel(chinese_sum, 3);
    let long = front.push(a).push(b);
    let short = front.push(b);
    assert(long.drop_last() =~= front.push(a));
    assert(front.push(a).drop_last() =~= front);
    assert(short.drop_last() =~= front);
    assert(chinese_sum(long) == chinese_sum(short));
    lemma_same_sum(long, short, back);
}

/// An article is a numeral between its two marks: a number of 32 bits in decimal digits, or a
/// Chinese numeral. Behind the first mark the second may be missing; before the second the first
/// may, if the numeral is Chinese.
pub proof fn an_article_is_a_numeral_and_its_marks(numeral: Seq<char>)
    requires
        numeral.len() > 0,
        numeral[0] != '第',
        !crate::text::is_white_space(numeral[0]),
        !crate::text::is_white_space(numeral.last()),
        numeral.last() != '条',
    ensures
        crate::number::unsigned_literal(numeral) matches Some(n) ==> article_number(
            seq!['第'] + numeral + seq!['条'],
        ) == (if n <= u32::MAX {
            Some(n)
        } else {
            None
        }),
        crate::number::unsigned_literal(numeral) is None ==> article_number(
            seq!['第'] + numeral + seq!['条'],
        ) == chinese_number(numeral),
        article_number(seq!['第'] + numeral) == article_number(seq!['第'] + numeral + seq!['条']),
        article_number(numeral + seq!['条']) == chinese_number(numeral),
        article_number(numeral) is None,
{
    lemma_numeral_of(numeral);
    let open = seq!['第'] + numeral;
    lemma_trimmed_already(open);
    assert(open.drop_first() =~= numeral);
    assert(before_tiao(numeral) == numeral);
    lemma_trimmed_already(numeral);
}

/// Marks without a numeral are no article.
pub proof fn marks_alone_are_no_article()
    ensures
        article_number(seq!['第']) is None,
        article_number(seq!['条']) is None,
        article_number(seq!['第', '条']) is None,
        article_number(Seq::empty()) is None,
{
    reveal_with_fuel(crate::text::without_trailing, 3);
    reveal_with_fuel(crate::text::without_leading, 3);
    lemma_trimmed_already(seq!['第']);
    lemma_trimmed_already(seq!['条']);
    lemma_trimmed_already(seq!['第', '条']);
    assert(seq!['第'].drop_first() =~= Seq::<char>::empty());
    assert(seq!['条'].drop_last() =~= Seq::<char>::empty());
    assert(seq!['第', '条'].drop_first() =~= seq!['条']);
    assert(before_tiao(seq!['条']) =~= Seq::<char>::empty());
}

/// White space around an article does not count, nor does its last mark if it is written twice.
pub proof fn an_article_is_read_without_what_is_around(
    before: Seq<char>,
    article: Seq<char>,
    after: Seq<char>,
)
    requires
        forall|i: int| 0 <= i < before.len() ==> crate::text::is_white_space(#[trigger] before[i]),
        forall|i: int| 0 <= i < after.len() ==> crate::text::is_white_space(#[trigger] after[i]),
        article.len() > 0,
        !crate::text::is_white_space(article[0]),
        !crate::text::is_white_space(article.last()),
    ensures
        article_number(before + article + after) == article_number(article),
        article.last() == '条' ==> article_number(article.push('条')) == article_number(article),
{
    crate::text::trimming_takes_the_white_space_around(before, article, after);
    lemma_trimmed_already(article);
    if article.last() == '条' {
        let twice = article.push('条');
        lemma_trimmed_already(twice);
        assert(twice.drop_last() =~= article);
        assert(before_tiao(twice) == before_tiao(article));
        assert(twice.drop_first().len() > 0);
        assert(twice.drop_first().drop_last() =~= article.drop_first());
        assert(before_tiao(twice.drop_first()) == before_tiao(article.drop_first()));
    }
}

/// A number of more than 32 bits does not fit, and every other outcome does.
pub proof fn an_article_fits_in_32_bits(article: Seq<char>)
    ensures
        article_is_small(article) <==> (article_number(article) is None || article_number(article)->0
            < 0x1_0000_0000),
{
}

} // verus!
