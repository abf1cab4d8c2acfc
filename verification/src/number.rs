//! Numbers as text: decimal integers, and the literals of floating-point numbers.

use crate::text::chars_of;
use vstd::prelude::*;

verus! {

// ── Decimal integers ──

/// Whether a character is one of `0` to `9`.
pub open spec fn is_digit(c: char) -> bool {
    '0' <= c <= '9'
}

/// The number that a digit stands for.
pub open spec fn digit_value(c: char) -> nat
    recommends
        is_digit(c),
{
    (c as int - '0' as int) as nat
}

/// The digit that stands for a number below ten.
pub open spec fn digit_char(n: nat) -> char
    recommends
        n < 10,
{
    ('0' as int + n) as char
}

/// Whether a text holds digits only.
pub open spec fn all_digits(text: Seq<char>) -> bool {
    forall|i: int| 0 <= i < text.len() ==> is_digit(#[trigger] text[i])
}

/// The number that a row of digits stands for.
pub open spec fn digits_value(text: Seq<char>) -> nat
    decreases text.len(),
{
    if text.len() == 0 {
        0
    } else {
        10 * digits_value(text.drop_last()) + digit_value(text.last())
    }
}

/// A number in decimal digits, without leading zeros.
pub open spec fn decimal_text(n: nat) -> Seq<char>
    decreases n,
{
    if n < 10 {
        seq![digit_char(n)]
    } else {
        decimal_text(n / 10).push(digit_char(n % 10))
    }
}

/// The digit `n`, as a text.
fn digit_text(n: u64) -> (text: &'static str)
    requires
        n < 10,
    ensures
        text@ == seq![digit_char(n as nat)],
{
    proof {
        reveal_strlit("0");
        reveal_strlit("1");
        reveal_strlit("2");
        reveal_strlit("3");
        reveal_strlit("4");
        reveal_strlit("5");
        reveal_strlit("6");
        reveal_strlit("7");
        reveal_strlit("8");
        reveal_strlit("9");
    }
    if n == 0 {
        "0"
    } else if n == 1 {
        "1"
    } else if n == 2 {
        "2"
    } else if n == 3 {
        "3"
    } else if n == 4 {
        "4"
    } else if n == 5 {
        "5"
    } else if n == 6 {
        "6"
    } else if n == 7 {
        "7"
    } else if n == 8 {
        "8"
    } else {
        "9"
    }
}

/// A number in decimal digits, without leading zeros.
pub fn decimal(n: u64) -> (text: String)
    ensures
        text@ == decimal_text(n as nat),
    decreases n,
{
    if n < 10 {
        digit_text(n).to_owned()
    } else {
        let mut text = decimal(n / 10);
        text.append(digit_text(n % 10));
        text
    }
}

/// Printing a number and reading the digits back gives the number.
pub proof fn decimal_text_reads_back(n: nat)
    ensures
        decimal_text(n).len() > 0,
        all_digits(decimal_text(n)),
        digits_value(decimal_text(n)) == n,
    decreases n,
{
    if n < 10 {
        let text = seq![digit_char(n)];
        assert(text.drop_last() == Seq::<char>::empty());
        assert(digits_value(text.drop_last()) == 0);
    } else {
        decimal_text_reads_back(n / 10);
        let text = decimal_text(n / 10).push(digit_char(n % 10));
        assert(text.drop_last() == decimal_text(n / 10));
    }
}

/// Different numbers have different decimal texts.
pub proof fn decimal_text_is_injective(m: nat, n: nat)
    requires
        decimal_text(m) == decimal_text(n),
    ensures
        m == n,
{
    decimal_text_reads_back(m);
    decimal_text_reads_back(n);
}

/// The number that an unsigned integer literal stands for: an optional `+`, then digits.
pub open spec fn unsigned_literal(text: Seq<char>) -> Option<nat> {
    let digits = if text.len() > 0 && text[0] == '+' {
        text.drop_first()
    } else {
        text
    };
    if digits.len() > 0 && all_digits(digits) {
        Some(digits_value(digits))
    } else {
        None
    }
}

/// The number that a signed integer literal stands for: an optional `+` or `-`, then digits.
pub open spec fn signed_literal(text: Seq<char>) -> Option<int> {
    if text.len() > 0 && text[0] == '-' {
        let digits = text.drop_first();
        if digits.len() > 0 && all_digits(digits) {
            Some(-(digits_value(digits) as int))
        } else {
            None
        }
    } else {
        match unsigned_literal(text) {
            Some(n) => Some(n as int),
            None => None,
        }
    }
}

/// The value of a digit.
fn value_of_digit(c: char) -> (n: u64)
    requires
        is_digit(c),
    ensures
        n == digit_value(c),
{
    (c as u32 - '0' as u32) as u64
}

/// The digits `chars[from..]` as a number, if they are digits and the number is at most `max`.
fn read_digits(chars: &Vec<char>, from: usize, max: u64) -> (value: Option<u64>)
    requires
        from <= chars.len(),
    ensures
        match value {
            Some(n) => from < chars.len() && all_digits(chars@.skip(from as int)) && n
                == digits_value(chars@.skip(from as int)) && n <= max,
            None => from == chars.len() || !all_digits(chars@.skip(from as int))
                || digits_value(chars@.skip(from as int)) > max,
        },
{
    let ghost row = chars@.skip(from as int);
    if from == chars.len() {
        return None;
    }
    let mut value: u64 = 0;
    let mut too_big = false;
    let mut i: usize = from;
    assert(row.take(0) == Seq::<char>::empty());
    while i < chars.len()
        invariant
            from <= i <= chars.len(),
            row == chars@.skip(from as int),
            all_digits(row.take(i - from)),
            !too_big ==> value == digits_value(row.take(i - from)) && value <= max,
            too_big ==> digits_value(row.take(i - from)) > max,
        decreases chars.len() - i,
    {
        let c = chars[i];
        let ghost next = row.take(i + 1 - from);
        assert(next.drop_last() == row.take(i - from));
        assert(next.last() == c);
        if !('0' <= c && c <= '9') {
            assert(row[i - from] == c);
            return None;
        }
        let d = value_of_digit(c);
        assert(all_digits(next));
        if !too_big {
            if value > max / 10 || (value == max / 10 && d > max % 10) {
                too_big = true;
            } else {
                value = value * 10 + d;
            }
        }
        i = i + 1;
    }
    assert(row.take(chars.len() - from) == row);
    if too_big {
        None
    } else {
        Some(value)
    }
}

/// Reads an unsigned integer literal that is at most `max`.
pub fn parse_unsigned(text: &str, max: u64) -> (value: Option<u64>)
    ensures
        match value {
            Some(n) => unsigned_literal(text@) == Some(n as nat) && n <= max,
            None => unsigned_literal(text@) matches Some(m) ==> m > max,
        },
{
    let chars = chars_of(text);
    if chars.len() > 0 && chars[0] == '+' {
        assert(chars@.skip(1) == text@.drop_first());
        read_digits(&chars, 1, max)
    } else {
        assert(chars@.skip(0) == text@);
        read_digits(&chars, 0, max)
    }
}

/// Reads a signed integer literal of 32 bits.
pub fn parse_i32(text: &str) -> (value: Option<i32>)
    ensures
        match value {
            Some(n) => signed_literal(text@) == Some(n as int),
            None => signed_literal(text@) matches Some(m) ==> m < i32::MIN || m > i32::MAX,
        },
{
    let chars = chars_of(text);
    if chars.len() > 0 && chars[0] == '-' {
        assert(chars@.skip(1) == text@.drop_first());
        match read_digits(&chars, 1, 0x8000_0000) {
            Some(n) => Some((0 - n as i64) as i32),
            None => None,
        }
    } else {
        match parse_unsigned(text, 0x7fff_ffff) {
            Some(n) => Some(n as i32),
            None => None,
        }
    }
}

// ── Literals of floating-point numbers ──

/// Whether a character is `+` or `-`.
pub open spec fn is_sign(c: char) -> bool {
    c == '+' || c == '-'
}

/// A text without one leading sign.
pub open spec fn unsigned_part(text: Seq<char>) -> Seq<char> {
    if text.len() > 0 && is_sign(text[0]) {
        text.drop_first()
    } else {
        text
    }
}

/// An ASCII letter in lower case; any other character as it is.
pub open spec fn ascii_lower(c: char) -> char {
    if 'A' <= c <= 'Z' {
        (c as int + 32) as char
    } else {
        c
    }
}

/// Whether two texts are the same but for the case of ASCII letters in `text`.
pub open spec fn same_in_lower_case(text: Seq<char>, word: Seq<char>) -> bool {
    text.len() == word.len() && forall|i: int|
        0 <= i < text.len() ==> ascii_lower(#[trigger] text[i]) == word[i]
}

/// Digits, with at most one point among them and at least one digit.
pub open spec fn is_mantissa(text: Seq<char>) -> bool {
    ||| text.len() > 0 && all_digits(text)
    ||| text.len() > 1 && exists|k: int| #[trigger] is_point_split(text, k)
}

/// Whether `text` is digits but for a point at position `k`.
pub open spec fn is_point_split(text: Seq<char>, k: int) -> bool {
    0 <= k < text.len() && text[k] == '.' && all_digits(text.take(k)) && all_digits(
        text.skip(k + 1),
    )
}

/// An optional sign, then digits.
pub open spec fn is_exponent(text: Seq<char>) -> bool {
    unsigned_part(text).len() > 0 && all_digits(unsigned_part(text))
}

/// Whether `text` is a mantissa, the letter `e` at position `k`, and an exponent.
pub open spec fn is_exponent_split(text: Seq<char>, k: int) -> bool {
    0 <= k < text.len() && ascii_lower(text[k]) == 'e' && is_mantissa(text.take(k))
        && is_exponent(text.skip(k + 1))
}

/// A mantissa with or without an exponent.
pub open spec fn is_plain_number(text: Seq<char>) -> bool {
    ||| is_mantissa(text)
    ||| exists|k: int| #[trigger] is_exponent_split(text, k)
}

/// Whether a text reads as a floating-point number: an optional sign, then `inf`, `infinity`,
/// `nan` (in any case), or a decimal number with optional fraction and exponent.
pub open spec fn is_float_literal(text: Seq<char>) -> bool {
    let body = unsigned_part(text);
    ||| same_in_lower_case(body, "inf"@)
    ||| same_in_lower_case(body, "infinity"@)
    ||| same_in_lower_case(body, "nan"@)
    ||| is_plain_number(body)
}

/// An ASCII letter in lower case; any other character as it is.
fn to_lower(c: char) -> (l: char)
    ensures
        l == ascii_lower(c),
{
    if 'A' <= c && c <= 'Z' {
        ((c as u8) + 32) as char
    } else {
        c
    }
}

/// Whether `chars[from..]` is `word` but for the case of ASCII letters.
fn reads_word(chars: &Vec<char>, from: usize, word: &str) -> (hit: bool)
    requires
        from <= chars.len(),
    ensures
        hit == same_in_lower_case(chars@.skip(from as int), word@),
{
    let letters = chars_of(word);
    if chars.len() - from != letters.len() {
        return false;
    }
    let mut i: usize = 0;
    while i < letters.len()
        invariant
            i <= letters.len(),
            letters@ == word@,
            from + letters.len() == chars.len(),
            forall|j: int| 0 <= j < i ==> ascii_lower(#[trigger] chars@.skip(from as int)[j]) == word@[j],
        decreases letters.len() - i,
    {
        assert(chars@.skip(from as int)[i as int] == chars@[from + i]);
        if to_lower(chars[from + i]) != letters[i] {
            return false;
        }
        i = i + 1;
    }
    true
}

/// The end of the row of digits that starts at `from`.
fn skip_digits(chars: &Vec<char>, from: usize) -> (to: usize)
    requires
        from <= chars.len(),
    ensures
        from <= to <= chars.len(),
        forall|i: int| from <= i < to ==> is_digit(#[trigger] chars@[i]),
        to < chars.len() ==> !is_digit(chars@[to as int]),
{
    let mut to: usize = from;
    while to < chars.len() && '0' <= chars[to] && chars[to] <= '9'
        invariant
            from <= to <= chars.len(),
            forall|i: int| from <= i < to ==> is_digit(#[trigger] chars@[i]),
        decreases chars.len() - to,
    {
        to = to + 1;
    }
    to
}

/// Where a mantissa can end: `a` ends the first row of digits of `text`, and `m` ends the digits
/// and the point after it.
proof fn lemma_mantissa_end(text: Seq<char>, a: int, m: int, k: int)
    requires
        0 <= a <= m <= text.len(),
        0 <= k <= text.len(),
        all_digits(text.take(a)),
        a < text.len() ==> !is_digit(text[a]),
        a < text.len() && text[a] == '.' ==> m > a && forall|i: int|
            a < i < m ==> is_digit(#[trigger] text[i]),
        a == text.len() || text[a] != '.' ==> m == a,
        m < text.len() ==> !is_digit(text[m]),
        k < text.len() ==> ascii_lower(text[k]) == 'e',
    ensures
        is_mantissa(text.take(k)) <==> k == m && (if m == a {
            m > 0
        } else {
            m > 1
        }),
{
    let head = text.take(k);
    let dotted = a < text.len() && text[a] == '.';
    if k < m {
        if k < a {
            assert(text.take(a)[k] == text[k]);
        }
        assert(false);
    }
    if is_mantissa(head) {
        if head.len() > 0 && all_digits(head) {
            if a < k {
                assert(head[a] == text[a]);
            }
        } else {
            let j = choose|j: int| is_point_split(head, j);
            assert(is_point_split(head, j));
            assert(head[j] == text[j]);
            if j < a {
                assert(text.take(a)[j] == text[j]);
            }
            if a < j {
                assert(head.take(j)[a] == text[a]);
            }
            assert(j == a);
            if m < k {
                assert(head.skip(a + 1)[m - a - 1] == text[m]);
            }
        }
    }
    if k == m {
        if m == a && m > 0 {
            assert(head == text.take(a));
        }
        if m > a && m > 1 {
            assert(head.take(a) == text.take(a));
            assert forall|i: int| 0 <= i < head.skip(a + 1).len() implies is_digit(
                #[trigger] head.skip(a + 1)[i],
            ) by {
                assert(head.skip(a + 1)[i] == text[a + 1 + i]);
            }
            assert(is_point_split(head, a));
        }
    }
}

/// What a decimal number is, in terms of the places `a` and `m` of its mantissa.
proof fn lemma_plain_number(text: Seq<char>, a: int, m: int)
    requires
        0 <= a <= m <= text.len(),
        all_digits(text.take(a)),
        a < text.len() ==> !is_digit(text[a]),
        a < text.len() && text[a] == '.' ==> m > a && forall|i: int|
            a < i < m ==> is_digit(#[trigger] text[i]),
        a == text.len() || text[a] != '.' ==> m == a,
        m < text.len() ==> !is_digit(text[m]),
    ensures
        is_plain_number(text) <==> (if m == a {
            m > 0
        } else {
            m > 1
        }) && (m == text.len() || (ascii_lower(text[m]) == 'e' && is_exponent(text.skip(m + 1)))),
{
    assert(text.take(text.len() as int) == text);
    lemma_mantissa_end(text, a, m, text.len() as int);
    if exists|k: int| #[trigger] is_exponent_split(text, k) {
        let k = choose|k: int| #[trigger] is_exponent_split(text, k);
        lemma_mantissa_end(text, a, m, k);
    }
    if m < text.len() && ascii_lower(text[m]) == 'e' {
        lemma_mantissa_end(text, a, m, m);
        if is_mantissa(text.take(m)) && is_exponent(text.skip(m + 1)) {
            assert(is_exponent_split(text, m));
        }
    }
}

/// Whether `chars[from..]` is an optional sign, then digits.
fn exponent(chars: &Vec<char>, from: usize) -> (hit: bool)
    requires
        from <= chars.len(),
    ensures
        hit == is_exponent(chars@.skip(from as int)),
{
    let mut q: usize = from;
    if q < chars.len() && (chars[q] == '+' || chars[q] == '-') {
        q = q + 1;
    }
    let ghost row = unsigned_part(chars@.skip(from as int));
    assert(row == chars@.skip(q as int));
    let r = skip_digits(chars, q);
    proof {
        if r < chars.len() {
            assert(row[r - q] == chars@[r as int]);
        }
    }
    r == chars.len() && r > q
}

/// Whether `chars[from..]` is a decimal number with optional fraction and exponent.
fn plain_number(chars: &Vec<char>, from: usize) -> (hit: bool)
    requires
        from <= chars.len(),
    ensures
        hit == is_plain_number(chars@.skip(from as int)),
{
    let ghost body = chars@.skip(from as int);
    let a = skip_digits(chars, from);
    let mut m: usize = a;
    let mut enough = a > from;
    if a < chars.len() && chars[a] == '.' {
        m = skip_digits(chars, a + 1);
        enough = m - from > 1;
    }
    proof {
        assert(forall|i: int| 0 <= i < body.len() ==> #[trigger] body[i] == chars@[from + i]);
        lemma_plain_number(body, a - from, m - from);
    }
    if !enough {
        return false;
    }
    if m == chars.len() {
        return true;
    }
    assert(body.skip(m - from + 1) == chars@.skip(m + 1));
    to_lower(chars[m]) == 'e' && exponent(chars, m + 1)
}

/// Whether a text reads as a floating-point number.
pub fn float_literal(text: &str) -> (hit: bool)
    ensures
        hit == is_float_literal(text@),
{
    let chars = chars_of(text);
    let mut from: usize = 0;
    if chars.len() > 0 && (chars[0] == '+' || chars[0] == '-') {
        from = 1;
    }
    assert(chars@.skip(from as int) == unsigned_part(text@));
    reads_word(&chars, from, "inf") || reads_word(&chars, from, "infinity") || reads_word(
        &chars,
        from,
        "nan",
    ) || plain_number(&chars, from)
}

// ── Laws ──

/// One more digit makes a number ten times as large, and adds its own value.
pub proof fn a_number_grows_by_its_digits(n: nat, d: nat)
    requires
        d < 10,
    ensures
        decimal_text(d) == seq![(48 + d) as char],
        n > 0 ==> decimal_text(10 * n + d) == decimal_text(n).push((48 + d) as char),
        digits_value(seq![(48 + d) as char]) == d,
        digits_value(decimal_text(n).push((48 + d) as char)) == 10 * n + d,
{
    decimal_text_reads_back(n);
    let one = seq![(48 + d) as char];
    assert(one.drop_last() =~= Seq::<char>::empty());
    assert(digits_value(one.drop_last()) == 0);
    assert(one.last() == (48 + d) as char);
    let more = decimal_text(n).push((48 + d) as char);
    assert(more.drop_last() =~= decimal_text(n));
    if n > 0 {
        assert((10 * n + d) / 10 == n && (10 * n + d) % 10 == d) by (nonlinear_arith)
            requires
                d < 10,
        ;
    }
}

/// Leading zeros do not count.
proof fn lemma_leading_zero(digits: Seq<char>)
    ensures
        digits_value(seq!['0'] + digits) == digits_value(digits),
    decreases digits.len(),
{
    let long = seq!['0'] + digits;
    if digits.len() == 0 {
        assert(long.drop_last() =~= digits);
        assert(long.last() == '0');
    } else {
        lemma_leading_zero(digits.drop_last());
        assert(long.drop_last() =~= seq!['0'] + digits.drop_last());
        assert(long.last() == digits.last());
    }
}

/// An integer that was written in digits is read back: with or without `+`, with zeros before it,
/// and, where a sign may stand, negative behind `-`.
pub proof fn a_written_integer_is_read(n: nat)
    ensures
        unsigned_literal(decimal_text(n)) == Some(n),
        unsigned_literal(seq!['+'] + decimal_text(n)) == Some(n),
        unsigned_literal(seq!['0'] + decimal_text(n)) == Some(n),
        signed_literal(decimal_text(n)) == Some(n as int),
        signed_literal(seq!['+'] + decimal_text(n)) == Some(n as int),
        signed_literal(seq!['-'] + decimal_text(n)) == Some(-(n as int)),
        unsigned_literal(seq!['-'] + decimal_text(n)) is None,
{
    decimal_text_reads_back(n);
    let digits = decimal_text(n);
    assert(is_digit(digits[0]));
    assert((seq!['+'] + digits).drop_first() =~= digits);
    assert((seq!['-'] + digits).drop_first() =~= digits);
    lemma_leading_zero(digits);
    let long = seq!['0'] + digits;
    assert(all_digits(long)) by {
        assert forall|i: int| 0 <= i < long.len() implies is_digit(#[trigger] long[i]) by {
            if i > 0 {
                assert(long[i] == digits[i - 1]);
            }
        }
    }
    assert((seq!['-'] + digits)[0] == '-');
}

/// A text with a character that is no digit, behind the place of a sign, is no integer; nor is one
/// without a digit.
pub proof fn what_is_no_integer_is_not_read(text: Seq<char>, i: int)
    ensures
        0 < i < text.len() && !('0' <= text[i] <= '9') ==> unsigned_literal(text) is None
            && signed_literal(text) is None,
        text.len() == 0 ==> unsigned_literal(text) is None && signed_literal(text) is None,
        text.len() == 1 && !('0' <= text[0] <= '9') ==> unsigned_literal(text) is None
            && signed_literal(text) is None,
{
    if 0 < i < text.len() && !('0' <= text[i] <= '9') {
        assert(text.drop_first()[i - 1] == text[i]);
        assert(!all_digits(text.drop_first()));
        assert(!all_digits(text));
    }
    if text.len() == 1 && !('0' <= text[0] <= '9') {
        assert(!all_digits(text));
    }
}

/// Digits read as a floating-point number: as they are, with a fraction behind a point, with an
/// exponent, and with a sign before them.
pub proof fn decimal_numbers_are_literals(
    whole: Seq<char>,
    fraction: Seq<char>,
    exponent: Seq<char>,
    sign: char,
    e: char,
)
    requires
        whole.len() > 0,
        forall|i: int| 0 <= i < whole.len() ==> '0' <= #[trigger] whole[i] <= '9',
        forall|i: int| 0 <= i < fraction.len() ==> '0' <= #[trigger] fraction[i] <= '9',
        exponent.len() > 0,
        forall|i: int| 0 <= i < exponent.len() ==> '0' <= #[trigger] exponent[i] <= '9',
        sign == '+' || sign == '-',
        e == 'e' || e == 'E',
    ensures
        is_float_literal(whole),
        is_float_literal(whole + seq!['.'] + fraction),
        is_float_literal(whole + seq!['.'] + fraction + seq![e] + exponent),
        is_float_literal(whole + seq![e, sign] + exponent),
        is_float_literal(seq![sign] + whole),
        is_float_literal(seq![sign] + (whole + seq!['.'] + fraction)),
{
    assert(all_digits(whole));
    assert(all_digits(fraction));
    assert(all_digits(exponent));
    assert(is_digit(whole[0]));
    let point = whole + seq!['.'] + fraction;
    assert(point.take(whole.len() as int) =~= whole);
    assert(point.skip(whole.len() as int + 1) =~= fraction);
    assert(is_point_split(point, whole.len() as int));
    assert(is_mantissa(point));
    assert(point[0] == whole[0]);
    let long = point + seq![e] + exponent;
    assert(long.take(point.len() as int) =~= point);
    assert(long.skip(point.len() as int + 1) =~= exponent);
    assert(is_digit(exponent[0]));
    assert(is_exponent_split(long, point.len() as int));
    assert(long[0] == whole[0]);
    let signed = whole + seq![e, sign] + exponent;
    assert(signed.take(whole.len() as int) =~= whole);
    assert(signed.skip(whole.len() as int + 1) =~= seq![sign] + exponent);
    assert((seq![sign] + exponent).drop_first() =~= exponent);
    assert(is_exponent_split(signed, whole.len() as int));
    assert(signed[0] == whole[0]);
    assert((seq![sign] + whole).drop_first() =~= whole);
    assert((seq![sign] + point).drop_first() =~= point);
}

/// The words `inf`, `infinity` and `nan` read as floating-point numbers, and nothing else does that
/// holds no digit.
pub proof fn a_literal_holds_a_digit(text: Seq<char>)
    requires
        is_float_literal(text),
        forall|i: int| 0 <= i < text.len() ==> !('0' <= #[trigger] text[i] <= '9'),
    ensures
        ({
            let body = if text.len() > 0 && (text[0] == '+' || text[0] == '-') {
                text.drop_first()
            } else {
                text
            };
            same_in_lower_case(body, "inf"@) || same_in_lower_case(body, "infinity"@)
                || same_in_lower_case(body, "nan"@)
        }),
{
    let body = unsigned_part(text);
    assert forall|i: int| 0 <= i < body.len() implies !is_digit(#[trigger] body[i]) by {
        if text.len() > 0 && is_sign(text[0]) {
            assert(body[i] == text[i + 1]);
        } else {
            assert(body[i] == text[i]);
        }
    }
    if is_plain_number(body) {
        if is_mantissa(body) {
            lemma_mantissa_has_digit(body);
        } else {
            let k = choose|k: int| #[trigger] is_exponent_split(body, k);
            let head = body.take(k);
            assert forall|i: int| 0 <= i < head.len() implies !is_digit(#[trigger] head[i]) by {
                assert(head[i] == body[i]);
            }
            lemma_mantissa_has_digit(head);
        }
    }
}

/// A mantissa holds a digit.
proof fn lemma_mantissa_has_digit(text: Seq<char>)
    requires
        is_mantissa(text),
    ensures
        exists|i: int| 0 <= i < text.len() && is_digit(#[trigger] text[i]),
{
    if text.len() > 0 && all_digits(text) {
        assert(is_digit(text[0]));
    } else {
        let k = choose|k: int| #[trigger] is_point_split(text, k);
        if k > 0 {
            assert(is_digit(text.take(k)[0]));
            assert(is_digit(text[0]));
        } else {
            assert(is_digit(text.skip(1)[0]));
            assert(is_digit(text[1]));
        }
    }
}

/// A literal holds digits, signs, points and the letters of its words, and nothing else.
pub proof fn a_literal_holds_nothing_else(text: Seq<char>, i: int)
    requires
        is_float_literal(text),
        0 <= i < text.len(),
    ensures
        '0' <= text[i] <= '9' || text[i] == '+' || text[i] == '-' || text[i] == '.' || 'a'
            <= text[i] <= 'z' || 'A' <= text[i] <= 'Z',
{
    let body = unsigned_part(text);
    let signed = text.len() > 0 && is_sign(text[0]);
    if !(signed && i == 0) {
        let k = if signed {
            i - 1
        } else {
            i
        };
        assert(body[k] == text[i]);
        reveal_strlit("inf");
        reveal_strlit("infinity");
        reveal_strlit("nan");
        if is_plain_number(body) {
            if is_mantissa(body) {
                lemma_mantissa_characters(body, k);
            } else {
                let m = choose|m: int| #[trigger] is_exponent_split(body, m);
                if k < m {
                    lemma_mantissa_characters(body.take(m), k);
                } else if k > m {
                    let rest = body.skip(m + 1);
                    assert(rest[k - m - 1] == body[k]);
                    if rest.len() > 0 && is_sign(rest[0]) && k - m - 1 > 0 {
                        assert(unsigned_part(rest)[k - m - 2] == body[k]);
                    }
                }
            }
        } else {
            assert(ascii_lower(body[k]) == body[k] || 'A' <= body[k] <= 'Z');
        }
    }
}

/// A mantissa holds digits and a point.
proof fn lemma_mantissa_characters(text: Seq<char>, i: int)
    requires
        is_mantissa(text),
        0 <= i < text.len(),
    ensures
        is_digit(text[i]) || text[i] == '.',
{
    if !(text.len() > 0 && all_digits(text)) {
        let k = choose|k: int| #[trigger] is_point_split(text, k);
        if i < k {
            assert(text.take(k)[i] == text[i]);
        } else if i > k {
            assert(text.skip(k + 1)[i - k - 1] == text[i]);
        }
    }
}

} // verus!
