//! The numbers of a document, read from the text of its clauses.
//!
//! Dates become day numbers, amounts become a decimal literal and the factor of its unit. What
//! cannot be read is left out.

use crate::calendar::date_to_day_number;
use crate::number::{float_literal, parse_i32, parse_unsigned};
use crate::outside::{captures, compile_regex, match_end};
use crate::schema::{Metric, Quantity};
use crate::text::{same_text, take_chars};
use vstd::prelude::*;

verus! {

/// A date: four digits of a year, one or two of a month, one or two of a day.
pub const DATE_PATTERN: &'static str =
    "(20\\d{2})\\s*[年./-]\\s*(\\d{1,2})\\s*[月./-]\\s*(\\d{1,2})\\s*日?";

/// An amount: a decimal number with an optional unit.
pub const AMOUNT_PATTERN: &'static str =
    "([0-9]+(?:\\.[0-9]+)?)\\s*(万亿元|亿万元|亿元|万元|万|元)?";

/// How many characters behind its keyword a value is looked for.
pub const REACH: usize = 60;

/// A group of a match, or `None` where the group has no part in it.
pub open spec fn group(groups: Seq<Option<Seq<char>>>, i: int) -> Option<Seq<char>> {
    if 0 <= i < groups.len() {
        groups[i]
    } else {
        None
    }
}

/// A group of a match, or `None` where the group has no part in it.
fn take_group(groups: &Vec<Option<String>>, i: usize) -> (text: Option<&str>)
    ensures
        match text {
            Some(s) => group(crate::outside::group_texts(groups@), i as int) == Some(s@),
            None => group(crate::outside::group_texts(groups@), i as int) is None,
        },
{
    if i < groups.len() {
        match &groups[i] {
            Some(s) => Some(s.as_str()),
            None => None,
        }
    } else {
        None
    }
}

// ── Dates ──

/// The day number of a date, from the groups of its match: year, month and day.
pub open spec fn date_of_groups(groups: Seq<Option<Seq<char>>>) -> Option<int> {
    match (group(groups, 1), group(groups, 2), group(groups, 3)) {
        (Some(y), Some(m), Some(d)) => match (
            crate::number::signed_literal(y),
            crate::number::unsigned_literal(m),
            crate::number::unsigned_literal(d),
        ) {
            (Some(year), Some(month), Some(day)) => if i32::MIN <= year <= i32::MAX
                && crate::calendar::is_date(year, month as int, day as int) {
                Some(crate::calendar::day_number(year, month as int, day as int))
            } else {
                None
            },
            _ => None,
        },
        _ => None,
    }
}

/// The groups of the first match of a pattern in a text; `None` without a match, and where the
/// pattern does not compile.
pub open spec fn first_groups(pattern: Seq<char>, text: Seq<char>) -> Option<
    Seq<Option<Seq<char>>>,
> {
    match crate::outside::refusal(pattern) {
        Some(_) => None,
        None => crate::outside::regex_groups(pattern, text),
    }
}

/// The day number of the first date in a text.
pub open spec fn date_in(text: Seq<char>) -> Option<int> {
    match first_groups(DATE_PATTERN@, text) {
        Some(groups) => date_of_groups(groups),
        None => None,
    }
}

/// The day number of a date, from the groups of its match: year, month and day.
pub fn date_of(groups: &Vec<Option<String>>) -> (number: Option<u64>)
    ensures
        match number {
            Some(n) => date_of_groups(crate::outside::group_texts(groups@)) == Some(n as int),
            None => date_of_groups(crate::outside::group_texts(groups@)) is None,
        },
{
    let year = match take_group(groups, 1) {
        Some(s) => parse_i32(s),
        None => None,
    };
    let month = match take_group(groups, 2) {
        Some(s) => parse_unsigned(s, 0xffff_ffff),
        None => None,
    };
    let day = match take_group(groups, 3) {
        Some(s) => parse_unsigned(s, 0xffff_ffff),
        None => None,
    };
    match (year, month, day) {
        (Some(y), Some(m), Some(d)) => date_to_day_number(y, m as u32, d as u32),
        _ => None,
    }
}

/// The groups of the first match of a pattern in a text.
fn find_groups(pattern: &str, text: &str) -> (groups: Option<Vec<Option<String>>>)
    ensures
        match groups {
            Some(list) => first_groups(pattern@, text@) == Some(
                crate::outside::group_texts(list@),
            ),
            None => first_groups(pattern@, text@) is None,
        },
{
    match compile_regex(pattern) {
        Ok(re) => captures(&re, text),
        Err(_) => None,
    }
}

/// The day number of the first date in a text, such as `2025-06-22`, `2025年6月22日` or
/// `2025.6.22`.
pub fn parse_date(text: &str) -> (number: Option<u64>)
    ensures
        match number {
            Some(n) => date_in(text@) == Some(n as int),
            None => date_in(text@) is None,
        },
{
    match find_groups(DATE_PATTERN, text) {
        Some(groups) => date_of(&groups),
        None => None,
    }
}

// ── Amounts ──

/// The factor of a unit of money.
pub open spec fn unit_factor(unit: Seq<char>) -> u64 {
    if unit == "万亿元"@ || unit == "亿万元"@ {
        1_000_000_000_000
    } else if unit == "亿元"@ {
        100_000_000
    } else if unit == "万元"@ || unit == "万"@ {
        10_000
    } else {
        1
    }
}

/// An amount, from the groups of its match: the number and the unit.
pub open spec fn amount_of_groups(groups: Seq<Option<Seq<char>>>) -> Option<
    crate::schema::QuantityView,
> {
    match group(groups, 1) {
        Some(digits) => if crate::number::is_float_literal(digits) {
            Some(
                crate::schema::QuantityView::Scaled {
                    digits,
                    factor: match group(groups, 2) {
                        Some(unit) => unit_factor(unit),
                        None => 1,
                    },
                },
            )
        } else {
            None
        },
        None => None,
    }
}

/// The first amount in a text.
pub open spec fn amount_in(text: Seq<char>) -> Option<crate::schema::QuantityView> {
    match first_groups(AMOUNT_PATTERN@, text) {
        Some(groups) => amount_of_groups(groups),
        None => None,
    }
}

/// Whether an optional quantity has a model.
pub open spec fn is_model(quantity: Option<Quantity>, model: Option<crate::schema::QuantityView>) -> bool {
    match quantity {
        Some(q) => model == Some(q@),
        None => model is None,
    }
}

/// The factor of a unit of money.
fn factor_of(unit: &str) -> (factor: u64)
    ensures
        factor == unit_factor(unit@),
{
    if same_text(unit, "万亿元") || same_text(unit, "亿万元") {
        1_000_000_000_000
    } else if same_text(unit, "亿元") {
        100_000_000
    } else if same_text(unit, "万元") || same_text(unit, "万") {
        10_000
    } else {
        1
    }
}

/// An amount, from the groups of its match: the number and the unit.
pub fn amount_of(groups: &Vec<Option<String>>) -> (amount: Option<Quantity>)
    ensures
        is_model(amount, amount_of_groups(crate::outside::group_texts(groups@))),
{
    let factor: u64 = match take_group(groups, 2) {
        Some(unit) => factor_of(unit),
        None => 1,
    };
    match take_group(groups, 1) {
        Some(digits) => if float_literal(digits) {
            Some(Quantity::Scaled { digits: digits.to_owned(), factor })
        } else {
            None
        },
        None => None,
    }
}

/// The first amount in a text.
pub fn parse_amount(text: &str) -> (amount: Option<Quantity>)
    ensures
        is_model(amount, amount_in(text@)),
{
    match find_groups(AMOUNT_PATTERN, text) {
        Some(groups) => amount_of(&groups),
        None => None,
    }
}

// ── Metrics ──

/// The dates of a document: the name of each and the pattern of its keyword.
pub const DATE_METRICS: [(&'static str, &'static str); 2] = [
    ("投标截止日期", "递交.*截止|投标截止"),
    ("招标文件发出日期", "招标文件.{0,4}(发出|发售|获取)"),
];

/// The amounts of a document: the name of each and the pattern of its keyword.
pub const AMOUNT_METRICS: [(&'static str, &'static str); 6] = [
    ("投标保证金金额", "投标保证金"),
    ("招标项目估算价", "估算价"),
    ("采购预算金额", "预算"),
    ("投标报价总额", "投标报价"),
    ("履约保证金金额", "履约保证金"),
    ("中标金额", "中标金额"),
];

/// The text behind a byte offset.
pub open spec fn text_from(text: Seq<char>, n: int) -> Seq<char> {
    let bytes = vstd::utf8::encode_utf8(text);
    vstd::utf8::decode_utf8(bytes.subrange(n, bytes.len() as int))
}

/// What stands close behind the first match of a pattern in a text.
pub open spec fn near(text: Seq<char>, pattern: Seq<char>) -> Option<Seq<char>> {
    match crate::outside::refusal(pattern) {
        Some(_) => None,
        None => match crate::outside::regex_match_end(pattern, text) {
            Some(n) => Some(crate::text::first_chars(text_from(text, n as int), REACH as int)),
            None => None,
        },
    }
}

/// What stands close behind the first match of a pattern in a text.
pub fn find_near(text: &str, keyword_pattern: &str) -> (tail: Option<String>)
    ensures
        match tail {
            Some(t) => near(text@, keyword_pattern@) == Some(t@),
            None => near(text@, keyword_pattern@) is None,
        },
{
    match compile_regex(keyword_pattern) {
        Ok(re) => match match_end(&re, text) {
            Some(n) => {
                let parts = text.split_at(n);
                proof {
                    vstd::utf8::encode_utf8_decode_utf8(parts.1@);
                }
                Some(take_chars(parts.1, REACH))
            },
            None => None,
        },
        Err(_) => None,
    }
}

/// The date close behind a keyword.
pub open spec fn date_near(text: Seq<char>, pattern: Seq<char>) -> Option<
    crate::schema::QuantityView,
> {
    match near(text, pattern) {
        Some(tail) => match date_in(tail) {
            Some(n) => Some(crate::schema::QuantityView::Days(n as u64)),
            None => None,
        },
        None => None,
    }
}

/// The amount close behind a keyword.
pub open spec fn amount_near(text: Seq<char>, pattern: Seq<char>) -> Option<
    crate::schema::QuantityView,
> {
    match near(text, pattern) {
        Some(tail) => amount_in(tail),
        None => None,
    }
}

/// The metrics that `read` finds, in the order of the table.
pub open spec fn metric_list(
    text: Seq<char>,
    table: Seq<(&'static str, &'static str)>,
    read: spec_fn(Seq<char>, Seq<char>) -> Option<crate::schema::QuantityView>,
) -> Seq<crate::schema::MetricView>
    decreases table.len(),
{
    if table.len() == 0 {
        Seq::empty()
    } else {
        let before = metric_list(text, table.drop_last(), read);
        match read(text, table.last().1@) {
            Some(value) => before.push(
                crate::schema::MetricView { name: table.last().0@, value },
            ),
            None => before,
        }
    }
}

/// The metrics of a text: the dates, then the amounts.
pub open spec fn metrics_of(text: Seq<char>) -> Seq<crate::schema::MetricView> {
    metric_list(text, DATE_METRICS@, |t: Seq<char>, p: Seq<char>| date_near(t, p)) + metric_list(
        text,
        AMOUNT_METRICS@,
        |t: Seq<char>, p: Seq<char>| amount_near(t, p),
    )
}

/// Texts one after the other, each with a line break behind it.
pub open spec fn lines(list: Seq<Seq<char>>) -> Seq<char>
    decreases list.len(),
{
    if list.len() == 0 {
        Seq::empty()
    } else {
        lines(list.drop_last()) + list.last() + "\n"@
    }
}

/// Texts one after the other, each with a line break behind it.
fn put_together(list: &[&str]) -> (text: String)
    ensures
        text@ == lines(list@.map_values(|s: &str| s@)),
{
    let ghost all = list@.map_values(|s: &str| s@);
    let mut text = String::new();
    let mut i: usize = 0;
    assert(all.take(0) == Seq::<Seq<char>>::empty());
    while i < list.len()
        invariant
            i <= list@.len(),
            all == list@.map_values(|s: &str| s@),
            text@ == lines(all.take(i as int)),
        decreases list.len() - i,
    {
        assert(all.take(i + 1).drop_last() == all.take(i as int));
        assert(all.take(i + 1).last() == list@[i as int]@);
        text.append(list[i]);
        text.append("\n");
        i = i + 1;
    }
    assert(all.take(i as int) == all);
    text
}

/// The models of a list of metrics with one more.
proof fn lemma_metric_pushed(list: Seq<Metric>, m: Metric)
    ensures
        crate::operand::metric_models(list.push(m)) == crate::operand::metric_models(list).push(
            m@,
        ),
{
}

/// The dates of a text.
fn find_dates(text: &str) -> (metrics: Vec<Metric>)
    ensures
        crate::operand::metric_models(metrics@) == metric_list(
            text@,
            DATE_METRICS@,
            |t: Seq<char>, p: Seq<char>| date_near(t, p),
        ),
{
    let table = DATE_METRICS;
    let ghost all = DATE_METRICS@;
    let ghost read = |t: Seq<char>, p: Seq<char>| date_near(t, p);
    let mut metrics: Vec<Metric> = Vec::new();
    let mut i: usize = 0;
    assert(all.take(0) == Seq::<(&'static str, &'static str)>::empty());
    assert(crate::operand::metric_models(metrics@) == metric_list(text@, all.take(0), read));
    while i < table.len()
        invariant
            i <= table@.len(),
            table@ == all,
            read == (|t: Seq<char>, p: Seq<char>| date_near(t, p)),
            crate::operand::metric_models(metrics@) == metric_list(
                text@,
                all.take(i as int),
                read,
            ),
        decreases table.len() - i,
    {
        let entry = table[i];
        assert(all.take(i + 1).drop_last() == all.take(i as int));
        assert(all.take(i + 1).last() == entry);
        if let Some(tail) = find_near(text, entry.1) {
            if let Some(n) = parse_date(tail.as_str()) {
                let m = Metric { name: entry.0.to_owned(), value: Quantity::Days(n) };
                proof {
                    lemma_metric_pushed(metrics@, m);
                }
                metrics.push(m);
            }
        }
        i = i + 1;
    }
    assert(all.take(i as int) == all);
    metrics
}

/// The amounts of a text.
fn find_amounts(text: &str) -> (metrics: Vec<Metric>)
    ensures
        crate::operand::metric_models(metrics@) == metric_list(
            text@,
            AMOUNT_METRICS@,
            |t: Seq<char>, p: Seq<char>| amount_near(t, p),
        ),
{
    let table = AMOUNT_METRICS;
    let ghost all = AMOUNT_METRICS@;
    let ghost read = |t: Seq<char>, p: Seq<char>| amount_near(t, p);
    let mut metrics: Vec<Metric> = Vec::new();
    let mut i: usize = 0;
    assert(all.take(0) == Seq::<(&'static str, &'static str)>::empty());
    assert(crate::operand::metric_models(metrics@) == metric_list(text@, all.take(0), read));
    while i < table.len()
        invariant
            i <= table@.len(),
            table@ == all,
            read == (|t: Seq<char>, p: Seq<char>| amount_near(t, p)),
            crate::operand::metric_models(metrics@) == metric_list(
                text@,
                all.take(i as int),
                read,
            ),
        decreases table.len() - i,
    {
        let entry = table[i];
        assert(all.take(i + 1).drop_last() == all.take(i as int));
        assert(all.take(i + 1).last() == entry);
        if let Some(tail) = find_near(text, entry.1) {
            if let Some(value) = parse_amount(tail.as_str()) {
                let m = Metric { name: entry.0.to_owned(), value };
                proof {
                    lemma_metric_pushed(metrics@, m);
                }
                metrics.push(m);
            }
        }
        i = i + 1;
    }
    assert(all.take(i as int) == all);
    metrics
}

/// The metrics of a document, from the texts of its clauses.
pub fn extract_metrics(clause_texts: &[&str]) -> (metrics: Vec<Metric>)
    ensures
        crate::operand::metric_models(metrics@) == metrics_of(
            lines(clause_texts@.map_values(|s: &str| s@)),
        ),
{
    let text = put_together(clause_texts);
    let mut metrics = find_dates(text.as_str());
    let mut amounts = find_amounts(text.as_str());
    let ghost dates = metrics@;
    let ghost more = amounts@;
    metrics.append(&mut amounts);
    assert(crate::operand::metric_models(metrics@) == crate::operand::metric_models(dates)
        + crate::operand::metric_models(more));
    metrics
}

// ── Laws ──

/// Each metric of a list has its name from the table.
proof fn lemma_names(
    text: Seq<char>,
    table: Seq<(&'static str, &'static str)>,
    read: spec_fn(Seq<char>, Seq<char>) -> Option<crate::schema::QuantityView>,
    i: int,
) -> (k: int)
    requires
        0 <= i < metric_list(text, table, read).len(),
    ensures
        0 <= k < table.len(),
        metric_list(text, table, read)[i].name == table[k].0@,
        read(text, table[k].1@) == Some(metric_list(text, table, read)[i].value),
    decreases table.len(),
{
    let before = metric_list(text, table.drop_last(), read);
    if i < before.len() {
        let k = lemma_names(text, table.drop_last(), read, i);
        assert(table.drop_last()[k] == table[k]);
        k
    } else {
        table.len() - 1
    }
}

/// With different names in the table, no name comes twice.
proof fn lemma_no_name_twice(
    text: Seq<char>,
    table: Seq<(&'static str, &'static str)>,
    read: spec_fn(Seq<char>, Seq<char>) -> Option<crate::schema::QuantityView>,
    i: int,
    j: int,
)
    requires
        forall|a: int, b: int|
            0 <= a < b < table.len() ==> (#[trigger] table[a]).0@ != (#[trigger] table[b]).0@,
        0 <= i < j < metric_list(text, table, read).len(),
    ensures
        metric_list(text, table, read)[i].name != metric_list(text, table, read)[j].name,
    decreases table.len(),
{
    let rest = table.drop_last();
    let before = metric_list(text, rest, read);
    if j < before.len() {
        assert forall|a: int, b: int| 0 <= a < b < rest.len() implies (#[trigger] rest[a]).0@ != (
        #[trigger] rest[b]).0@ by {
            assert(rest[a] == table[a] && rest[b] == table[b]);
        }
        lemma_no_name_twice(text, rest, read, i, j);
    } else {
        let k = lemma_names(text, rest, read, i);
        assert(rest[k] == table[k]);
        assert(table[k].0@ != table[table.len() - 1].0@);
    }
}

/// The names of the tables are all different.
proof fn lemma_table_names()
    ensures
        forall|a: int, b: int|
            0 <= a < b < DATE_METRICS@.len() ==> (#[trigger] DATE_METRICS@[a]).0@ != (
            #[trigger] DATE_METRICS@[b]).0@,
        forall|a: int, b: int|
            0 <= a < b < AMOUNT_METRICS@.len() ==> (#[trigger] AMOUNT_METRICS@[a]).0@ != (
            #[trigger] AMOUNT_METRICS@[b]).0@,
        forall|a: int, b: int|
            0 <= a < DATE_METRICS@.len() && 0 <= b < AMOUNT_METRICS@.len() ==> (
            #[trigger] DATE_METRICS@[a]).0@ != (#[trigger] AMOUNT_METRICS@[b]).0@,
{
    reveal_strlit("投标截止日期");
    reveal_strlit("招标文件发出日期");
    reveal_strlit("投标保证金金额");
    reveal_strlit("招标项目估算价");
    reveal_strlit("采购预算金额");
    reveal_strlit("投标报价总额");
    reveal_strlit("履约保证金金额");
    reveal_strlit("中标金额");
    assert(forall|a: int|
        0 <= a < 2 ==> (#[trigger] DATE_METRICS@[a]).0@[2] == (if a == 0 {
            '截'
        } else {
            '文'
        }));
    assert(forall|a: int|
        0 <= a < 6 ==> ((#[trigger] AMOUNT_METRICS@[a]).0@[0], AMOUNT_METRICS@[a].0@[2]) == (
        if a == 0 {
            ('投', '保')
        } else if a == 1 {
            ('招', '项')
        } else if a == 2 {
            ('采', '预')
        } else if a == 3 {
            ('投', '报')
        } else if a == 4 {
            ('履', '保')
        } else {
            ('中', '金')
        }));
}

/// A document has at most one metric of a name.
pub proof fn no_metric_comes_twice(text: Seq<char>, i: int, j: int)
    requires
        0 <= i < j < metrics_of(text).len(),
    ensures
        metrics_of(text)[i].name != metrics_of(text)[j].name,
{
    let date = |t: Seq<char>, p: Seq<char>| date_near(t, p);
    let amount = |t: Seq<char>, p: Seq<char>| amount_near(t, p);
    let dates = metric_list(text, DATE_METRICS@, date);
    let amounts = metric_list(text, AMOUNT_METRICS@, amount);
    lemma_table_names();
    if j < dates.len() {
        lemma_no_name_twice(text, DATE_METRICS@, date, i, j);
    } else if i >= dates.len() {
        lemma_no_name_twice(text, AMOUNT_METRICS@, amount, i - dates.len(), j - dates.len());
    } else {
        let a = lemma_names(text, DATE_METRICS@, date, i);
        let b = lemma_names(text, AMOUNT_METRICS@, amount, j - dates.len());
        assert(DATE_METRICS@[a].0@ != AMOUNT_METRICS@[b].0@);
    }
}

/// The bytes of a text are those of its beginning and then those of its end.
proof fn lemma_bytes_add_up(head: Seq<char>, tail: Seq<char>)
    ensures
        vstd::utf8::encode_utf8(head + tail) == vstd::utf8::encode_utf8(head)
            + vstd::utf8::encode_utf8(tail),
    decreases head.len(),
{
    if head.len() == 0 {
        assert(head + tail =~= tail);
        assert(vstd::utf8::encode_utf8(head) + vstd::utf8::encode_utf8(tail)
            =~= vstd::utf8::encode_utf8(tail));
    } else {
        let rest = head.drop_first();
        assert((head + tail)[0] == head[0]);
        assert((head + tail).drop_first() =~= rest + tail);
        lemma_bytes_add_up(rest, tail);
        assert(vstd::utf8::encode_utf8(head + tail) =~= vstd::utf8::encode_utf8(head)
            + vstd::utf8::encode_utf8(tail));
    }
}

/// Whether the first match of a keyword in a text ends where a tail of the text begins.
pub open spec fn is_behind(text: Seq<char>, keyword: Seq<char>, tail: Seq<char>) -> bool {
    &&& crate::outside::refusal(keyword) is None
    &&& exists|head: Seq<char>|
        {
            &&& text == #[trigger] (head + tail)
            &&& crate::outside::regex_match_end(keyword, text) matches Some(n) && n
                == vstd::utf8::encode_utf8(head).len()
        }
}

/// What is close behind a keyword are the first sixty characters behind its first match, or all
/// that there are.
pub proof fn what_is_near_stands_behind_the_keyword(
    text: Seq<char>,
    keyword: Seq<char>,
    tail: Seq<char>,
)
    requires
        is_behind(text, keyword, tail),
    ensures
        near(text, keyword) == Some(
            if tail.len() <= 60 {
                tail
            } else {
                tail.take(60)
            },
        ),
{
    let head = choose|head: Seq<char>|
        {
            &&& text == #[trigger] (head + tail)
            &&& crate::outside::regex_match_end(keyword, text) matches Some(n) && n
                == vstd::utf8::encode_utf8(head).len()
        };
    lemma_bytes_add_up(head, tail);
    let bytes = vstd::utf8::encode_utf8(text);
    let n = vstd::utf8::encode_utf8(head).len() as int;
    assert(bytes.subrange(n, bytes.len() as int) =~= vstd::utf8::encode_utf8(tail));
    vstd::utf8::encode_utf8_decode_utf8(tail);
}

/// Nothing is close behind a keyword that a text does not hold.
pub proof fn nothing_is_near_a_missing_keyword(text: Seq<char>, keyword: Seq<char>)
    requires
        crate::outside::refusal(keyword) is Some || crate::outside::regex_match_end(keyword, text)
            is None,
    ensures
        near(text, keyword) is None,
{
}

/// Whether the first thing in a text that looks like a date reads as that year, month and day.
pub open spec fn reads_as_date(text: Seq<char>, date: (int, int, int)) -> bool {
    let pattern = "(20\\d{2})\\s*[年./-]\\s*(\\d{1,2})\\s*[月./-]\\s*(\\d{1,2})\\s*日?"@;
    &&& crate::outside::refusal(pattern) is None
    &&& crate::outside::regex_groups(pattern, text) matches Some(groups) && {
        &&& groups.len() > 3
        &&& groups[1] matches Some(y) && crate::number::signed_literal(y) == Some(date.0)
        &&& groups[2] matches Some(m) && crate::number::unsigned_literal(m) == Some(date.1 as nat)
        &&& groups[3] matches Some(d) && crate::number::unsigned_literal(d) == Some(date.2 as nat)
    }
    &&& date.0 <= i32::MAX
    &&& date.0 >= i32::MIN
    &&& date.1 >= 0
    &&& date.2 >= 0
}

/// The number of a day of a year of 32 bits fits into 64 bits.
proof fn lemma_days_fit(year: int, month: int, day: int)
    requires
        year <= i32::MAX,
        crate::calendar::is_date(year, month, day),
    ensures
        0 <= crate::calendar::day_number(year, month, day) <= u64::MAX,
{
    lemma_year_fits(year);
    reveal_with_fuel(crate::calendar::days_before_month, 13);
}

/// A year has at most 366 days.
proof fn lemma_year_fits(year: int)
    ensures
        crate::calendar::days_before_year(year) <= (if year <= 2000 {
            0
        } else {
            366 * (year - 2000)
        }),
    decreases year - 2000,
{
    if year > 2000 {
        lemma_year_fits(year - 1);
    }
}

/// A date in a text gives its day number; what is no day of the calendar gives none.
pub proof fn a_date_reads_as_its_day_number(text: Seq<char>, date: (int, int, int))
    requires
        reads_as_date(text, date),
    ensures
        crate::calendar::is_date(date.0, date.1, date.2) ==> date_in(text) == Some(
            crate::calendar::day_number(date.0, date.1, date.2),
        ),
        !crate::calendar::is_date(date.0, date.1, date.2) ==> date_in(text) is None,
{
}

/// A metric is looked up by its name among those of a table.
proof fn lemma_lookup(
    text: Seq<char>,
    table: Seq<(&'static str, &'static str)>,
    read: spec_fn(Seq<char>, Seq<char>) -> Option<crate::schema::QuantityView>,
    name: Seq<char>,
)
    requires
        forall|a: int, b: int|
            0 <= a < b < table.len() ==> (#[trigger] table[a]).0@ != (#[trigger] table[b]).0@,
    ensures
        forall|k: int|
            0 <= k < table.len() && (#[trigger] table[k]).0@ == name
                ==> crate::operand::metric_value(metric_list(text, table, read), name) == read(
                text,
                table[k].1@,
            ),
        (forall|k: int| 0 <= k < table.len() ==> (#[trigger] table[k]).0@ != name)
            ==> crate::operand::metric_value(metric_list(text, table, read), name) is None,
    decreases table.len(),
{
    if table.len() > 0 {
        let rest = table.drop_last();
        let before = metric_list(text, rest, read);
        let all = metric_list(text, table, read);
        assert forall|a: int, b: int| 0 <= a < b < rest.len() implies (#[trigger] rest[a]).0@ != (
        #[trigger] rest[b]).0@ by {
            assert(rest[a] == table[a] && rest[b] == table[b]);
        }
        lemma_lookup(text, rest, read, name);
        assert forall|k: int| 0 <= k < rest.len() implies rest[k] == #[trigger] table[k] by {}
        let last = table.last();
        match read(text, last.1@) {
            Some(value) => {
                let one = seq![crate::schema::MetricView { name: last.0@, value }];
                assert(all =~= before + one);
                crate::operand::metrics_are_looked_up_in_order(before, one, name);
                crate::operand::metrics_are_looked_up_in_order(one, before, name);
            },
            None => {},
        }
        if last.0@ == name {
            assert forall|k: int| 0 <= k < rest.len() implies (#[trigger] rest[k]).0@ != name by {
                assert(table[k].0@ != table[table.len() - 1].0@);
            }
        }
        assert forall|k: int| 0 <= k < table.len() && (#[trigger] table[k]).0@ == name implies
            crate::operand::metric_value(all, name) == read(text, table[k].1@) by {
            if k < rest.len() {
                assert(rest[k] == table[k]);
                if last.0@ == name {
                    assert(table[k].0@ != table[table.len() - 1].0@);
                }
            }
        }
        if forall|k: int| 0 <= k < table.len() ==> (#[trigger] table[k]).0@ != name {
            assert(table[table.len() - 1].0@ != name);
            assert forall|k: int| 0 <= k < rest.len() implies (#[trigger] rest[k]).0@ != name by {
                assert(table[k].0@ != name);
            }
        }
    }
}

/// A metric of a text is what is read behind the keyword of its name.
proof fn lemma_metric(text: Seq<char>, name: Seq<char>)
    ensures
        forall|k: int|
            0 <= k < 2 && (#[trigger] DATE_METRICS@[k]).0@ == name ==> crate::operand::metric_value(
                metrics_of(text),
                name,
            ) == date_near(text, DATE_METRICS@[k].1@),
        forall|k: int|
            0 <= k < 6 && (#[trigger] AMOUNT_METRICS@[k]).0@ == name
                ==> crate::operand::metric_value(metrics_of(text), name) == amount_near(
                text,
                AMOUNT_METRICS@[k].1@,
            ),
{
    let date = |t: Seq<char>, p: Seq<char>| date_near(t, p);
    let amount = |t: Seq<char>, p: Seq<char>| amount_near(t, p);
    let dates = metric_list(text, DATE_METRICS@, date);
    let amounts = metric_list(text, AMOUNT_METRICS@, amount);
    lemma_table_names();
    lemma_lookup(text, DATE_METRICS@, date, name);
    lemma_lookup(text, AMOUNT_METRICS@, amount, name);
    crate::operand::metrics_are_looked_up_in_order(dates, amounts, name);
    assert forall|k: int| 0 <= k < 6 && (#[trigger] AMOUNT_METRICS@[k]).0@ == name implies
        crate::operand::metric_value(metrics_of(text), name) == amount_near(
        text,
        AMOUNT_METRICS@[k].1@,
    ) by {
        assert forall|j: int| 0 <= j < DATE_METRICS@.len() implies (#[trigger] DATE_METRICS@[j]).0@
            != name by {
            assert(DATE_METRICS@[j].0@ != AMOUNT_METRICS@[k].0@);
        }
    }
}

/// Whether a date metric has that name and that keyword.
pub open spec fn is_date_metric(name: Seq<char>, keyword: Seq<char>) -> bool {
    ||| name == "投标截止日期"@ && keyword == "递交.*截止|投标截止"@
    ||| name == "招标文件发出日期"@ && keyword == "招标文件.{0,4}(发出|发售|获取)"@
}

/// Whether an amount metric has that name and that keyword.
pub open spec fn is_amount_metric(name: Seq<char>, keyword: Seq<char>) -> bool {
    ||| name == "投标保证金金额"@ && keyword == "投标保证金"@
    ||| name == "招标项目估算价"@ && keyword == "估算价"@
    ||| name == "采购预算金额"@ && keyword == "预算"@
    ||| name == "投标报价总额"@ && keyword == "投标报价"@
    ||| name == "履约保证金金额"@ && keyword == "履约保证金"@
    ||| name == "中标金额"@ && keyword == "中标金额"@
}

/// A date metric of a document is the day number of the date that stands within sixty characters
/// behind its keyword, and there is none where no day of the calendar stands there.
pub proof fn a_date_metric_is_its_day_number(
    text: Seq<char>,
    name: Seq<char>,
    keyword: Seq<char>,
    tail: Seq<char>,
    date: (int, int, int),
)
    requires
        is_date_metric(name, keyword),
        is_behind(text, keyword, tail),
        reads_as_date(
            if tail.len() <= 60 {
                tail
            } else {
                tail.take(60)
            },
            date,
        ),
    ensures
        crate::calendar::is_date(date.0, date.1, date.2) ==> (crate::operand::metric_value(
            metrics_of(text),
            name,
        ) matches Some(crate::schema::QuantityView::Days(n)) && n == crate::calendar::day_number(
            date.0,
            date.1,
            date.2,
        )),
        !crate::calendar::is_date(date.0, date.1, date.2) ==> crate::operand::metric_value(
            metrics_of(text),
            name,
        ) is None,
{
    lemma_metric(text, name);
    assert(DATE_METRICS@[0].0@ == "投标截止日期"@ && DATE_METRICS@[0].1@
        == "递交.*截止|投标截止"@);
    assert(DATE_METRICS@[1].0@ == "招标文件发出日期"@ && DATE_METRICS@[1].1@
        == "招标文件.{0,4}(发出|发售|获取)"@);
    what_is_near_stands_behind_the_keyword(text, keyword, tail);
    if crate::calendar::is_date(date.0, date.1, date.2) {
        lemma_days_fit(date.0, date.1, date.2);
    }
}

/// Two date metrics differ by the calendar days from the one date to the other, across months and
/// years.
pub proof fn date_metrics_differ_by_calendar_days(
    text: Seq<char>,
    first: (Seq<char>, Seq<char>, Seq<char>),
    second: (Seq<char>, Seq<char>, Seq<char>),
    date: (int, int, int),
    days: nat,
)
    requires
        is_date_metric(first.0, first.1),
        is_behind(text, first.1, first.2),
        reads_as_date(
            if first.2.len() <= 60 {
                first.2
            } else {
                first.2.take(60)
            },
            date,
        ),
        is_date_metric(second.0, second.1),
        is_behind(text, second.1, second.2),
        reads_as_date(
            if second.2.len() <= 60 {
                second.2
            } else {
                second.2.take(60)
            },
            crate::calendar::date_after(date, days),
        ),
        date.0 >= 2000,
        crate::calendar::is_date(date.0, date.1, date.2),
    ensures
        crate::operand::metric_value(metrics_of(text), first.0) matches Some(
            crate::schema::QuantityView::Days(a),
        ) && crate::operand::metric_value(metrics_of(text), second.0) matches Some(
            crate::schema::QuantityView::Days(b),
        ) && b - a == days,
{
    crate::calendar::days_between_dates_are_counted(date, days);
    a_date_metric_is_its_day_number(text, first.0, first.1, first.2, date);
    a_date_metric_is_its_day_number(
        text,
        second.0,
        second.1,
        second.2,
        crate::calendar::date_after(date, days),
    );
}

/// Whether the first thing in a text that looks like an amount has those digits and that unit.
pub open spec fn reads_as_amount(
    text: Seq<char>,
    digits: Seq<char>,
    unit: Option<Seq<char>>,
) -> bool {
    let pattern = "([0-9]+(?:\\.[0-9]+)?)\\s*(万亿元|亿万元|亿元|万元|万|元)?"@;
    &&& crate::outside::refusal(pattern) is None
    &&& crate::outside::regex_groups(pattern, text) matches Some(groups) && {
        &&& groups.len() > 2
        &&& groups[1] == Some(digits)
        &&& groups[2] == unit
    }
    &&& crate::number::is_float_literal(digits)
}

/// An amount counts its digits by its unit: in ten thousands, in hundred millions, in millions of
/// millions, or one by one.
pub proof fn a_unit_multiplies_an_amount(text: Seq<char>, digits: Seq<char>, unit: Option<Seq<char>>)
    requires
        reads_as_amount(text, digits, unit),
    ensures
        amount_in(text) matches Some(crate::schema::QuantityView::Scaled { digits: d, factor }) && d
            == digits && {
            &&& unit is None ==> factor == 1
            &&& unit == Some("元"@) ==> factor == 1
            &&& unit == Some("万"@) ==> factor == 10_000
            &&& unit == Some("万元"@) ==> factor == 10_000
            &&& unit == Some("亿元"@) ==> factor == 10_000 * 10_000
            &&& unit == Some("万亿元"@) ==> factor == 10_000 * 10_000 * 10_000
            &&& unit == Some("亿万元"@) ==> factor == 10_000 * 10_000 * 10_000
        },
{
    reveal_strlit("元");
    reveal_strlit("万");
    reveal_strlit("万元");
    reveal_strlit("亿元");
    reveal_strlit("万亿元");
    reveal_strlit("亿万元");
    assert("元"@.len() == 1 && "万"@.len() == 1 && "万元"@.len() == 2 && "亿元"@.len() == 2);
    assert("万亿元"@.len() == 3 && "亿万元"@.len() == 3);
    assert("元"@[0] == '元' && "万"@[0] == '万' && "万元"@[0] == '万' && "亿元"@[0] == '亿');
}

/// An amount metric of a document is the amount that stands within sixty characters behind its
/// keyword.
pub proof fn an_amount_metric_is_its_amount(
    text: Seq<char>,
    name: Seq<char>,
    keyword: Seq<char>,
    tail: Seq<char>,
    digits: Seq<char>,
    unit: Option<Seq<char>>,
)
    requires
        is_amount_metric(name, keyword),
        is_behind(text, keyword, tail),
        reads_as_amount(
            if tail.len() <= 60 {
                tail
            } else {
                tail.take(60)
            },
            digits,
            unit,
        ),
    ensures
        crate::operand::metric_value(metrics_of(text), name) matches Some(
            crate::schema::QuantityView::Scaled { digits: d, factor },
        ) && d == digits && factor == unit_factor(
            match unit {
                Some(u) => u,
                None => Seq::empty(),
            },
        ),
        crate::operand::metric_value(metrics_of(text), name) == amount_in(
            if tail.len() <= 60 {
                tail
            } else {
                tail.take(60)
            },
        ),
{
    lemma_metric(text, name);
    let table = AMOUNT_METRICS@;
    assert(table[0].0@ == "投标保证金金额"@ && table[0].1@ == "投标保证金"@);
    assert(table[1].0@ == "招标项目估算价"@ && table[1].1@ == "估算价"@);
    assert(table[2].0@ == "采购预算金额"@ && table[2].1@ == "预算"@);
    assert(table[3].0@ == "投标报价总额"@ && table[3].1@ == "投标报价"@);
    assert(table[4].0@ == "履约保证金金额"@ && table[4].1@ == "履约保证金"@);
    assert(table[5].0@ == "中标金额"@ && table[5].1@ == "中标金额"@);
    what_is_near_stands_behind_the_keyword(text, keyword, tail);
    a_unit_multiplies_an_amount(
        if tail.len() <= 60 {
            tail
        } else {
            tail.take(60)
        },
        digits,
        unit,
    );
    if unit is None {
        reveal_strlit("万亿元");
        reveal_strlit("亿万元");
        reveal_strlit("亿元");
        reveal_strlit("万元");
        reveal_strlit("万");
        assert("万亿元"@.len() == 3 && "亿万元"@.len() == 3 && "亿元"@.len() == 2 && "万元"@.len() == 2
            && "万"@.len() == 1);
    }
}

/// A document without the keyword of a metric has no such metric, and it has none but those of the
/// tables.
pub proof fn without_its_keyword_there_is_no_metric(
    text: Seq<char>,
    name: Seq<char>,
    keyword: Seq<char>,
    i: int,
)
    ensures
        (is_date_metric(name, keyword) || is_amount_metric(name, keyword))
            && crate::outside::regex_match_end(keyword, text) is None
            ==> crate::operand::metric_value(metrics_of(text), name) is None,
        0 <= i < metrics_of(text).len() ==> (exists|word: Seq<char>|
            is_date_metric(metrics_of(text)[i].name, word)) || (exists|word: Seq<char>|
            is_amount_metric(metrics_of(text)[i].name, word)),
{
    lemma_metric(text, name);
    let days = DATE_METRICS@;
    assert(days[0].0@ == "投标截止日期"@ && days[0].1@ == "递交.*截止|投标截止"@);
    assert(days[1].0@ == "招标文件发出日期"@ && days[1].1@
        == "招标文件.{0,4}(发出|发售|获取)"@);
    let table = AMOUNT_METRICS@;
    assert(table[0].0@ == "投标保证金金额"@ && table[0].1@ == "投标保证金"@);
    assert(table[1].0@ == "招标项目估算价"@ && table[1].1@ == "估算价"@);
    assert(table[2].0@ == "采购预算金额"@ && table[2].1@ == "预算"@);
    assert(table[3].0@ == "投标报价总额"@ && table[3].1@ == "投标报价"@);
    assert(table[4].0@ == "履约保证金金额"@ && table[4].1@ == "履约保证金"@);
    assert(table[5].0@ == "中标金额"@ && table[5].1@ == "中标金额"@);
    if 0 <= i < metrics_of(text).len() {
        let date = |t: Seq<char>, p: Seq<char>| date_near(t, p);
        let amount = |t: Seq<char>, p: Seq<char>| amount_near(t, p);
        let dates = metric_list(text, days, date);
        if i < dates.len() {
            let k = lemma_names(text, days, date, i);
            assert(is_date_metric(metrics_of(text)[i].name, days[k].1@));
        } else {
            let k = lemma_names(text, table, amount, i - dates.len());
            assert(is_amount_metric(metrics_of(text)[i].name, table[k].1@));
        }
    }
}

/// The texts of the clauses are read one after the other, each on a line of its own.
pub proof fn clauses_are_read_line_by_line(a: Seq<Seq<char>>, b: Seq<Seq<char>>)
    ensures
        lines(Seq::empty()) == Seq::<char>::empty(),
        a.len() == 1 ==> lines(a) == a[0] + seq!['\n'],
        lines(a + b) == lines(a) + lines(b),
    decreases b.len(),
{
    reveal_strlit("\n");
    assert("\n"@ =~= seq!['\n']);
    if a.len() == 1 {
        assert(lines(a.drop_last()) =~= Seq::<char>::empty());
        assert(lines(a) =~= a[0] + seq!['\n']);
    }
    if b.len() == 0 {
        assert(a + b =~= a);
        assert(lines(a) + lines(b) =~= lines(a));
    } else {
        clauses_are_read_line_by_line(a, b.drop_last());
        assert((a + b).drop_last() =~= a + b.drop_last());
        assert(lines(a + b) =~= lines(a) + lines(b));
    }
}

/// A quantity has the model of its value, and none has none.
pub proof fn a_quantity_has_its_model(
    quantity: Quantity,
    model: Option<crate::schema::QuantityView>,
)
    ensures
        is_model(Some(quantity), model) <==> model == Some(quantity@),
        is_model(None, model) <==> model is None,
{
}

/// Groups are a date exactly if the year, the month and the day are there, are numbers, and are those
/// of a day that there is. Its number is then that of the day.
pub proof fn groups_are_a_date_only_if_there_is_such_a_day(
    groups: Seq<Option<Seq<char>>>,
    year: int,
    month: nat,
    day: nat,
)
    ensures
        groups.len() < 4 || groups[1] is None || groups[2] is None || groups[3] is None
            ==> date_of_groups(groups) is None,
        groups.len() >= 4 && groups[1] is Some && groups[2] is Some && groups[3] is Some ==> {
            let (y, m, d) = (
                crate::number::signed_literal(groups[1]->0),
                crate::number::unsigned_literal(groups[2]->0),
                crate::number::unsigned_literal(groups[3]->0),
            );
            &&& y is None || m is None || d is None ==> date_of_groups(groups) is None
            &&& y == Some(year) && m == Some(month) && d == Some(day) && i32::MIN <= year
                <= i32::MAX ==> date_of_groups(groups) == (if 1 <= month <= 12 && 1 <= day
                <= crate::calendar::days_of_month(year, month as int) {
                Some(crate::calendar::day_number(year, month as int, day as int))
            } else {
                None
            })
            &&& y == Some(year) && !(i32::MIN <= year <= i32::MAX) ==> date_of_groups(groups) is None
        },
{
}

/// Groups are an amount exactly if the first is there and is a number. A missing unit counts once.
pub proof fn groups_are_an_amount_only_with_a_number(groups: Seq<Option<Seq<char>>>)
    ensures
        groups.len() < 2 || groups[1] is None ==> amount_of_groups(groups) is None,
        groups.len() >= 2 && groups[1] is Some && !crate::number::is_float_literal(groups[1]->0)
            ==> amount_of_groups(groups) is None,
        groups.len() >= 2 && groups[1] is Some && crate::number::is_float_literal(groups[1]->0)
            ==> {
            let amount = amount_of_groups(groups);
            &&& amount matches Some(crate::schema::QuantityView::Scaled { digits, factor })
                && digits == groups[1]->0 && factor == (if groups.len() < 3 || groups[2] is None {
                1
            } else {
                unit_factor(groups[2]->0)
            })
        },
{
}

/// Where nothing matches, or a pattern does not compile, there is no date and no amount.
pub proof fn without_a_match_there_is_no_date_and_no_amount(text: Seq<char>)
    ensures
        crate::outside::refusal(DATE_PATTERN@) is Some || crate::outside::regex_groups(
            DATE_PATTERN@,
            text,
        ) is None ==> date_in(text) is None,
        crate::outside::refusal(AMOUNT_PATTERN@) is Some || crate::outside::regex_groups(
            AMOUNT_PATTERN@,
            text,
        ) is None ==> amount_in(text) is None,
        crate::outside::refusal(DATE_PATTERN@) is None ==> (crate::outside::regex_groups(
            DATE_PATTERN@,
            text,
        ) matches Some(groups) ==> date_in(text) == date_of_groups(groups)),
        crate::outside::refusal(AMOUNT_PATTERN@) is None ==> (crate::outside::regex_groups(
            AMOUNT_PATTERN@,
            text,
        ) matches Some(groups) ==> amount_in(text) == amount_of_groups(groups)),
{
}

} // verus!
