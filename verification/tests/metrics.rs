//! Dates, amounts and the metrics of a document.

use ai_bid::calendar::date_to_day_number;
use ai_bid::metrics::{amount_of, date_of, extract_metrics, find_near, parse_amount, parse_date};
use ai_bid::schema::{Metric, Quantity};

fn number(q: &Quantity) -> f64 {
    match q {
        Quantity::Days(n) => *n as f64,
        Quantity::Scaled { digits, factor } => {
            digits.parse::<f64>().expect("a number") * *factor as f64
        }
    }
}

fn get(metrics: &[Metric], name: &str) -> Option<f64> {
    metrics.iter().find(|m| m.name == name).map(|m| number(&m.value))
}

fn amount(text: &str) -> Option<f64> {
    parse_amount(text).map(|q| number(&q))
}

#[test]
fn date_to_day_number_basic() {
    assert_eq!(date_to_day_number(2000, 1, 1).map(|n| n as f64), Some(1.0));
    assert!(date_to_day_number(2000, 2, 29).is_some());
    assert!(date_to_day_number(2001, 2, 29).is_none());
}

#[test]
fn day_numbers_count_days() {
    assert_eq!(date_to_day_number(2000, 12, 31), Some(366));
    assert_eq!(date_to_day_number(2001, 1, 1), Some(367));
    assert_eq!(date_to_day_number(2025, 6, 1), Some(9284));
    assert_eq!(date_to_day_number(2025, 6, 15), Some(9298));
    let mut last = 0;
    for year in 2000..2030 {
        for month in 1..=12 {
            for day in 1..=31 {
                if let Some(n) = date_to_day_number(year, month, day) {
                    assert_eq!(n, last + 1, "{year}-{month}-{day}");
                    last = n;
                }
            }
        }
    }
    assert_eq!(last, 10_958);
}

#[test]
fn before_2000_only_the_day_of_the_year_counts() {
    assert_eq!(date_to_day_number(1999, 1, 1), Some(1));
    assert_eq!(date_to_day_number(1996, 12, 31), Some(366));
    assert_eq!(date_to_day_number(-4, 2, 29), Some(60));
    assert_eq!(date_to_day_number(-1, 2, 29), None);
    assert_eq!(date_to_day_number(i32::MIN, 1, 31), Some(31));
}

#[test]
fn days_that_are_not_have_no_number() {
    for (y, m, d) in [(2024, 0, 1), (2024, 13, 1), (2024, 4, 31), (2024, 1, 0), (2024, 1, 32)] {
        assert_eq!(date_to_day_number(y, m, d), None);
    }
}

#[test]
fn centuries_are_leap_years_by_four_hundred() {
    assert!(date_to_day_number(2400, 2, 29).is_some());
    assert!(date_to_day_number(2100, 2, 29).is_none());
}

#[test]
fn parse_date_variants() {
    assert_eq!(parse_date("2025-06-22"), parse_date("2025年6月22日"));
    assert_eq!(parse_date("2025.6.22"), parse_date("2025-06-22"));
    assert!(parse_date("无日期文本").is_none());
}

#[test]
fn parse_date_gives_the_day_number() {
    assert_eq!(parse_date("截止 2025 年 6 月 22 日前"), date_to_day_number(2025, 6, 22));
    assert_eq!(parse_date("2025/6/22"), date_to_day_number(2025, 6, 22));
    assert_eq!(parse_date("2025-02-30"), None);
    assert_eq!(parse_date("1999-02-03"), None);
}

fn groups(list: &[Option<&str>]) -> Vec<Option<String>> {
    list.iter().map(|g| g.map(|s| s.to_string())).collect()
}

#[test]
fn a_date_is_made_of_its_groups() {
    let g = groups(&[Some("x"), Some("2025"), Some("06"), Some("22")]);
    assert_eq!(date_of(&g), date_to_day_number(2025, 6, 22));
    assert_eq!(date_of(&groups(&[Some("x"), Some("2025"), Some("06")])), None);
    assert_eq!(date_of(&groups(&[Some("x"), Some("2025"), None, Some("22")])), None);
    assert_eq!(date_of(&groups(&[Some("x"), Some("二"), Some("6"), Some("22")])), None);
}

#[test]
fn parse_amount_units() {
    assert_eq!(amount("100元"), Some(100.0));
    assert_eq!(amount("50万元"), Some(500_000.0));
    assert_eq!(amount("1.5亿元"), Some(150_000_000.0));
}

#[test]
fn parse_amount_knows_every_unit() {
    assert_eq!(amount("2万亿元"), Some(2e12));
    assert_eq!(amount("2亿万元"), Some(2e12));
    assert_eq!(amount("2万"), Some(20_000.0));
    assert_eq!(amount("2 元整"), Some(2.0));
    assert_eq!(amount("2"), Some(2.0));
    assert_eq!(amount("2.25"), Some(2.25));
    assert_eq!(amount("二元"), None);
}

#[test]
fn an_amount_is_made_of_its_groups() {
    let shown = |list: &[Option<&str>]| amount_of(&groups(list)).map(|q| number(&q));
    assert_eq!(shown(&[Some("x"), Some("3.5"), Some("万元")]), Some(35_000.0));
    assert_eq!(shown(&[Some("x"), Some("3.5"), None]), Some(3.5));
    assert_eq!(shown(&[Some("x"), None, Some("万元")]), None);
    assert_eq!(shown(&[Some("x"), Some("三"), Some("万元")]), None);
}

#[test]
fn a_value_is_looked_for_close_behind_its_keyword() {
    assert_eq!(find_near("甲乙丙丁", "乙"), Some("丙丁".to_string()));
    assert_eq!(find_near("甲乙丙丁", "戊"), None);
    assert_eq!(find_near("甲乙丙丁", "["), None);
    let long = format!("预算{}", "一".repeat(70));
    assert_eq!(find_near(&long, "预算"), Some("一".repeat(60)));
}

#[test]
fn extract_metrics_from_text() {
    let texts = [
        "招标文件发出日期为2025年6月1日。",
        "投标文件递交截止时间为2025年6月22日。",
        "本项目估算价为5000万元，投标保证金为50万元。",
    ];
    let m = extract_metrics(&texts);
    let issue = get(&m, "招标文件发出日期").expect("应提取发出日期");
    let deadline = get(&m, "投标截止日期").expect("应提取截止日期");
    let gap = deadline - issue;
    assert!((gap - 21.0).abs() < 1e-6, "6月22日 - 6月1日 = 21 天，实际 {gap}");
    assert_eq!(get(&m, "招标项目估算价"), Some(50_000_000.0));
    assert_eq!(get(&m, "投标保证金金额"), Some(500_000.0));
}

#[test]
fn extract_metrics_for_day2_rules() {
    let texts = ["本项目履约保证金为80万元。", "中标金额为500万元。"];
    let m = extract_metrics(&texts);
    assert_eq!(get(&m, "履约保证金金额"), Some(800_000.0));
    assert_eq!(get(&m, "中标金额"), Some(5_000_000.0));
}

#[test]
fn a_metric_comes_at_most_once() {
    let texts = ["预算100元，预算200元", "中标金额3元", "投标报价4元"];
    let m = extract_metrics(&texts);
    let names: Vec<&str> = m.iter().map(|x| x.name.as_str()).collect();
    assert_eq!(names, vec!["采购预算金额", "投标报价总额", "中标金额"]);
    assert_eq!(get(&m, "采购预算金额"), Some(100.0));
}

#[test]
fn what_cannot_be_read_is_left_out() {
    assert!(extract_metrics(&["预算另行通知"]).is_empty());
    assert!(extract_metrics(&[]).is_empty());
}
