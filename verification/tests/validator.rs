//! Article numbers and the static checks on rules.

use ai_bid::article::{article_fits, normalize_article};
use ai_bid::schema::{
    CheckMode, Conditions, Exclude, Pattern, PatternType, PatternValue, Rule, Severity, Source,
    Trigger,
};
use ai_bid::validator::{
    RuleValidator, ValidationIssue, ValidationReport, INDUSTRIES, KNOWN_LAWS,
};

fn pattern(ptype: PatternType, value: Option<PatternValue>) -> Pattern {
    Pattern {
        ptype,
        value,
        operator: None,
        match_mode: None,
        left: None,
        right: None,
        target: None,
        description: None,
        unit: None,
    }
}

fn regex(source: &str) -> Pattern {
    pattern(PatternType::Regex, Some(PatternValue::Single(source.to_string())))
}

fn rule(id: &str) -> Rule {
    Rule {
        id: id.to_string(),
        category: "测试".to_string(),
        industry: "通用".to_string(),
        severity: Severity::High,
        source: Source {
            law: "中华人民共和国招标投标法".to_string(),
            article: "第十八条".to_string(),
            version: None,
            effective_date: None,
            excerpt: None,
        },
        conditions: Conditions::default(),
        patterns: vec![regex("甲[\\u4e00-\\u9fa5]")],
        check: CheckMode::AnyMatch,
        suggestion: "建议".to_string(),
        law_ref: None,
        enabled: true,
    }
}

fn shown(report: &ValidationReport) -> Vec<(&str, &str)> {
    report.issues.iter().map(|i| (i.field, i.message.as_str())).collect()
}

#[test]
fn article_normalization_works() {
    assert_eq!(normalize_article("第十八条"), Some(18));
    assert_eq!(normalize_article("第18条"), Some(18));
    assert_eq!(normalize_article("第2条"), Some(2));
    assert_eq!(normalize_article("第一百二十条"), Some(120));
    assert_eq!(normalize_article("第3款"), None);
    assert_eq!(normalize_article(""), None);
}

#[test]
fn articles_come_in_other_forms() {
    assert_eq!(normalize_article("十八条"), Some(18));
    assert_eq!(normalize_article(" 第十八 "), Some(18));
    assert_eq!(normalize_article("第十条条"), Some(10));
    assert_eq!(normalize_article("第一千条"), None);
    assert_eq!(normalize_article("第条"), None);
    assert_eq!(normalize_article("条"), None);
    assert_eq!(normalize_article("十八"), None);
    assert_eq!(normalize_article("18条"), None);
    assert_eq!(normalize_article("+7条"), None);
    assert_eq!(normalize_article("第+7条"), Some(7));
    assert_eq!(normalize_article("第4294967295条"), Some(u32::MAX));
    assert_eq!(normalize_article("第4294967296条"), None);
    assert_eq!(normalize_article("第一百零五条"), Some(105));
    assert_eq!(normalize_article("第百条"), Some(100));
    assert_eq!(normalize_article("第一二条"), Some(2));
}

#[test]
fn chinese_numerals_read_back() {
    let digits = ["", "一", "二", "三", "四", "五", "六", "七", "八", "九"];
    for n in 1..100usize {
        let tens = match n / 10 {
            0 => String::new(),
            1 => "十".to_string(),
            t => format!("{}十", digits[t]),
        };
        let numeral = format!("{}{}", tens, digits[n % 10]);
        assert_eq!(normalize_article(&format!("第{numeral}条")), Some(n as u32));
        assert_eq!(normalize_article(&format!("{numeral}条")), Some(n as u32));
        assert_eq!(normalize_article(&format!("第{n}条")), Some(n as u32));
    }
}

#[test]
fn an_article_may_be_too_large() {
    assert!(article_fits("第十八条"));
    assert!(article_fits("无"));
    let huge = format!("第{}条", "九百".repeat(4_772_186));
    assert!(!article_fits(&huge));
    let large = format!("第{}条", "九百".repeat(4_772_185));
    assert!(article_fits(&large));
    assert_eq!(normalize_article(&large), Some(900 * 4_772_185));
}

#[test]
fn known_laws_include_common_ones() {
    assert!(KNOWN_LAWS
        .iter()
        .any(|(law, _)| *law == "中华人民共和国招标投标法"));
    assert!(INDUSTRIES.contains(&"建筑工程"));
}

#[test]
fn a_sound_rule_passes() {
    let report = RuleValidator::validate(&rule("A"));
    assert!(report.is_pass());
    assert_eq!((report.total, report.passed), (1, 1));
}

#[test]
fn an_unknown_law_is_an_issue() {
    let mut r = rule("A");
    r.source.law = "某法".to_string();
    let report = RuleValidator::validate(&r);
    assert_eq!((report.total, report.passed), (1, 0));
    assert_eq!(report.issues[0].rule_id, "A");
    assert_eq!(
        shown(&report),
        vec![("source.law", "法条名称不在本地法规清单内: '某法'（请登记到 KNOWN_LAWS）")]
    );
}

#[test]
fn an_article_beyond_its_law_is_an_issue() {
    let mut r = rule("A");
    r.source.article = "第六十八条".to_string();
    assert!(RuleValidator::validate(&r).is_pass());
    r.source.article = "第六十九条".to_string();
    assert_eq!(
        shown(&RuleValidator::validate(&r)),
        vec![("source.article", "条款序号 69 超出《中华人民共和国招标投标法》上限（68 条）")]
    );
}

#[test]
fn an_article_without_a_number_is_an_issue() {
    let mut r = rule("A");
    r.source.article = "第3款".to_string();
    assert_eq!(
        shown(&RuleValidator::validate(&r)),
        vec![(
            "source.article",
            "条款编号格式不合法: '第3款'（支持 '第十八条' / '第18条'）"
        )]
    );
}

#[test]
fn a_regex_that_does_not_compile_is_an_issue() {
    let mut r = rule("A");
    r.patterns.push(regex("["));
    let report = RuleValidator::validate(&r);
    assert_eq!(report.issues.len(), 1);
    let reason = regex::Regex::new("[").unwrap_err();
    assert_eq!(
        report.issues[0].message,
        format!("第 2 个 regex 编译失败: {reason}（pattern = [）")
    );
}

#[test]
fn a_regex_without_a_value_is_an_issue() {
    let mut r = rule("A");
    r.patterns = vec![
        pattern(PatternType::Regex, None),
        pattern(PatternType::Regex, Some(PatternValue::List(Vec::new()))),
        pattern(PatternType::Keyword, None),
    ];
    assert_eq!(
        shown(&RuleValidator::validate(&r)),
        vec![
            ("patterns.regex", "regex pattern 缺少 value"),
            ("patterns.regex", "regex pattern 缺少 value"),
        ]
    );
}

#[test]
fn refusals_can_be_given() {
    let mut r = rule("A");
    r.patterns.push(regex("乙"));
    let report = RuleValidator::validate_given(&r, &vec![None, Some("because".to_string())]);
    assert_eq!(
        shown(&report),
        vec![("patterns.regex", "第 2 个 regex 编译失败: because（pattern = 乙）")]
    );
}

#[test]
fn conditions_that_contradict_each_other_are_issues() {
    let mut r = rule("A");
    r.conditions = Conditions {
        document_type: None,
        project_types: Some(vec!["施工".to_string(), "货物".to_string()]),
        trigger: Some(Trigger {
            chapter_keywords: Some(vec!["甲\"".to_string(), "乙".to_string(), "丙".to_string()]),
        }),
        exclude: Some(Exclude {
            project_types: Some(vec!["货物".to_string()]),
            clause_keywords: Some(vec!["丙".to_string(), "甲\"".to_string()]),
        }),
    };
    assert_eq!(
        shown(&RuleValidator::validate(&r)),
        vec![
            (
                "conditions",
                "trigger.chapter_keywords 与 exclude.clause_keywords 重叠: [\"甲\\\"\", \"丙\"]"
            ),
            ("conditions", "project_types 与 exclude.project_types 重叠: [\"货物\"]"),
        ]
    );
}

#[test]
fn an_unknown_industry_is_an_issue() {
    let mut r = rule("A");
    r.industry = "农业".to_string();
    assert_eq!(
        shown(&RuleValidator::validate(&r)),
        vec![(
            "industry",
            "industry '农业' 不在分类体系内 [\"建筑工程\", \"政府采购\", \"IT\", \"通用\"]"
        )]
    );
}

#[test]
fn reports_add_up() {
    let mut bad = rule("B");
    bad.industry = "农业".to_string();
    bad.source.law = "某法".to_string();
    let rules = [rule("A"), bad, rule("C")];
    let report = RuleValidator::validate_all(&rules);
    assert_eq!((report.total, report.passed), (3, 2));
    let fields: Vec<&str> = report.issues.iter().map(|i| i.field).collect();
    assert_eq!(fields, vec!["source.law", "industry"]);
    assert!(report.issues.iter().all(|i| i.rule_id == "B"));
    assert!(!report.is_pass());
    let ids: Vec<&str> = RuleValidator::passing(&rules).iter().map(|r| r.id.as_str()).collect();
    assert_eq!(ids, vec!["A", "C"]);
    let none = ValidationReport::default();
    assert!(none.is_pass() && none.total == 0 && none.passed == 0);
}

#[test]
fn issues_are_grouped_by_field() {
    let issue = |field: &'static str, id: &str| ValidationIssue {
        rule_id: id.to_string(),
        field,
        message: String::new(),
    };
    let issues = vec![issue("a", "1"), issue("b", "2"), issue("a", "3"), issue("c", "4")];
    let groups: Vec<(&str, Vec<usize>)> = ai_bid::cases::group_issues(&issues)
        .into_iter()
        .map(|g| (g.field, g.places))
        .collect();
    assert_eq!(groups, vec![("a", vec![0, 2]), ("b", vec![1]), ("c", vec![3])]);
}
