//! Rules, documents and the engine. Rules are written as YAML text.

use ai_bid::engine::RuleEngine;
use ai_bid::operand::{compare, CompareOp, Comparison, Distance, Measure, Operand, Order};
use ai_bid::schema::{
    Chapter, CheckMode, Clause, Conditions, Exclude, Metric, ParsedDocument, Pattern, PatternType,
    PatternValue, Quantity, Rule, RuleMatch, Scalar, Severity, Source, Trigger,
};
use serde_yaml::Value;
use std::collections::HashMap;

// ── Reading rules ──

fn text(v: &Value, key: &str) -> Option<String> {
    v.get(key).and_then(|x| x.as_str()).map(|s| s.to_string())
}

fn texts(v: &Value, key: &str) -> Option<Vec<String>> {
    v.get(key).and_then(|x| x.as_sequence()).map(|list| {
        list.iter()
            .map(|x| x.as_str().expect("a text").to_string())
            .collect()
    })
}

fn check_mode(name: &str) -> CheckMode {
    match name {
        "any_match" => CheckMode::AnyMatch,
        "all_match" => CheckMode::AllMatch,
        other => panic!("{other}"),
    }
}

fn severity(name: &str) -> Severity {
    match name {
        "critical" => Severity::Critical,
        "high" => Severity::High,
        "medium" => Severity::Medium,
        "low" => Severity::Low,
        other => panic!("{other}"),
    }
}

fn pattern_type(name: &str) -> PatternType {
    match name {
        "regex" => PatternType::Regex,
        "keyword" => PatternType::Keyword,
        "field_compare" => PatternType::FieldCompare,
        other => panic!("{other}"),
    }
}

fn pattern(v: &Value) -> Pattern {
    let value = match v.get("value") {
        Some(Value::Sequence(_)) => texts(v, "value").map(PatternValue::List),
        Some(Value::String(s)) => Some(PatternValue::Single(s.clone())),
        _ => None,
    };
    let right = match v.get("right") {
        Some(Value::Number(n)) => Some(Scalar::Num(n.as_f64().expect("a number").to_string())),
        Some(Value::String(s)) => Some(Scalar::Text(s.clone())),
        _ => None,
    };
    Pattern {
        ptype: pattern_type(&text(v, "type").expect("type")),
        value,
        operator: text(v, "operator"),
        match_mode: text(v, "match_mode"),
        left: text(v, "left"),
        right,
        target: text(v, "target"),
        description: text(v, "description"),
        unit: text(v, "unit"),
    }
}

fn conditions(v: Option<&Value>) -> Conditions {
    match v {
        None => Conditions::default(),
        Some(v) => Conditions {
            document_type: text(v, "document_type"),
            project_types: texts(v, "project_types"),
            trigger: v.get("trigger").map(|t| Trigger {
                chapter_keywords: texts(t, "chapter_keywords"),
            }),
            exclude: v.get("exclude").map(|e| Exclude {
                project_types: texts(e, "project_types"),
                clause_keywords: texts(e, "clause_keywords"),
            }),
        },
    }
}

fn rule_of(v: &Value) -> Rule {
    let source = v.get("source").expect("source");
    Rule {
        id: text(v, "id").expect("id"),
        category: text(v, "category").expect("category"),
        industry: text(v, "industry").expect("industry"),
        severity: severity(&text(v, "severity").expect("severity")),
        source: Source {
            law: text(source, "law").expect("law"),
            article: text(source, "article").expect("article"),
            version: text(source, "version"),
            effective_date: text(source, "effective_date"),
            excerpt: text(source, "excerpt"),
        },
        conditions: conditions(v.get("conditions")),
        patterns: v
            .get("patterns")
            .and_then(|p| p.as_sequence())
            .map(|list| list.iter().map(pattern).collect())
            .unwrap_or_default(),
        check: check_mode(&text(v, "check").expect("check")),
        suggestion: text(v, "suggestion").expect("suggestion"),
        law_ref: text(v, "law_ref"),
        enabled: v.get("enabled").and_then(|e| e.as_bool()).unwrap_or(true),
    }
}

fn rule_from_yaml(yaml: &str) -> Rule {
    let v: Value = serde_yaml::from_str(yaml).expect("YAML");
    rule_of(&v)
}

fn engine_from_yaml(yaml: &str) -> RuleEngine {
    let v: Value = serde_yaml::from_str(yaml).expect("YAML");
    let rules = v.get("rules").and_then(|r| r.as_sequence()).expect("rules");
    RuleEngine::from_rules(rules.iter().map(rule_of).collect())
}

// ── Working out comparisons ──

fn number(q: &Quantity) -> f64 {
    match q {
        Quantity::Days(n) => *n as f64,
        Quantity::Scaled { digits, factor } => {
            digits.parse::<f64>().expect("a number") * *factor as f64
        }
    }
}

fn value(o: &Operand) -> f64 {
    match o {
        Operand::Value(q) => number(q),
        Operand::Difference(a, b) => value(a) - value(b),
        Operand::Sum(a, b) => value(a) + value(b),
        Operand::Product(a, b) => value(a) * value(b),
    }
}

fn measure(c: &Comparison) -> Measure {
    let (l, r) = (value(&c.left), value(&c.right));
    let order = if l < r {
        Order::Less
    } else if l > r {
        Order::Greater
    } else if l == r {
        Order::Equal
    } else {
        Order::Unordered
    };
    let apart = (l - r).abs();
    let distance = if apart < f64::EPSILON {
        Distance::Near
    } else if apart >= f64::EPSILON {
        Distance::Far
    } else {
        Distance::Unknown
    };
    Measure { order, distance }
}

fn measures(engine: &RuleEngine, doc: &ParsedDocument) -> Vec<Vec<Option<Measure>>> {
    engine
        .comparisons(doc)
        .iter()
        .map(|row| row.iter().map(|c| c.as_ref().map(measure)).collect())
        .collect()
}

fn run(engine: &RuleEngine, doc: &ParsedDocument) -> Vec<RuleMatch> {
    engine.run(doc, &measures(engine, doc))
}

// ── Making documents ──

fn yaml_with(body: &str) -> String {
    format!(
        r#"
rules:
  - id: "TEST-001"
    category: "测试"
    industry: "通用"
    severity: "high"
    source:
      law: "测试法"
      article: "第一条"
{body}
    suggestion: "建议"
"#
    )
}

fn doc(
    file_name: &str,
    chapters: Vec<&str>,
    clauses: Vec<(&str, u32, &str)>,
    metrics: HashMap<String, f64>,
) -> ParsedDocument {
    ParsedDocument {
        file_name: file_name.to_string(),
        chapters: chapters
            .into_iter()
            .map(|t| Chapter { title: t.to_string() })
            .collect(),
        clauses: clauses
            .into_iter()
            .map(|(id, page, text)| Clause {
                id: id.to_string(),
                page,
                text: text.to_string(),
            })
            .collect(),
        metrics: metrics
            .into_iter()
            .map(|(name, v)| Metric {
                name,
                value: Quantity::Scaled { digits: v.to_string(), factor: 1 },
            })
            .collect(),
    }
}

fn empty_metrics() -> HashMap<String, f64> {
    HashMap::new()
}

// ── Keywords ──

#[test]
fn keyword_or_hits_on_any_word() {
    let yaml = yaml_with(
        r#"
    patterns:
      - type: "keyword"
        value: ["差别待遇", "歧视待遇"]
    check: any_match
"#,
    );
    let engine = engine_from_yaml(&yaml);
    let d = doc(
        "招标文件.docx",
        vec!["投标人资格要求"],
        vec![("C-1", 1, "招标人不得对潜在投标人实行差别待遇。")],
        empty_metrics(),
    );
    let hits = run(&engine, &d);
    assert_eq!(hits.len(), 1);
    assert_eq!(hits[0].rule_id, "TEST-001");
}

#[test]
fn keyword_misses_on_normal_text() {
    let yaml = yaml_with(
        r#"
    patterns:
      - type: "keyword"
        value: ["差别待遇", "歧视待遇"]
    check: any_match
"#,
    );
    let engine = engine_from_yaml(&yaml);
    let d = doc(
        "招标文件.docx",
        vec!["投标人资格要求"],
        vec![("C-1", 1, "投标人须具备施工总承包二级及以上资质。")],
        empty_metrics(),
    );
    assert!(run(&engine, &d).is_empty(), "无违规关键词不应命中");
}

#[test]
fn keyword_and_asks_for_every_word() {
    let yaml = yaml_with(
        r#"
    patterns:
      - type: "keyword"
        value: ["甲", "乙"]
        operator: "AND"
    check: any_match
"#,
    );
    let engine = engine_from_yaml(&yaml);
    let one = doc("a", vec![], vec![("C-1", 1, "只有甲。")], empty_metrics());
    let both = doc("a", vec![], vec![("C-1", 1, "乙在前，甲在后。")], empty_metrics());
    assert!(run(&engine, &one).is_empty());
    assert_eq!(run(&engine, &both).len(), 1);
}

#[test]
fn keyword_or_is_written_out_too() {
    let yaml = yaml_with(
        r#"
    patterns:
      - type: "keyword"
        value: ["甲", "乙"]
        operator: "OR"
    check: any_match
"#,
    );
    let engine = engine_from_yaml(&yaml);
    let one = doc("a", vec![], vec![("C-1", 1, "只有甲。")], empty_metrics());
    assert_eq!(run(&engine, &one).len(), 1);
}

#[test]
fn keyword_without_words_never_hits() {
    for op in ["OR", "AND"] {
        let yaml = yaml_with(&format!(
            r#"
    patterns:
      - type: "keyword"
        value: []
        operator: "{op}"
    check: any_match
"#
        ));
        let engine = engine_from_yaml(&yaml);
        let d = doc("a", vec![], vec![("C-1", 1, "文本。")], empty_metrics());
        assert!(run(&engine, &d).is_empty());
    }
}

// ── Regular expressions ──

#[test]
fn regex_hits_with_unicode_normalization() {
    let yaml = yaml_with(
        r#"
    patterns:
      - type: "regex"
        value: "(投标人).*(本市|本省|[\\u4e00-\\u9fa5]{2}辖区).*(注册)"
    check: any_match
"#,
    );
    let engine = engine_from_yaml(&yaml);
    let d = doc(
        "招标文件.docx",
        vec!["投标人资格要求"],
        vec![("C-2", 3, "投标人须在本市注册成立满三年。")],
        empty_metrics(),
    );
    let hits = run(&engine, &d);
    assert_eq!(hits.len(), 1, "Unicode 码点区间应被归一化后命中");
    assert_eq!(hits[0].clause_id, "C-2");
}

#[test]
fn bad_regex_skipped_but_rule_still_loads() {
    let yaml = yaml_with(
        r#"
    patterns:
      - type: "regex"
        value: "["
      - type: "keyword"
        value: ["正常关键词"]
    check: any_match
"#,
    );
    let engine = engine_from_yaml(&yaml);
    assert_eq!(engine.rule_count(), 1);
    let d = doc(
        "招标文件.docx",
        vec!["投标人资格要求"],
        vec![("C-1", 1, "包含正常关键词的文本。")],
        empty_metrics(),
    );
    let hits = run(&engine, &d);
    assert_eq!(hits.len(), 1, "keyword pattern 应仍可命中");
}

#[test]
fn a_bad_regex_does_not_shift_the_others() {
    let yaml = yaml_with(
        r#"
    patterns:
      - type: "regex"
        value: "["
      - type: "regex"
        value: "甲+"
    check: any_match
"#,
    );
    let engine = engine_from_yaml(&yaml);
    let d = doc("a", vec![], vec![("C-1", 1, "甲甲"), ("C-2", 1, "乙")], empty_metrics());
    let hits = run(&engine, &d);
    assert_eq!(hits.len(), 1);
    assert_eq!(hits[0].clause_id, "C-1");
}

#[test]
fn all_match_fails_with_a_bad_regex() {
    let yaml = yaml_with(
        r#"
    patterns:
      - type: "regex"
        value: "["
      - type: "regex"
        value: "甲+"
    check: all_match
"#,
    );
    let engine = engine_from_yaml(&yaml);
    let d = doc("a", vec![], vec![("C-1", 1, "甲甲")], empty_metrics());
    assert!(run(&engine, &d).is_empty());
}

// ── Field comparisons ──

#[test]
fn field_compare_hits_when_condition_true() {
    let yaml = yaml_with(
        r#"
    patterns:
      - type: "field_compare"
        left: "投标截止日期 - 招标文件发出日期"
        operator: "<"
        right: 20
    check: any_match
"#,
    );
    let engine = engine_from_yaml(&yaml);
    let mut metrics = HashMap::new();
    metrics.insert("招标文件发出日期".to_string(), 100.0);
    metrics.insert("投标截止日期".to_string(), 115.0);
    let d = doc(
        "施工招标文件.docx",
        vec!["投标须知前附表"],
        vec![("C-1", 1, "公开招标")],
        metrics,
    );
    let hits = run(&engine, &d);
    assert_eq!(hits.len(), 1, "15 天 < 20 天应命中");
    assert_eq!(hits[0].clause_id, "<metrics>");
    assert_eq!(hits[0].matched_text, "投标截止日期 - 招标文件发出日期 < 20");
}

#[test]
fn field_compare_no_hit_when_condition_false() {
    let yaml = yaml_with(
        r#"
    patterns:
      - type: "field_compare"
        left: "投标截止日期 - 招标文件发出日期"
        operator: "<"
        right: 20
    check: any_match
"#,
    );
    let engine = engine_from_yaml(&yaml);
    let mut metrics = HashMap::new();
    metrics.insert("招标文件发出日期".to_string(), 100.0);
    metrics.insert("投标截止日期".to_string(), 125.0);
    let d = doc(
        "施工招标文件.docx",
        vec!["投标须知前附表"],
        vec![("C-1", 1, "公开招标")],
        metrics,
    );
    assert!(run(&engine, &d).is_empty(), "25 天 ≥ 20 不应命中");
}

#[test]
fn field_compare_unresolvable_operand_is_conservative() {
    let yaml = yaml_with(
        r#"
    patterns:
      - type: "field_compare"
        left: "不存在的字段"
        operator: ">"
        right: 10
    check: any_match
"#,
    );
    let engine = engine_from_yaml(&yaml);
    let d = doc("招标文件.docx", vec![], vec![("C-1", 1, "公开招标")], empty_metrics());
    assert!(run(&engine, &d).is_empty(), "操作数无法解析应保守不命中");
    // Even a measure that says otherwise changes nothing.
    let greater = Measure { order: Order::Greater, distance: Distance::Far };
    assert!(engine.run(&d, &vec![vec![Some(greater)]]).is_empty());
}

#[test]
fn field_compare_works_out_expressions() {
    let yaml = yaml_with(
        r#"
    patterns:
      - type: "field_compare"
        left: "投标保证金金额"
        operator: ">"
        right: "招标项目估算价 * 0.02"
    check: any_match
"#,
    );
    let engine = engine_from_yaml(&yaml);
    for (deposit, expected) in [(1_500_000.0, 1), (500_000.0, 0)] {
        let mut metrics = HashMap::new();
        metrics.insert("招标项目估算价".to_string(), 50_000_000.0);
        metrics.insert("投标保证金金额".to_string(), deposit);
        let d = doc("a", vec![], vec![("C-1", 1, "公开招标")], metrics);
        assert_eq!(run(&engine, &d).len(), expected);
    }
}

#[test]
fn field_compare_knows_six_operators() {
    let cases = [
        ("<", [true, false, false]),
        ("<=", [true, true, false]),
        (">", [false, false, true]),
        (">=", [false, true, true]),
        ("==", [false, true, false]),
        ("!=", [true, false, true]),
        ("=", [false, false, false]),
    ];
    for (op, expected) in cases {
        let yaml = yaml_with(&format!(
            r#"
    patterns:
      - type: "field_compare"
        left: "中标金额"
        operator: "{op}"
        right: 2
    check: any_match
"#
        ));
        let engine = engine_from_yaml(&yaml);
        for (n, hit) in [1.0, 2.0, 3.0].into_iter().zip(expected) {
            let mut metrics = HashMap::new();
            metrics.insert("中标金额".to_string(), n);
            let d = doc("a", vec![], vec![("C-1", 1, "公开招标")], metrics);
            assert_eq!(!run(&engine, &d).is_empty(), hit, "{n} {op} 2");
        }
    }
}

#[test]
fn field_compare_all_match_needs_every_comparison() {
    let yaml = yaml_with(
        r#"
    patterns:
      - type: "field_compare"
        left: "中标金额"
        operator: ">"
        right: 1
      - type: "field_compare"
        left: "履约保证金金额"
        operator: ">"
        right: 1
      - type: "keyword"
        value: ["不看文本"]
    check: all_match
"#,
    );
    let engine = engine_from_yaml(&yaml);
    let mut metrics = HashMap::new();
    metrics.insert("中标金额".to_string(), 5.0);
    let d = doc("a", vec![], vec![("C-1", 1, "公开招标")], metrics.clone());
    assert!(run(&engine, &d).is_empty());
    metrics.insert("履约保证金金额".to_string(), 5.0);
    let d = doc("a", vec![], vec![("C-1", 1, "公开招标")], metrics);
    let hits = run(&engine, &d);
    assert_eq!(hits.len(), 1);
    assert_eq!(hits[0].matched_text, "中标金额 > 1");
}

// ── Conditions ──

#[test]
fn conditions_exclude_beats_trigger() {
    let yaml = yaml_with(
        r#"
    patterns:
      - type: "keyword"
        value: ["地域限制关键词"]
    conditions:
      project_types: ["施工招标"]
      trigger:
        chapter_keywords: ["投标人资格"]
      exclude:
        project_types: ["国际招标"]
    check: any_match
"#,
    );
    let engine = engine_from_yaml(&yaml);
    let d = doc(
        "招标文件.docx",
        vec!["投标人资格"],
        vec![
            ("C-0", 1, "本项目为国际招标。"),
            ("C-1", 2, "含地域限制关键词的文本。"),
        ],
        empty_metrics(),
    );
    assert!(run(&engine, &d).is_empty(), "命中 exclude.project_types 应被排除");
}

#[test]
fn conditions_exclude_looks_at_every_clause() {
    let yaml = yaml_with(
        r#"
    patterns:
      - type: "keyword"
        value: ["某关键词"]
    conditions:
      exclude:
        clause_keywords: ["另有约定"]
    check: any_match
"#,
    );
    let engine = engine_from_yaml(&yaml);
    let open = doc("a", vec![], vec![("C-1", 1, "某关键词")], empty_metrics());
    assert_eq!(run(&engine, &open).len(), 1);
    let closed = doc(
        "a",
        vec![],
        vec![("C-1", 1, "某关键词"), ("C-2", 1, "双方另有约定的除外")],
        empty_metrics(),
    );
    assert!(run(&engine, &closed).is_empty());
}

#[test]
fn conditions_document_type_must_match() {
    let yaml = yaml_with(
        r#"
    patterns:
      - type: "keyword"
        value: ["某关键词"]
    conditions:
      document_type: "投标文件"
    check: any_match
"#,
    );
    let engine = engine_from_yaml(&yaml);
    let d = doc(
        "招标文件.docx",
        vec![],
        vec![("C-1", 1, "包含某关键词的文本。")],
        empty_metrics(),
    );
    assert!(run(&engine, &d).is_empty(), "文档类型不匹配不应触发");
}

#[test]
fn conditions_trigger_chapter_required() {
    let yaml = yaml_with(
        r#"
    patterns:
      - type: "keyword"
        value: ["某关键词"]
    conditions:
      trigger:
        chapter_keywords: ["投标人资格"]
    check: any_match
"#,
    );
    let engine = engine_from_yaml(&yaml);
    let d = doc(
        "招标文件.docx",
        vec!["其他章节"],
        vec![("C-1", 1, "包含某关键词的文本。")],
        empty_metrics(),
    );
    assert!(run(&engine, &d).is_empty(), "触发章节不满足不应触发");
}

// ── Check modes ──

#[test]
fn all_match_requires_all_patterns() {
    let yaml = yaml_with(
        r#"
    patterns:
      - type: "keyword"
        value: ["中标通知书"]
      - type: "regex"
        value: "(有权|可)(单方)?变更中标(结果|人)"
    check: all_match
"#,
    );
    let engine = engine_from_yaml(&yaml);
    let d1 = doc(
        "招标文件.docx",
        vec!["定标与授标"],
        vec![("C-9", 12, "中标通知书发出后，招标人有权单方变更中标结果。")],
        empty_metrics(),
    );
    assert_eq!(run(&engine, &d1).len(), 1, "all_match 两模式齐备应触发");
    let d2 = doc(
        "招标文件.docx",
        vec!["定标与授标"],
        vec![("C-9", 12, "中标通知书发出后对招标人和中标人具有法律效力。")],
        empty_metrics(),
    );
    assert!(run(&engine, &d2).is_empty(), "all_match 缺任一模式不应触发");
}

#[test]
fn absence_mode_hits_when_keyword_missing() {
    let yaml = yaml_with(
        r#"
    patterns:
      - type: "keyword"
        value: ["安全生产许可证"]
        match_mode: "absence"
    check: any_match
"#,
    );
    let engine = engine_from_yaml(&yaml);
    let d = doc(
        "投标文件.docx",
        vec!["资质证书"],
        vec![("C-1", 1, "营业执照、建筑业企业资质证书。")],
        empty_metrics(),
    );
    let hits = run(&engine, &d);
    assert_eq!(hits.len(), 1, "缺少安全生产许可证应命中（absence）");
    assert_eq!(hits[0].clause_id, "<document>");
    assert_eq!(hits[0].matched_text, "（目标章节缺少要求的内容）");
}

#[test]
fn absence_mode_no_hit_when_keyword_present() {
    let yaml = yaml_with(
        r#"
    patterns:
      - type: "keyword"
        value: ["安全生产许可证"]
        match_mode: "absence"
    check: any_match
"#,
    );
    let engine = engine_from_yaml(&yaml);
    let d = doc(
        "投标文件.docx",
        vec!["资质证书"],
        vec![("C-1", 1, "营业执照、安全生产许可证。")],
        empty_metrics(),
    );
    assert!(run(&engine, &d).is_empty(), "已含安全生产许可证不应命中");
}

#[test]
fn all_match_asks_for_every_absence() {
    let yaml = yaml_with(
        r#"
    patterns:
      - type: "keyword"
        value: ["甲"]
      - type: "keyword"
        value: ["乙"]
        match_mode: "absence"
    check: all_match
"#,
    );
    let engine = engine_from_yaml(&yaml);
    let d = doc("a", vec![], vec![("C-1", 1, "甲和乙")], empty_metrics());
    assert!(run(&engine, &d).is_empty());
    let d = doc("a", vec![], vec![("C-1", 1, "甲"), ("C-2", 1, "乙")], empty_metrics());
    assert!(run(&engine, &d).is_empty());
    let d = doc("a", vec![], vec![("C-1", 1, "甲和丙"), ("C-2", 1, "丙")], empty_metrics());
    let hits = run(&engine, &d);
    assert_eq!(hits.len(), 1);
    assert_eq!(hits[0].clause_id, "C-1");
}

#[test]
fn all_absences_find_the_document() {
    let yaml = yaml_with(
        r#"
    patterns:
      - type: "keyword"
        value: ["安全生产许可证"]
        match_mode: "absence"
      - type: "keyword"
        value: ["资质证书"]
        match_mode: "absence"
    check: all_match
"#,
    );
    let engine = engine_from_yaml(&yaml);
    let d = doc("a", vec![], vec![("C-1", 1, "营业执照。")], empty_metrics());
    let hits = run(&engine, &d);
    assert_eq!(hits.len(), 1);
    assert_eq!(hits[0].clause_id, "<document>");
    let d = doc("a", vec![], vec![("C-1", 1, "资质证书。")], empty_metrics());
    assert!(run(&engine, &d).is_empty());
}

#[test]
fn contrary_operators_exclude_each_other() {
    let pairs = [
        (CompareOp::Less, CompareOp::GreaterOrEqual),
        (CompareOp::Greater, CompareOp::LessOrEqual),
        (CompareOp::Equal, CompareOp::NotEqual),
    ];
    for (order, distance, expected) in [
        (Order::Less, Distance::Far, [true, false, false]),
        (Order::Less, Distance::Near, [true, false, true]),
        (Order::Equal, Distance::Near, [false, false, true]),
        (Order::Greater, Distance::Far, [false, true, false]),
    ] {
        let m = Measure { order, distance };
        for ((op, other), hit) in pairs.into_iter().zip(expected) {
            assert_eq!(compare(op, m), hit);
            assert_eq!(compare(other, m), !hit);
        }
    }
    let none = Measure { order: Order::Unordered, distance: Distance::Unknown };
    for (op, other) in pairs {
        assert!(!compare(op, none) && !compare(other, none));
    }
}

// ── The engine ──

#[test]
fn disabled_rule_skipped() {
    let yaml = r#"
rules:
  - id: "TEST-001"
    category: "测试"
    industry: "通用"
    severity: "high"
    enabled: false
    source:
      law: "测试法"
      article: "第一条"
    patterns:
      - type: "keyword"
        value: ["测试"]
    check: any_match
    suggestion: "建议"
"#;
    let engine = engine_from_yaml(yaml);
    assert_eq!(engine.rule_count(), 0, "enabled=false 的规则应被跳过");
}

#[test]
fn empty_rules_and_doc_no_panic() {
    let engine = engine_from_yaml("rules: []");
    assert_eq!(engine.rule_count(), 0);
    let d = ParsedDocument::default();
    assert!(run(&engine, &d).is_empty());
}

const TWO_RULES: &str = r#"
rules:
  - id: "LOW-001"
    category: "测试"
    industry: "通用"
    severity: "low"
    source: { law: "测试法", article: "第一条" }
    patterns:
      - type: "keyword"
        value: ["低风险关键词"]
    check: any_match
    suggestion: "建议"
  - id: "CRIT-001"
    category: "测试"
    industry: "通用"
    severity: "critical"
    source: { law: "测试法", article: "第一条" }
    patterns:
      - type: "keyword"
        value: ["高风险关键词"]
    check: any_match
    suggestion: "建议"
"#;

#[test]
fn matches_sorted_by_severity() {
    let engine = engine_from_yaml(TWO_RULES);
    let d = doc(
        "招标文件.docx",
        vec![],
        vec![("C-1", 1, "同时包含低风险关键词与高风险关键词。")],
        empty_metrics(),
    );
    let hits = run(&engine, &d);
    assert_eq!(hits.len(), 2);
    assert_eq!(hits[0].rule_id, "CRIT-001", "critical 应排在 low 前面");
}

#[test]
fn matches_of_one_severity_keep_their_order() {
    let engine = engine_from_yaml(TWO_RULES);
    let d = doc(
        "a",
        vec![],
        vec![
            ("C-1", 1, "低风险关键词"),
            ("C-2", 1, "高风险关键词"),
            ("C-3", 1, "低风险关键词、高风险关键词"),
        ],
        empty_metrics(),
    );
    let places: Vec<(String, String)> = run(&engine, &d)
        .into_iter()
        .map(|m| (m.rule_id, m.clause_id))
        .collect();
    let expected = [
        ("CRIT-001", "C-2"),
        ("CRIT-001", "C-3"),
        ("LOW-001", "C-1"),
        ("LOW-001", "C-3"),
    ];
    assert_eq!(places.len(), expected.len());
    for (place, (rule, clause)) in places.iter().zip(expected) {
        assert_eq!(place.0, rule);
        assert_eq!(place.1, clause);
    }
}

#[test]
fn get_rule_by_id() {
    let yaml = yaml_with(
        r#"
    patterns:
      - type: "keyword"
        value: ["测试"]
    check: any_match
"#,
    );
    let engine = engine_from_yaml(&yaml);
    let rule = engine.get_rule("TEST-001").expect("规则应存在");
    assert_eq!(rule.severity, Severity::High);
    assert!(engine.get_rule("NOPE-999").is_none());
}

#[test]
fn rule_ids_come_in_the_order_of_the_file() {
    let engine = engine_from_yaml(TWO_RULES);
    assert_eq!(engine.rule_ids(), vec!["LOW-001", "CRIT-001"]);
}

#[test]
fn a_batch_gives_what_the_runs_give() {
    let engine = engine_from_yaml(TWO_RULES);
    let a = doc("a", vec![], vec![("C-1", 1, "高风险关键词")], empty_metrics());
    let b = doc("b", vec![], vec![("C-1", 1, "无")], empty_metrics());
    let results = engine.run_batch(&[&a, &b], &vec![measures(&engine, &a)]);
    assert_eq!(results.len(), 2);
    assert_eq!(results[0], run(&engine, &a));
    assert_eq!(results[1], run(&engine, &b));
}

#[test]
fn a_finding_shows_law_and_text() {
    let yaml = yaml_with(
        r#"
    patterns:
      - type: "keyword"
        value: ["长"]
    check: any_match
"#,
    );
    let engine = engine_from_yaml(&yaml);
    let long = "长".repeat(130);
    let d = doc("a", vec![], vec![("C-1", 1, &long)], empty_metrics());
    let hits = run(&engine, &d);
    assert_eq!(hits[0].law_ref, "《测试法》第一条");
    assert_eq!(hits[0].severity, "high");
    assert_eq!(hits[0].category, "测试");
    assert_eq!(hits[0].suggestion, "建议");
    assert_eq!(hits[0].matched_text, "长".repeat(120));
}

#[test]
fn a_finding_takes_the_reference_of_its_rule() {
    let yaml = yaml_with(
        r#"
    law_ref: "某法第二条"
    patterns:
      - type: "keyword"
        value: ["文"]
    check: any_match
"#,
    );
    let engine = engine_from_yaml(&yaml);
    let d = doc("a", vec![], vec![("C-1", 1, "文")], empty_metrics());
    assert_eq!(run(&engine, &d)[0].law_ref, "某法第二条");
}

#[test]
fn a_clause_fires_by_the_given_matches() {
    let rule = rule_from_yaml(
        r#"
id: "TEST-005"
category: "测试"
industry: "通用"
severity: "high"
source: { law: "测试法", article: "第一条" }
patterns:
  - type: "regex"
    value: "甲"
  - type: "keyword"
    value: ["乙"]
check: all_match
suggestion: "建议"
"#,
    );
    assert!(ai_bid::engine::clause_fires(&rule, &vec![true, false], "乙"));
    assert!(!ai_bid::engine::clause_fires(&rule, &vec![false, false], "乙"));
    assert!(!ai_bid::engine::clause_fires(&rule, &vec![true, true], "丙"));
}

// ── The rule model ──

#[test]
fn severities_have_names_and_ranks() {
    for (s, name, rank) in [
        (Severity::Critical, "critical", 0),
        (Severity::High, "high", 1),
        (Severity::Medium, "medium", 2),
        (Severity::Low, "low", 3),
    ] {
        assert_eq!(s.as_str(), name);
        assert_eq!(s.rank(), rank);
        assert_eq!(ai_bid::engine::severity_rank(name), rank);
    }
    assert_eq!(ai_bid::engine::severity_rank("warning"), 2);
    assert_eq!(ai_bid::engine::severity_rank("other"), 3);
}

#[test]
fn field_compare_scalar_untagged() {
    let yaml = r#"
id: "TEST-003"
category: "测试"
industry: "通用"
severity: "medium"
source:
  law: "测试法"
  article: "第一条"
patterns:
  - type: "field_compare"
    left: "投标保证金金额"
    operator: ">"
    right: 20
  - type: "field_compare"
    left: "投标保证金金额"
    operator: ">"
    right: "招标项目估算价 * 0.02"
check: any_match
suggestion: "建议"
"#;
    let rule = rule_from_yaml(yaml);
    let fc: Vec<&Pattern> = rule
        .patterns
        .iter()
        .filter(|p| p.ptype == PatternType::FieldCompare)
        .collect();
    assert_eq!(fc.len(), 2);
    assert_eq!(fc[0].right.as_ref().unwrap().as_expr(), "20");
    assert_eq!(fc[1].right.as_ref().unwrap().as_expr(), "招标项目估算价 * 0.02");
}

#[test]
fn regex_value_single_string() {
    let yaml = r#"
id: "TEST-004"
category: "测试"
industry: "通用"
severity: "high"
source:
  law: "测试法"
  article: "第一条"
patterns:
  - type: "regex"
    value: "(投标人).*(本市|本省)"
check: any_match
suggestion: "建议"
"#;
    let rule = rule_from_yaml(yaml);
    assert_eq!(
        rule.patterns[0].value.as_ref().unwrap().as_single(),
        Some("(投标人).*(本市|本省)".to_string())
    );
}

#[test]
fn pattern_values_read_either_way() {
    let single = PatternValue::Single("甲".to_string());
    assert_eq!(single.as_list(), vec!["甲"]);
    let list = PatternValue::List(vec!["甲".to_string(), "乙".to_string()]);
    assert_eq!(list.as_list(), vec!["甲", "乙"]);
    assert_eq!(list.as_single(), Some("甲".to_string()));
    assert_eq!(PatternValue::List(Vec::new()).as_single(), None);
}

#[test]
fn parsed_document_default_is_empty() {
    let doc = ParsedDocument::default();
    assert!(doc.clauses.is_empty());
    assert!(doc.chapters.is_empty());
    assert!(doc.metrics.is_empty());
    assert!(doc.file_name.is_empty());
}

// ── Operands ──

fn metric(name: &str, n: u64) -> Metric {
    Metric { name: name.to_string(), value: Quantity::Days(n) }
}

#[test]
fn operands_are_worked_out() {
    let metrics = vec![metric("甲", 7), metric("乙", 3)];
    let of = |e: &str| ai_bid::operand::resolve_operand(e, &metrics).map(|o| value(&o));
    assert_eq!(of(" 12.5 "), Some(12.5));
    assert_eq!(of("甲"), Some(7.0));
    assert_eq!(of("甲 - 乙"), Some(4.0));
    assert_eq!(of("甲 + 乙"), Some(10.0));
    assert_eq!(of("甲 * 0.5"), Some(3.5));
    // The sign that is looked for first splits first.
    assert_eq!(of("甲 * 2 - 乙 * 2"), Some(8.0));
    assert_eq!(of("甲 - 乙 - 1"), Some(7.0 - (3.0 - 1.0)));
    assert_eq!(of("甲-乙"), None);
    assert_eq!(of("丙"), None);
    assert_eq!(of("甲 - 丙"), None);
    assert_eq!(of(""), None);
}
