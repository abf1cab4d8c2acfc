//! Drafting rules, and judging drafts and cases.

use ai_bid::cases::{
    above_threshold, count_outcome, hits_rule, is_environment_error, is_first_of_rule, judge_case,
    topic_of, uncovered_rules, Case, Outcome, Tally,
};
use ai_bid::generate_rule::{
    args_of, generation_result, judge_draft, reply_text, user_content, GenerateRuleArgs,
    GenerateRuleRequest, GenerateRuleTool,
};
use ai_bid::schema::{
    CheckMode, Conditions, Pattern, PatternType, PatternValue, Rule, RuleMatch, Severity, Source,
};

fn draft(industry: &str) -> Rule {
    Rule {
        id: "MOCK-001".to_string(),
        category: "资质资格".to_string(),
        industry: industry.to_string(),
        severity: Severity::High,
        source: Source {
            law: "中华人民共和国招标投标法".to_string(),
            article: "第十八条".to_string(),
            version: None,
            effective_date: None,
            excerpt: None,
        },
        conditions: Conditions::default(),
        patterns: vec![Pattern {
            ptype: PatternType::Keyword,
            value: Some(PatternValue::List(vec!["资格审查".to_string()])),
            operator: Some("OR".to_string()),
            match_mode: None,
            left: None,
            right: None,
            target: None,
            description: None,
            unit: None,
        }],
        check: CheckMode::AnyMatch,
        suggestion: "招标人应依法进行资格审查。".to_string(),
        law_ref: None,
        enabled: true,
    }
}

#[test]
fn extract_yaml_strips_fences() {
    let with_fence = "```yaml\nid: TEST-001\ncategory: 测试\n```\n补充说明";
    assert_eq!(GenerateRuleTool::extract_yaml(with_fence), "id: TEST-001\ncategory: 测试");
}

#[test]
fn extract_yaml_passes_through_plain() {
    let plain = "id: TEST-002\ncategory: 测试\n";
    assert_eq!(GenerateRuleTool::extract_yaml(plain), "id: TEST-002\ncategory: 测试");
}

#[test]
fn extract_yaml_takes_other_fences() {
    assert_eq!(GenerateRuleTool::extract_yaml("前文\n```yml\na: 1\n```"), "a: 1");
    assert_eq!(GenerateRuleTool::extract_yaml("```\na: 1\n```"), "a: 1");
    assert_eq!(GenerateRuleTool::extract_yaml("```json\n{}\n```"), "json\n{}");
    assert_eq!(GenerateRuleTool::extract_yaml("```yaml\na: 1"), "```yaml\na: 1");
    assert_eq!(GenerateRuleTool::extract_yaml("```yaml``` ```x```"), "");
}

#[test]
fn the_question_names_topic_law_and_article() {
    let mut args = GenerateRuleArgs { topic: "保证金".to_string(), law: None, article: None };
    assert_eq!(user_content(&args), "条款样本/主题：\n保证金\n");
    args.law = Some("某法".to_string());
    assert_eq!(user_content(&args), "条款样本/主题：\n保证金\n\n法律依据：某法");
    for article in ["第二十六条", "二十六", "第第二十六条条"] {
        args.article = Some(article.to_string());
        assert_eq!(
            user_content(&args),
            "条款样本/主题：\n保证金\n\n法律依据：某法 第二十六条"
        );
    }
}

#[test]
fn a_request_is_taken_over() {
    let args = args_of(GenerateRuleRequest {
        topic: "t".to_string(),
        law: Some("l".to_string()),
        article: None,
    });
    assert_eq!((args.topic.as_str(), args.law.as_deref(), args.article), ("t", Some("l"), None));
}

#[test]
fn a_reply_is_its_content_or_its_thought() {
    let some = |s: &str| Some(s.to_string());
    assert_eq!(reply_text(some("甲 "), some("乙")), some("甲 "));
    assert_eq!(reply_text(None, some("乙")), some("乙"));
    assert_eq!(reply_text(None, None), None);
    assert_eq!(reply_text(some(" \n\u{3000}"), some("乙")), None);
}

#[test]
fn a_draft_that_passes_is_kept() {
    let d = draft("通用");
    let verdict = judge_draft(&d, 1_700_000_000);
    assert_eq!(verdict.file_name.as_deref(), Some("MOCK-001-1700000000.yml"));
    let result = generation_result(
        &d,
        "id: x".to_string(),
        &verdict.report,
        Some("rules/_drafts/a.yml".to_string()),
    );
    assert!(result.passed && result.issues.is_empty());
    assert_eq!(result.rule_id, "MOCK-001");
    assert_eq!(result.yaml, "id: x");
    assert_eq!(result.draft_path.as_deref(), Some("rules/_drafts/a.yml"));
}

#[test]
fn a_draft_with_issues_is_not_kept() {
    let d = draft("不存在的行业");
    let verdict = judge_draft(&d, 0);
    assert_eq!(verdict.file_name, None);
    let result = generation_result(&d, String::new(), &verdict.report, None);
    assert!(!result.passed);
    assert_eq!(result.issues.len(), 1);
    assert!(result.issues[0].starts_with("[industry] industry '不存在的行业' 不在分类体系内"));
    assert_eq!(result.draft_path, None);
}

#[test]
fn a_tool_knows_its_directory() {
    assert_eq!(GenerateRuleTool::new("rules/_drafts").drafts_dir, "rules/_drafts");
}

// ── Judging on the whole ──

#[test]
fn a_topic_is_made_of_a_rule() {
    let mut d = draft("通用");
    assert_eq!(
        topic_of(&d),
        "招标人应依法进行资格审查。。合规建议：招标人应依法进行资格审查。"
    );
    d.source.excerpt = Some("原文".to_string());
    assert_eq!(topic_of(&d), "原文。合规建议：招标人应依法进行资格审查。");
}

#[test]
fn errors_of_the_surroundings_are_skipped() {
    for msg in ["HTTP 401", "InvalidApiKey", "API 请求失败: x", "LLM API 请求失败"] {
        assert!(is_environment_error(msg));
    }
    assert!(!is_environment_error("LLM 输出无法解析为规则模型"));
    let mut tally = Tally { passed: 0, failed: 0, skipped: 0 };
    count_outcome(&mut tally, &Outcome::Passed);
    count_outcome(&mut tally, &Outcome::Failed(vec!["x".to_string()]));
    count_outcome(&mut tally, &Outcome::Broken("HTTP 401".to_string()));
    count_outcome(&mut tally, &Outcome::Broken("x".to_string()));
    assert_eq!((tally.passed, tally.failed, tally.skipped), (1, 2, 1));
}

#[test]
fn four_fifths_are_not_enough() {
    assert!(!above_threshold(0, 0));
    assert!(!above_threshold(4, 5));
    assert!(above_threshold(7, 8));
    assert!(!above_threshold(usize::MAX / 2, usize::MAX));
    assert!(above_threshold(usize::MAX, usize::MAX));
}

fn found(rule_id: &str) -> RuleMatch {
    RuleMatch {
        rule_id: rule_id.to_string(),
        clause_id: String::new(),
        severity: String::new(),
        category: String::new(),
        suggestion: String::new(),
        law_ref: String::new(),
        matched_text: String::new(),
    }
}

#[test]
fn findings_are_told_by_their_rules() {
    let list = vec![found("A"), found("B"), found("A")];
    assert!(hits_rule(&list, "B"));
    assert!(!hits_rule(&list, "C"));
    let first: Vec<bool> = (0..3).map(|i| is_first_of_rule(&list, i)).collect();
    assert_eq!(first, vec![true, true, false]);
}

#[test]
fn cases_fail_where_a_text_is_not_hit_as_expected() {
    let case = Case {
        rule_id: "A".to_string(),
        document_type: "招标文件".to_string(),
        chapters: Vec::new(),
        positive: vec!["甲".to_string(), "乙".to_string()],
        negative: vec!["丙".to_string()],
    };
    assert!(judge_case(&case, &vec![true, true], &vec![false]).is_empty());
    assert_eq!(
        judge_case(&case, &vec![true, false], &vec![true]),
        vec!["  正例未命中: [A] 乙", "  负例误报: [A] 丙"]
    );
    assert_eq!(uncovered_rules(&vec!["A", "B", "C"], &vec![case]), vec!["B", "C"]);
}

#[test]
fn a_case_makes_a_document() {
    let doc = ai_bid::document::build_doc(
        "招标文件",
        &vec!["第一章".to_string()],
        vec!["预算100元".to_string(), "无".to_string()],
    );
    assert_eq!(doc.file_name, "招标文件");
    assert_eq!(doc.chapters[0].title, "第一章");
    assert_eq!(doc.clauses.len(), 2);
    assert_eq!((doc.clauses[1].id.as_str(), doc.clauses[1].page), ("case_1", 1));
    assert_eq!(doc.clauses[1].text, "无");
    assert_eq!(doc.metrics.len(), 1);
    assert_eq!(doc.metrics[0].name, "采购预算金额");
}

#[test]
fn a_draft_stays_in_its_directory() {
    let mut d = draft("通用");
    for (id, name) in [
        ("../x", ".._x-7.yml"),
        ("a\\b/c", "a_b_c-7.yml"),
        ("规则-1", "规则-1-7.yml"),
        ("", "-7.yml"),
    ] {
        d.id = id.to_string();
        let verdict = judge_draft(&d, 7);
        assert_eq!(verdict.file_name.as_deref(), Some(name));
    }
}

#[test]
fn a_draft_is_found_among_other_text() {
    let take = |reply: &str| GenerateRuleTool::extract_yaml(reply);
    assert_eq!(take("  好的：\n```yml\n id: A\n\n```\n以上。  \n"), "id: A");
    assert_eq!(take("`x` 草稿 ```\nid: B\n``` 完"), "id: B");
    assert_eq!(take("```yaml\nid: C"), "```yaml\nid: C");
    assert_eq!(take("`````` id: D"), "");
}
