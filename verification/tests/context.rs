//! The passage for the prompt of an agent.

use ai_bid::context::{build_agent_context, count_critical, push_finding};
use ai_bid::schema::{Chapter, Clause, ParsedDocument, RuleMatch};

fn doc_with_clauses(texts: Vec<&str>) -> ParsedDocument {
    ParsedDocument {
        file_name: "招标文件.docx".to_string(),
        chapters: vec![Chapter { title: "投标人资格要求".to_string() }],
        clauses: texts
            .into_iter()
            .enumerate()
            .map(|(i, text)| Clause {
                id: format!("C-{}", i + 1),
                page: (i + 1) as u32,
                text: text.to_string(),
            })
            .collect(),
        metrics: Vec::new(),
    }
}

fn match_critical() -> RuleMatch {
    RuleMatch {
        rule_id: "DISC-001".to_string(),
        clause_id: "C-1".to_string(),
        severity: "critical".to_string(),
        category: "排斥性条款".to_string(),
        suggestion: "建议删除地域性要求。".to_string(),
        law_ref: "《中华人民共和国招标投标法》第十八条".to_string(),
        matched_text: "投标人须在本市注册成立满三年。".to_string(),
    }
}

#[test]
fn context_counts_confirmed_and_critical() {
    let doc = doc_with_clauses(vec!["投标人须在本市注册成立满三年。", "投标人须具备施工总承包二级资质。"]);
    let ctx = build_agent_context(&[match_critical()], &doc);
    assert!(ctx.contains("已标记 1 个问题（critical: 1）"), "应统计命中数与 critical 数");
    assert!(ctx.contains("## 初审结果（规则引擎自动检测）"));
    assert!(ctx.contains("DISC-001"));
    assert!(ctx.contains("《中华人民共和国招标投标法》第十八条"));
}

#[test]
fn matched_clause_excluded_from_pending() {
    let doc = doc_with_clauses(vec!["投标人须在本市注册成立满三年。", "另一条独立条款。"]);
    let ctx = build_agent_context(&[match_critical()], &doc);
    assert!(!ctx.contains("C-1:"), "已命中的 C-1 不应在待审查列表");
    assert!(ctx.contains("C-2:"), "未命中的 C-2 应在待审查列表");
    assert!(ctx.contains("## 需要深度语义审查的条款"));
}

#[test]
fn empty_matches_all_clauses_pending() {
    let doc = doc_with_clauses(vec!["条款甲。", "条款乙。"]);
    let ctx = build_agent_context(&[], &doc);
    assert!(ctx.contains("已标记 0 个问题（critical: 0）"));
    assert!(ctx.contains("C-1:"));
    assert!(ctx.contains("C-2:"));
}

#[test]
fn pending_list_capped_at_ten() {
    let texts: Vec<String> = (0..15).map(|i| format!("条款{}。", i)).collect();
    let text_refs: Vec<&str> = texts.iter().map(|s| s.as_str()).collect();
    let doc = doc_with_clauses(text_refs);
    let ctx = build_agent_context(&[], &doc);
    let pending_entries = ctx
        .lines()
        .filter(|l| l.starts_with("- 第 ") && l.contains(": "))
        .count();
    assert_eq!(pending_entries, 10, "待审查列表应最多展示 10 条");
}

#[test]
fn the_whole_passage() {
    let doc = doc_with_clauses(vec!["投标人须在本市注册成立满三年。", "另一条独立条款。"]);
    let ctx = build_agent_context(&[match_critical()], &doc);
    assert_eq!(
        ctx,
        "## 初审结果（规则引擎自动检测）\n\n\
         已标记 1 个问题（critical: 1）。以下问题已由确定性规则确认，可直接引用到审核报告：\n\n\
         - [CRITICAL] 排斥性条款 (DISC-001): 投标人须在本市注册成立满三年。\n  \
         依据: 《中华人民共和国招标投标法》第十八条\n  建议: 建议删除地域性要求。\n\
         \n## 需要深度语义审查的条款\n\n\
         - 第 2 页 C-2: 另一条独立条款。...\n"
    );
}

#[test]
fn a_long_clause_is_cut() {
    let long = "长".repeat(80);
    let doc = doc_with_clauses(vec![&long]);
    let ctx = build_agent_context(&[], &doc);
    assert!(ctx.ends_with(&format!("C-1: {}...\n", "长".repeat(60))));
}

#[test]
fn only_critical_findings_are_counted() {
    let mut high = match_critical();
    high.severity = "high".to_string();
    assert_eq!(count_critical(&[match_critical(), high, match_critical()]), 2);
}

#[test]
fn a_finding_is_listed_under_the_given_severity() {
    let mut text = String::from("> ");
    push_finding(&mut text, &match_critical(), "X");
    assert!(text.starts_with("> - [X] 排斥性条款 (DISC-001): "));
    assert!(text.ends_with("\n  建议: 建议删除地域性要求。\n"));
}
